//! The scanner: a cursor over the source text and the primitives that move it.

use crate::chars::{char_kind, classify, is_alphabetic, is_alphanumeric, is_digit, CharKind};
use crate::cursor::{
    lemma_advance_n_add, lemma_advance_n_then_one, lemma_advance_n_within, lemma_run_len_unique,
    other_than, run_len, Cursor,
};
use crate::error::{LexerError, Position};
use crate::grammar::{
    digits, lemma_scan_one_consumes, name_chars, number_tail_len, past, scan, scan_one, seq_of,
};
use crate::text::{extend_chars, string_from, string_of, string_of_two};
use crate::token::{keyword, token_view_of, token_views, Token, TokenType};
use vstd::prelude::*;

verus! {

/// A scanner over a source text. It remembers how far it has read and the
/// line and column it has reached.
pub struct Lexer {
    chars: Vec<char>,
    pos: usize,
    line: usize,
    column: usize,
}

impl View for Lexer {
    type V = Cursor;

    closed spec fn view(&self) -> Cursor {
        Cursor {
            rest: self.chars@.skip(self.pos as int),
            line: self.line as nat,
            column: self.column as nat,
        }
    }
}

impl Lexer {
    #[verifier::type_invariant]
    spec fn inv(self) -> bool {
        &&& self.pos <= self.chars.len()
        &&& self.line + (self.chars.len() - self.pos) <= usize::MAX
        &&& self.column <= self.pos
    }

    /// A scanner at the start of `source`.
    pub fn new(source: &str) -> (lexer: Lexer)
        requires
            source@.len() < usize::MAX,
        ensures
            lexer@ == Cursor::start(source@),
    {
        broadcast use vstd::string::group_string_axioms;

        let mut chars: Vec<char> = Vec::new();
        for c in it: source.chars()
            invariant
                chars@ == it.history(),
        {
            chars.push(c);
        }
        assert(chars@ =~= source@);
        assert(chars@.skip(0) =~= source@);
        Lexer { chars, pos: 0, line: 1, column: 0 }
    }

    /// The line reached: one more than the number of newlines consumed.
    pub fn line(&self) -> (line: usize)
        ensures
            line == self@.line,
    {
        self.line
    }

    /// The column reached: the number of characters consumed on the
    /// current line.
    pub fn column(&self) -> (column: usize)
        ensures
            column == self@.column,
    {
        self.column
    }

    /// Peek at the next character without advancing the position in the input.
    ///
    /// Returns None if the end of the input is reached.
    pub fn peek(&self) -> (next: Option<&char>)
        ensures
            (match next {
                Some(c) => self@.peek() == Some(*c),
                None => self@.peek() is None,
            }),
    {
        proof {
            use_type_invariant(self);
        }
        if self.pos < self.chars.len() {
            Some(&self.chars[self.pos])
        } else {
            None
        }
    }

    /// Advance by one character, returning it.
    ///
    /// Returns None if the end of the input is reached, and consumes
    /// nothing then: line and column stay as they are.
    pub fn advance(&mut self) -> (next: Option<char>)
        ensures
            next == old(self)@.peek(),
            final(self)@ == old(self)@.advance(),
    {
        proof {
            use_type_invariant(&*self);
        }
        if self.pos < self.chars.len() {
            let c = self.chars[self.pos];
            self.pos += 1;
            if c == '\n' {
                self.line += 1;
                self.column = 0;
            } else {
                self.column += 1;
            }
            proof {
                assert(self@.rest =~= old(self)@.rest.skip(1));
            }
            Some(c)
        } else {
            None
        }
    }

    /// Advance if the next character is equal to `expected`.
    pub fn advance_if_equal(&mut self, expected: char) -> (advanced: bool)
        ensures
            advanced == old(self)@.at(expected),
            advanced ==> final(self)@ == old(self)@.advance(),
            !advanced ==> final(self)@ == old(self)@,
    {
        match self.peek() {
            None => false,
            Some(c) => {
                if *c == expected {
                    self.advance();
                    true
                } else {
                    false
                }
            },
        }
    }

    /// Advance until the next character is equal to `expected`.
    ///
    /// Returns a vector of all characters through which the lexer advanced,
    /// and consumes `expected` too, which is not part of the output vector.
    ///
    /// Returns an error if the lexer ran out of input before finding a match:
    /// the whole input is consumed then.
    pub fn advance_until_equal(&mut self, expected: char) -> (found: Result<Vec<char>, ()>)
        ensures
            (match found {
                Ok(out) => {
                    &&& out@.len() < old(self)@.rest.len()
                    &&& out@ == old(self)@.rest.take(out@.len() as int)
                    &&& forall|i: int| 0 <= i < out@.len() ==> out@[i] != expected
                    &&& old(self)@.rest[out@.len() as int] == expected
                    &&& final(self)@ == old(self)@.advance_n(out@.len() + 1)
                },
                Err(_) => {
                    &&& forall|i: int|
                        0 <= i < old(self)@.rest.len() ==> old(self)@.rest[i] != expected
                    &&& final(self)@ == old(self)@.advance_n(old(self)@.rest.len())
                },
            }),
    {
        let ghost start = self@;
        let mut out: Vec<char> = Vec::new();
        loop
            invariant
                start == old(self)@,
                out@.len() <= start.rest.len(),
                out@ == start.rest.take(out@.len() as int),
                forall|i: int| 0 <= i < out@.len() ==> out@[i] != expected,
                self@ == start.advance_n(out@.len()),
            decreases start.rest.len() - out@.len(),
        {
            proof {
                lemma_advance_n_within(start, out@.len());
                lemma_advance_n_then_one(start, out@.len());
            }
            match self.advance() {
                Some(c) => {
                    if c == expected {
                        return Ok(out);
                    }
                    out.push(c);
                    assert(out@ =~= start.rest.take(out@.len() as int));
                },
                None => {
                    assert(out@ =~= start.rest);
                    return Err(());
                },
            }
        }
    }

    /// Advance as long as the provided closure evaluates to true for the next character.
    ///
    /// Returns a vector of all characters through which the lexer advanced:
    /// the longest run of characters at the cursor that `f` accepts.
    pub fn advance_while_matching<F>(&mut self, f: F) -> (out: Vec<char>) where
        F: Fn(char) -> bool,

        requires
            forall|c: char| #[trigger] f.requires((c,)),
        ensures
            out@.len() <= old(self)@.rest.len(),
            out@ == old(self)@.rest.take(out@.len() as int),
            forall|i: int| 0 <= i < out@.len() ==> f.ensures((#[trigger] out@[i],), true),
            out@.len() < old(self)@.rest.len() ==> f.ensures(
                (old(self)@.rest[out@.len() as int],),
                false,
            ),
            final(self)@ == old(self)@.advance_n(out@.len()),
    {
        let ghost start = self@;
        let mut out: Vec<char> = Vec::new();
        loop
            invariant
                start == old(self)@,
                out@.len() <= start.rest.len(),
                out@ == start.rest.take(out@.len() as int),
                forall|i: int| 0 <= i < out@.len() ==> f.ensures((#[trigger] out@[i],), true),
                self@ == start.advance_n(out@.len()),
                forall|c: char| #[trigger] f.requires((c,)),
            decreases start.rest.len() - out@.len(),
        {
            proof {
                lemma_advance_n_within(start, out@.len());
                lemma_advance_n_then_one(start, out@.len());
            }
            let next = match self.peek() {
                Some(c) => *c,
                None => { return out; },
            };
            if !f(next) {
                return out;
            }
            self.advance();
            out.push(next);
            assert(out@ =~= start.rest.take(out@.len() as int));
        }
    }

    /// Where the scanner stands, as reported in diagnostics.
    fn position(&self) -> (position: Position)
        ensures
            position == self@.position(),
    {
        Position { line: self.line, column: self.column }
    }

    /// Read what is left of a name after its first character `first`, and
    /// tell keywords from identifiers.
    fn name(&mut self, first: char, line: usize, Ghost(cur): Ghost<Cursor>) -> (token: Token)
        requires
            cur.rest.len() > 0,
            cur.rest[0] == first,
            cur.line == line,
            old(self)@ == cur.advance(),
        ensures
            char_kind(first) == CharKind::Letter ==> Some(token@) == scan_one(cur).token,
            final(self)@ == cur.advance().advance_n(run_len(cur.advance().rest, name_chars())),
    {
        let ghost after = self@;
        let more = self.advance_while_matching(is_alphanumeric);
        proof {
            assert forall|i: int| 0 <= i < more@.len() implies name_chars()(
                #[trigger] after.rest[i],
            ) by {
                assert(after.rest[i] == more@[i]);
            }
            lemma_run_len_unique(after.rest, name_chars(), more@.len());
        }
        let mut name: Vec<char> = Vec::new();
        name.push(first);
        extend_chars(&mut name, &more);
        assert(name@ =~= cur.rest.take((1 + more@.len()) as int));
        let token_type = match keyword(&name) {
            Some(t) => t,
            None => TokenType::Identifier,
        };
        Token { token_type, lexeme: string_from(&name), line }
    }

    /// Read what is left of a numeric literal after its first digit `first`:
    /// more digits and, if a `.` follows them, that `.` and the digits after it.
    fn number(&mut self, first: char, line: usize, Ghost(cur): Ghost<Cursor>) -> (token: Token)
        requires
            cur.rest.len() > 0,
            cur.rest[0] == first,
            cur.line == line,
            old(self)@ == cur.advance(),
        ensures
            char_kind(first) == CharKind::Digit ==> Some(token@) == scan_one(cur).token,
            final(self)@ == cur.advance().advance_n(number_tail_len(cur.advance().rest)),
    {
        let ghost after = self@;
        let whole = self.advance_while_matching(is_digit);
        proof {
            assert forall|i: int| 0 <= i < whole@.len() implies digits()(
                #[trigger] after.rest[i],
            ) by {
                assert(after.rest[i] == whole@[i]);
            }
            lemma_run_len_unique(after.rest, digits(), whole@.len());
            lemma_advance_n_within(after, whole@.len());
        }
        let mut number: Vec<char> = Vec::new();
        number.push(first);
        extend_chars(&mut number, &whole);
        if self.advance_if_equal('.') {
            number.push('.');
            let ghost point = self@;
            let fraction = self.advance_while_matching(is_digit);
            proof {
                assert(point.rest =~= after.rest.skip((whole@.len() + 1) as int));
                assert forall|i: int| 0 <= i < fraction@.len() implies digits()(
                    #[trigger] point.rest[i],
                ) by {
                    assert(point.rest[i] == fraction@[i]);
                }
                lemma_run_len_unique(point.rest, digits(), fraction@.len());
                lemma_advance_n_then_one(after, whole@.len());
                lemma_advance_n_add(after, whole@.len() + 1, fraction@.len());
            }
            extend_chars(&mut number, &fraction);
        }
        assert(number@ =~= cur.rest.take((1 + number_tail_len(after.rest)) as int));
        Token { token_type: TokenType::Number, lexeme: string_from(&number), line }
    }

    /// Read one token, error or stretch of ignored text, whose first
    /// character `first` has just been consumed on line `line`.
    fn step(&mut self, first: char, line: usize, Ghost(cur): Ghost<Cursor>) -> (found: (
        Option<Token>,
        Option<LexerError>,
    ))
        requires
            cur.rest.len() > 0,
            cur.rest[0] == first,
            cur.line == line,
            old(self)@ == cur.advance(),
        ensures
            token_view_of(found.0) == scan_one(cur).token,
            found.1 == scan_one(cur).error,
            final(self)@ == scan_one(cur).cursor,
    {
        let ghost after = self@;
        let position = self.position();
        assert(cur.rest.take(1) =~= seq![first]);
        match classify(first, is_alphabetic(first)) {
            CharKind::Single(token_type) => {
                let lexeme = string_of(first);
                (Some(Token { token_type, lexeme, line }), None)
            },
            CharKind::Slash => {
                if self.advance_if_equal('/') {
                    // Line comment: a comment that ends with the input is no error.
                    let ghost body = self@;
                    let comment = self.advance_until_equal('\n');
                    proof {
                        lemma_until_is_past(body, '\n', comment, self@);
                    }
                    (None, None)
                } else {
                    let lexeme = string_of(first);
                    (Some(Token { token_type: TokenType::Divide, lexeme, line }), None)
                }
            },
            CharKind::Comparison { alone, with_equals } => {
                if self.advance_if_equal('=') {
                    assert(cur.rest.take(2) =~= seq![first, '=']);
                    let lexeme = string_of_two(first, '=');
                    (Some(Token { token_type: with_equals, lexeme, line }), None)
                } else {
                    let lexeme = string_of(first);
                    (Some(Token { token_type: alone, lexeme, line }), None)
                }
            },
            CharKind::Bang => {
                if self.advance_if_equal('=') {
                    assert(cur.rest.take(2) =~= seq![first, '=']);
                    let lexeme = string_of_two(first, '=');
                    (Some(Token { token_type: TokenType::NotEquals, lexeme, line }), None)
                } else {
                    (None, Some(LexerError::UnexpectedChar { position, c: first }))
                }
            },
            CharKind::Quote => {
                let literal = self.advance_until_equal('"');
                proof {
                    lemma_until_is_past(after, '"', literal, self@);
                }
                match literal {
                    Ok(body) => {
                        let lexeme = string_from(&body);
                        (Some(Token { token_type: TokenType::String, lexeme, line }), None)
                    },
                    Err(_) => {
                        let ends_at = self.position();
                        let starts_at = position;
                        (None, Some(LexerError::UnterminatedStringSequence { starts_at, ends_at }))
                    },
                }
            },
            CharKind::Blank => (None, None),
            CharKind::Letter => {
                (Some(self.name(first, line, Ghost(cur))), None)
            },
            CharKind::Digit => {
                (Some(self.number(first, line, Ghost(cur))), None)
            },
            CharKind::Unexpected => {
                (None, Some(LexerError::UnexpectedChar { position, c: first }))
            },
        }
    }

    /// Scan what is left of the text to its end. Returns the tokens in
    /// source order and, beside them, the errors met on the way: an error
    /// never stops the scan.
    pub fn tokenize(&mut self) -> (result: (Vec<Token>, Vec<LexerError>))
        ensures
            token_views(result.0@) == scan(old(self)@).tokens,
            result.1@ == scan(old(self)@).errors,
            final(self)@ == scan(old(self)@).cursor,
    {
        let mut tokens: Vec<Token> = Vec::new();
        let mut errors: Vec<LexerError> = Vec::new();
        assert(token_views(tokens@) + scan(self@).tokens =~= scan(self@).tokens);
        assert(errors@ + scan(self@).errors =~= scan(self@).errors);
        loop
            invariant
                scan(old(self)@).tokens == token_views(tokens@) + scan(self@).tokens,
                scan(old(self)@).errors == errors@ + scan(self@).errors,
                scan(old(self)@).cursor == scan(self@).cursor,
            decreases self@.rest.len(),
        {
            let ghost cur = self@;
            let ghost tokens_before = tokens@;
            let ghost errors_before = errors@;
            let line = self.line();
            let first = match self.advance() {
                Some(c) => c,
                None => {
                    assert(token_views(tokens@) + scan(cur).tokens =~= token_views(tokens@));
                    assert(errors@ + scan(cur).errors =~= errors@);
                    return (tokens, errors);
                },
            };
            proof {
                lemma_scan_one_consumes(cur);
            }
            let found = self.step(first, line, Ghost(cur));
            if let Some(token) = found.0 {
                tokens.push(token);
            }
            if let Some(error) = found.1 {
                errors.push(error);
            }
            proof {
                let step = scan_one(cur);
                assert(token_views(tokens@) =~= token_views(tokens_before) + seq_of(step.token));
                assert(errors@ =~= errors_before + seq_of(step.error));
                assert(token_views(tokens@) + scan(self@).tokens =~= token_views(tokens_before)
                    + (seq_of(step.token) + scan(self@).tokens));
                assert(errors@ + scan(self@).errors =~= errors_before + (seq_of(step.error)
                    + scan(self@).errors));
            }
        }
    }
}

/// What `advance_until_equal` does, in the terms of the scan: it goes past
/// the first `stop`, and succeeds where there is one.
proof fn lemma_until_is_past(
    before: Cursor,
    stop: char,
    found: Result<Vec<char>, ()>,
    after: Cursor,
)
    requires
        (match found {
            Ok(out) => {
                &&& out@.len() < before.rest.len()
                &&& out@ == before.rest.take(out@.len() as int)
                &&& forall|i: int| 0 <= i < out@.len() ==> out@[i] != stop
                &&& before.rest[out@.len() as int] == stop
                &&& after == before.advance_n(out@.len() + 1)
            },
            Err(_) => {
                &&& forall|i: int| 0 <= i < before.rest.len() ==> before.rest[i] != stop
                &&& after == before.advance_n(before.rest.len())
            },
        }),
    ensures
        after == past(before, stop),
        (match found {
            Ok(out) => out@.len() == run_len(before.rest, other_than(stop)),
            Err(_) => before.rest.len() == run_len(before.rest, other_than(stop)),
        }),
{
    match found {
        Ok(out) => {
            assert forall|i: int| 0 <= i < out@.len() implies other_than(stop)(
                #[trigger] before.rest[i],
            ) by {
                assert(before.rest[i] == out@[i]);
            }
            lemma_run_len_unique(before.rest, other_than(stop), out@.len());
        },
        Err(_) => {
            lemma_run_len_unique(before.rest, other_than(stop), before.rest.len());
        },
    }
}

} // verus!
