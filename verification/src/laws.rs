//! Laws of the scan: what holds for every text.

use crate::chars::{alphanumeric, char_kind, digit, CharKind};
use crate::cursor::{
    lemma_advance_n_add, lemma_advance_n_same_line, lemma_advance_n_then_one,
    lemma_advance_n_within, lemma_advance_one, lemma_run_len_bound, lemma_run_len_unique,
    other_than, run_len, Cursor,
};
use crate::error::LexerError;
use crate::grammar::{
    digits, lemma_number_tail_bound, lemma_past_consumes, lemma_scan_one_consumes, name_chars,
    number_tail_len, past, past_len, scan, scan_one,
};
use crate::token::{keyword_of, token_views, word_type, Token, TokenType, TokenView};
use vstd::prelude::*;

verus! {

/// Maximal munch: every character of a run satisfies `p`, and the run ends
/// only at the end of the text or before a character that does not.
pub proof fn lemma_run_is_maximal(s: Seq<char>, p: spec_fn(char) -> bool)
    ensures
        forall|i: int| 0 <= i < run_len(s, p) ==> p(#[trigger] s[i]),
        run_len(s, p) < s.len() ==> !p(s[run_len(s, p) as int]),
    decreases s.len(),
{
    if s.len() > 0 && p(s[0]) {
        let t = s.skip(1);
        lemma_run_is_maximal(t, p);
        lemma_run_len_bound(t, p);
        assert forall|i: int| 0 <= i < run_len(s, p) implies p(#[trigger] s[i]) by {
            if i > 0 {
                assert(s[i] == t[i - 1]);
            }
        }
        if run_len(s, p) < s.len() {
            assert(s[run_len(s, p) as int] == t[run_len(t, p) as int]);
        }
    }
}

/// A space, a tab or a newline.
pub open spec fn blank(c: char) -> bool {
    c == ' ' || c == '\t' || c == '\n'
}

/// Whether a text consists of blanks and line comments alone. A line
/// comment starts with `//` and ends with the line or with the text.
pub open spec fn only_blanks_and_comments(s: Seq<char>) -> bool
    decreases s.len(),
{
    if s.len() == 0 {
        true
    } else if blank(s[0]) {
        only_blanks_and_comments(s.skip(1))
    } else if s.len() >= 2 && s[0] == '/' && s[1] == '/' {
        let body = s.skip(2);
        let comment = run_len(body, other_than('\n'));
        if comment < body.len() {
            only_blanks_and_comments(body.skip((comment + 1) as int))
        } else {
            true
        }
    } else {
        false
    }
}

/// A text of blanks and comments alone yields no token and no error,
/// whatever the line and column the scan starts at.
pub proof fn lemma_blank_text_yields_nothing(cur: Cursor)
    requires
        only_blanks_and_comments(cur.rest),
    ensures
        scan(cur).tokens == Seq::<TokenView>::empty(),
        scan(cur).errors == Seq::<LexerError>::empty(),
    decreases cur.rest.len(),
{
    if cur.rest.len() > 0 {
        let s = cur.rest;
        let next = scan_one(cur).cursor;
        lemma_scan_one_consumes(cur);
        if !blank(s[0]) {
            let body = cur.advance().advance();
            assert(body.rest =~= s.skip(2));
            lemma_past_consumes(body, '\n');
            lemma_run_len_bound(body.rest, other_than('\n'));
        }
        lemma_blank_text_yields_nothing(next);
        assert(scan(cur).tokens =~= Seq::<TokenView>::empty());
        assert(scan(cur).errors =~= Seq::<LexerError>::empty());
    }
}

/// Whether `tokens` and `errors` are what a scan of `source` from its
/// start returns.
pub open spec fn is_scan_of(
    source: Seq<char>,
    tokens: Seq<Token>,
    errors: Seq<LexerError>,
) -> bool {
    &&& token_views(tokens) == scan(Cursor::start(source)).tokens
    &&& errors == scan(Cursor::start(source)).errors
}

/// Scanning is deterministic: two scans of the same text return the same
/// tokens and the same errors, one by one.
pub proof fn lemma_scan_deterministic(
    source: Seq<char>,
    first_tokens: Seq<Token>,
    first_errors: Seq<LexerError>,
    second_tokens: Seq<Token>,
    second_errors: Seq<LexerError>,
)
    requires
        is_scan_of(source, first_tokens, first_errors),
        is_scan_of(source, second_tokens, second_errors),
    ensures
        first_errors == second_errors,
        first_tokens.len() == second_tokens.len(),
        forall|i: int| 0 <= i < first_tokens.len() ==> first_tokens[i]@ == second_tokens[i]@,
{
    assert(token_views(first_tokens).len() == token_views(second_tokens).len());
    assert forall|i: int| 0 <= i < first_tokens.len() implies first_tokens[i]@
        == second_tokens[i]@ by {
        assert(token_views(first_tokens)[i] == token_views(second_tokens)[i]);
    }
}

/// The characters that are a token each, all by themselves.
pub open spec fn single_char_token(c: char) -> bool {
    c == '+' || c == '-' || c == '*' || c == ';' || c == '(' || c == ')' || c == '{' || c == '}'
}

/// A text that is one of `+ - * ; ( ) { }` yields exactly one token, whose
/// type is the one of that character, whose lexeme is that character and
/// whose line is 1, and no error.
pub proof fn lemma_single_char_token(c: char)
    requires
        single_char_token(c),
    ensures
        char_kind(c) is Single,
        scan(Cursor::start(seq![c])).tokens == seq![
            (TokenView { token_type: char_kind(c)->Single_0, lexeme: seq![c], line: 1 }),
        ],
        scan(Cursor::start(seq![c])).errors == Seq::<LexerError>::empty(),
{
    let cur = Cursor::start(seq![c]);
    assert(cur.rest.take(1) =~= seq![c]);
    assert(scan_one(cur).cursor.rest.len() == 0);
    reveal_with_fuel(scan, 3);
    assert(scan(cur).tokens =~= seq![scan_one(cur).token->0]);
    assert(scan(cur).errors =~= Seq::<LexerError>::empty());
}

/// The characters `=`, `>` and `<`, each a token alone and another one
/// together with a following `=`.
pub open spec fn comparison_char(c: char) -> bool {
    c == '=' || c == '>' || c == '<'
}

/// The type of the operator made of `c` and a following `=`.
pub open spec fn with_equals(c: char) -> TokenType {
    if c == '=' {
        TokenType::DoubleEquals
    } else if c == '>' {
        TokenType::GreaterOrEqual
    } else if c == '<' {
        TokenType::LessOrEqual
    } else {
        TokenType::NotEquals
    }
}

/// The two-character operators are read as one token, never as two: a
/// text of `=`, `>`, `<` or `!` followed by `=` yields exactly one token,
/// with both characters as its lexeme, and no error.
pub proof fn lemma_two_char_operator(c: char)
    requires
        comparison_char(c) || c == '!',
    ensures
        scan(Cursor::start(seq![c, '='])).tokens == seq![
            (TokenView { token_type: with_equals(c), lexeme: seq![c, '='], line: 1 }),
        ],
        scan(Cursor::start(seq![c, '='])).errors == Seq::<LexerError>::empty(),
{
    let cur = Cursor::start(seq![c, '=']);
    assert(cur.rest.take(2) =~= seq![c, '=']);
    assert(cur.advance().rest[0] == '=');
    assert(scan_one(cur).cursor.rest.len() == 0);
    reveal_with_fuel(scan, 3);
    assert(scan(cur).tokens =~= seq![scan_one(cur).token->0]);
    assert(scan(cur).errors =~= Seq::<LexerError>::empty());
}

/// The type of the operator made of `c` alone.
pub open spec fn alone(c: char) -> TokenType {
    if c == '=' {
        TokenType::Equals
    } else if c == '>' {
        TokenType::Greater
    } else {
        TokenType::Less
    }
}

/// Alone, each of `=`, `>` and `<` yields exactly one token and no error.
pub proof fn lemma_one_char_operator(c: char)
    requires
        comparison_char(c),
    ensures
        scan(Cursor::start(seq![c])).tokens == seq![
            (TokenView { token_type: alone(c), lexeme: seq![c], line: 1 }),
        ],
        scan(Cursor::start(seq![c])).errors == Seq::<LexerError>::empty(),
{
    let cur = Cursor::start(seq![c]);
    assert(cur.rest.take(1) =~= seq![c]);
    assert(scan_one(cur).cursor.rest.len() == 0);
    reveal_with_fuel(scan, 3);
    assert(scan(cur).tokens =~= seq![scan_one(cur).token->0]);
    assert(scan(cur).errors =~= Seq::<LexerError>::empty());
}

/// Whether Unicode, as std reads it, makes `text` a name: a first
/// character that starts a name and, after it, alphanumeric characters
/// alone.
pub open spec fn is_name(text: Seq<char>) -> bool {
    &&& text.len() > 0
    &&& char_kind(text[0]) == CharKind::Letter
    &&& forall|i: int| 1 <= i < text.len() ==> alphanumeric(text[i])
}

/// A text that is one name yields exactly one token and no error,
/// whatever the line and column the scan starts at. The token is of the
/// keyword's own type where the whole name spells a keyword, and an
/// identifier otherwise; its lexeme is the name, its line the one the scan
/// starts on.
pub proof fn lemma_name_token(cur: Cursor)
    ensures
        is_name(cur.rest) ==> scan(cur).tokens == seq![
            (TokenView { token_type: word_type(cur.rest), lexeme: cur.rest, line: cur.line }),
        ],
        is_name(cur.rest) ==> scan(cur).errors.len() == 0,
        keyword_of(cur.rest) is Some ==> word_type(cur.rest) == keyword_of(cur.rest)->0,
        keyword_of(cur.rest) is None ==> word_type(cur.rest) == TokenType::Identifier,
{
    let name = cur.rest;
    if is_name(name) {
        let after = cur.advance();
        let more = (name.len() - 1) as nat;
        assert forall|i: int| 0 <= i < more implies name_chars()(#[trigger] after.rest[i]) by {
            assert(after.rest[i] == name[i + 1]);
        }
        lemma_run_len_unique(after.rest, name_chars(), more);
        lemma_advance_n_within(after, more);
        assert(cur.rest.take((1 + more) as int) =~= name);
        let next = scan_one(cur).cursor;
        assert(next.rest.len() == 0);
        assert(scan(next).tokens =~= Seq::<TokenView>::empty());
        assert(scan(cur).tokens =~= seq![scan_one(cur).token->0]);
        assert(scan(cur).errors =~= Seq::<LexerError>::empty());
    }
}

/// Whether `text` has the shape of a numeric literal: one digit or more
/// and then, at most once, a `.` and any number of digits, none included.
/// `whole` is the number of digits before the `.` or the end.
pub open spec fn is_number(text: Seq<char>, whole: int) -> bool {
    &&& 1 <= whole <= text.len()
    &&& forall|i: int| 0 <= i < whole ==> digit(text[i])
    &&& whole < text.len() ==> text[whole] == '.'
    &&& forall|i: int| whole < i < text.len() ==> digit(text[i])
}

/// A text that is one numeric literal yields exactly one number token,
/// whose lexeme is the whole text, a trailing `.` included, and no error,
/// whatever the line and column the scan starts at. This holds wherever
/// std does not count the first digit as alphabetic.
pub proof fn lemma_number_token(cur: Cursor, whole: int)
    requires
        is_number(cur.rest, whole),
    ensures
        char_kind(cur.rest[0]) == CharKind::Digit ==> scan(cur).tokens == seq![
            (TokenView { token_type: TokenType::Number, lexeme: cur.rest, line: cur.line }),
        ],
        char_kind(cur.rest[0]) == CharKind::Digit ==> scan(cur).errors.len() == 0,
{
    let text = cur.rest;
    if char_kind(text[0]) == CharKind::Digit {
        let after = cur.advance();
        let first = (whole - 1) as nat;
        assert forall|i: int| 0 <= i < first implies digits()(#[trigger] after.rest[i]) by {
            assert(after.rest[i] == text[i + 1]);
        }
        if first < after.rest.len() {
            assert(after.rest[first as int] == text[whole]);
        }
        lemma_run_len_unique(after.rest, digits(), first);
        if whole < text.len() {
            let fraction = after.rest.skip((first + 1) as int);
            assert forall|i: int| 0 <= i < fraction.len() implies digits()(
                #[trigger] fraction[i],
            ) by {
                assert(fraction[i] == text[whole + 1 + i]);
            }
            lemma_run_len_unique(fraction, digits(), fraction.len());
        }
        let more = number_tail_len(after.rest);
        assert(more == text.len() - 1);
        lemma_advance_n_within(after, more);
        assert(cur.rest.take((1 + more) as int) =~= text);
        let next = scan_one(cur).cursor;
        assert(next.rest.len() == 0);
        assert(scan(next).tokens =~= Seq::<TokenView>::empty());
        assert(scan(cur).tokens =~= seq![scan_one(cur).token->0]);
        assert(scan(cur).errors =~= Seq::<LexerError>::empty());
    }
}

/// The line of the token at index `i` of a scan from `cur`.
pub open spec fn line_of(cur: Cursor, i: int) -> nat {
    scan(cur).tokens[i].line
}

/// Tokens come in source order: no token starts on a line before the one
/// the scan starts at, and lines never decrease along the sequence.
pub proof fn lemma_token_lines_ordered(cur: Cursor)
    ensures
        forall|i: int| 0 <= i < scan(cur).tokens.len() ==> cur.line <= line_of(cur, i),
        forall|i: int, j: int|
            0 <= i <= j < scan(cur).tokens.len() ==> line_of(cur, i) <= line_of(cur, j),
    decreases cur.rest.len(),
{
    if cur.rest.len() > 0 {
        let step = scan_one(cur);
        let next = step.cursor;
        lemma_scan_one_consumes(cur);
        lemma_token_lines_ordered(next);
        let all = scan(cur).tokens;
        if step.token is Some {
            assert forall|i: int| 0 <= i < all.len() implies cur.line <= line_of(cur, i) by {
                if i > 0 {
                    assert(line_of(cur, i) == line_of(next, i - 1));
                }
            }
            assert forall|i: int, j: int| 0 <= i <= j < all.len() implies line_of(cur, i)
                <= line_of(cur, j) by {
                if i > 0 {
                    assert(line_of(cur, i) == line_of(next, i - 1));
                }
                if j > 0 {
                    assert(line_of(cur, j) == line_of(next, j - 1));
                }
            }
        } else {
            assert(all =~= scan(next).tokens);
            assert forall|i: int| 0 <= i < all.len() implies line_of(cur, i) == line_of(
                next,
                i,
            ) by {}
        }
    }
}

/// A string literal: a text that is a `"`, a body without any `"` and a
/// closing `"` yields exactly one string token, whose lexeme is the body
/// without the quotes, and no error.
pub proof fn lemma_string_literal(body: Seq<char>)
    requires
        forall|i: int| 0 <= i < body.len() ==> body[i] != '"',
    ensures
        scan(Cursor::start(seq!['"'] + body + seq!['"'])).tokens == seq![
            (TokenView { token_type: TokenType::String, lexeme: body, line: 1 }),
        ],
        scan(Cursor::start(seq!['"'] + body + seq!['"'])).errors == Seq::<LexerError>::empty(),
{
    let cur = Cursor::start(seq!['"'] + body + seq!['"']);
    let after = cur.advance();
    assert(after.rest =~= body + seq!['"']);
    lemma_run_len_unique(after.rest, other_than('"'), body.len());
    lemma_past_consumes(after, '"');
    assert(after.rest.take(body.len() as int) =~= body);
    let next = scan_one(cur).cursor;
    assert(next.rest.len() == 0);
    assert(scan(next).tokens =~= Seq::<TokenView>::empty());
    assert(scan(cur).tokens =~= seq![
        (TokenView { token_type: TokenType::String, lexeme: body, line: 1 }),
    ]);
    assert(scan(cur).errors =~= Seq::<LexerError>::empty());
}

/// The error for a string that is opened by the first character of a
/// text and not closed before the text ends: it names the place of the
/// opening quote and the end of the text, where the scan gave up.
pub open spec fn unterminated_from_start(body: Seq<char>) -> LexerError {
    let opened = Cursor { rest: body, line: 1, column: 1 };
    LexerError::UnterminatedStringSequence {
        starts_at: opened.position(),
        ends_at: opened.advance_n(body.len()).position(),
    }
}

/// An unterminated string: a text that is a `"` and a body without any
/// `"` yields no token and exactly one error, which names line 1, column 1
/// as the place of the opening quote.
pub proof fn lemma_unterminated_string(body: Seq<char>)
    requires
        forall|i: int| 0 <= i < body.len() ==> body[i] != '"',
    ensures
        scan(Cursor::start(seq!['"'] + body)).tokens == Seq::<TokenView>::empty(),
        scan(Cursor::start(seq!['"'] + body)).errors == seq![unterminated_from_start(body)],
        unterminated_from_start(body)->starts_at.line == 1,
        unterminated_from_start(body)->starts_at.column == 1,
{
    let cur = Cursor::start(seq!['"'] + body);
    let after = cur.advance();
    assert(after.rest =~= body);
    lemma_run_len_unique(after.rest, other_than('"'), body.len());
    lemma_past_consumes(after, '"');
    let next = scan_one(cur).cursor;
    assert(next.rest.len() == 0);
    assert(scan(next).errors =~= Seq::<LexerError>::empty());
    assert(scan(cur).tokens =~= Seq::<TokenView>::empty());
    assert(scan(cur).errors =~= seq![scan_one(cur).error->0]);
}

/// A line comment: a text that starts with `//` is scanned as what
/// follows the end of that line is scanned from line 2, column 0. The
/// comment itself yields nothing.
pub proof fn lemma_comment_line(comment: Seq<char>, rest: Seq<char>)
    requires
        forall|i: int| 0 <= i < comment.len() ==> comment[i] != '\n',
    ensures
        scan(Cursor::start(seq!['/', '/'] + comment + seq!['\n'] + rest)) == scan(
            (Cursor { rest, line: 2, column: 0 }),
        ),
{
    let cur = Cursor::start(seq!['/', '/'] + comment + seq!['\n'] + rest);
    let after = cur.advance();
    assert(after.rest[0] == '/');
    let body = after.advance();
    assert(body.rest =~= comment + seq!['\n'] + rest);
    let n = comment.len();
    lemma_run_len_unique(body.rest, other_than('\n'), n);
    lemma_advance_n_within(body, n);
    lemma_advance_n_same_line(body, n);
    lemma_advance_n_then_one(body, n);
    let next = scan_one(cur).cursor;
    assert(next == past(body, '\n'));
    assert(body.advance_n(n).rest[0] == '\n');
    assert(next.rest =~= rest);
    assert(next == Cursor { rest, line: 2, column: 0 });
    assert(scan(cur).tokens =~= scan(next).tokens);
    assert(scan(cur).errors =~= scan(next).errors);
}

/// Each step of the scan is a number of steps of the cursor: at least
/// one, and no more than there are characters left.
pub proof fn lemma_scan_one_steps(cur: Cursor) -> (steps: nat)
    requires
        cur.rest.len() > 0,
    ensures
        1 <= steps <= cur.rest.len(),
        scan_one(cur).cursor == cur.advance_n(steps),
{
    let after = cur.advance();
    let next = scan_one(cur).cursor;
    lemma_advance_one(cur);
    lemma_advance_n_within(cur, 1);
    let more: nat = match char_kind(cur.rest[0]) {
        CharKind::Single(_) | CharKind::Blank | CharKind::Unexpected => 0,
        CharKind::Slash => if after.at('/') {
            let body = after.advance();
            lemma_advance_n_within(after, 1);
            lemma_past_consumes(body, '\n');
            lemma_advance_n_add(after, 1, past_len(body.rest, '\n'));
            lemma_advance_one(after);
            past_len(body.rest, '\n') + 1
        } else {
            0
        },
        CharKind::Comparison { .. } | CharKind::Bang => if after.at('=') {
            lemma_advance_one(after);
            1
        } else {
            0
        },
        CharKind::Quote => {
            lemma_past_consumes(after, '"');
            past_len(after.rest, '"')
        },
        CharKind::Letter => {
            lemma_run_len_bound(after.rest, name_chars());
            run_len(after.rest, name_chars())
        },
        CharKind::Digit => {
            lemma_number_tail_bound(after.rest);
            number_tail_len(after.rest)
        },
    };
    assert(after.advance_n(0) == after);
    assert(next == after.advance_n(more));
    lemma_advance_n_add(cur, 1, more);
    1 + more
}

/// A scan always reaches the end of the text and stops there: the cursor
/// it ends at is the one reached by a step for each character left, so its
/// line is the line of the end of the text and its column the number of
/// characters of the last line.
pub proof fn lemma_scan_reaches_end(cur: Cursor)
    ensures
        scan(cur).cursor == cur.advance_n(cur.rest.len()),
        scan(cur).cursor.rest.len() == 0,
    decreases cur.rest.len(),
{
    if cur.rest.len() > 0 {
        let steps = lemma_scan_one_steps(cur);
        let next = scan_one(cur).cursor;
        lemma_advance_n_within(cur, steps);
        lemma_scan_reaches_end(next);
        lemma_advance_n_add(cur, steps, next.rest.len());
    }
}

/// Whether `piece` stands in `text` from index `from` on.
pub open spec fn occurs_at(piece: Seq<char>, text: Seq<char>, from: int) -> bool {
    &&& 0 <= from
    &&& from + piece.len() <= text.len()
    &&& piece == text.subrange(from, from + piece.len())
}

/// Whether `piece` stands somewhere in `text`, as it is and in one piece.
pub open spec fn occurs_in(piece: Seq<char>, text: Seq<char>) -> bool {
    exists|from: int| occurs_at(piece, text, from)
}

/// The lexeme of the token that a step yields stands in the text that the
/// step consumes: at its start, or, for a string, after the opening quote.
pub proof fn lemma_step_lexeme_in_text(cur: Cursor) -> (from: int)
    requires
        cur.rest.len() > 0,
        scan_one(cur).token is Some,
    ensures
        occurs_at(scan_one(cur).token->0.lexeme, cur.rest, from),
        from == 0 || from == 1,
{
    let after = cur.advance();
    let lexeme = scan_one(cur).token->0.lexeme;
    lemma_past_consumes(after, '"');
    lemma_run_len_bound(after.rest, other_than('"'));
    lemma_run_len_bound(after.rest, name_chars());
    lemma_advance_n_within(after, run_len(after.rest, name_chars()));
    lemma_number_tail_bound(after.rest);
    lemma_advance_n_within(after, number_tail_len(after.rest));
    if char_kind(cur.rest[0]) == CharKind::Quote {
        assert(lexeme =~= cur.rest.subrange(1, (1 + lexeme.len()) as int));
        1
    } else {
        assert(lexeme =~= cur.rest.subrange(0, lexeme.len() as int));
        0
    }
}

/// Every lexeme is taken from the source as it stands there: the lexeme of
/// each token of a scan occurs in the text that was scanned.
pub proof fn lemma_lexemes_from_source(cur: Cursor, i: int)
    requires
        0 <= i < scan(cur).tokens.len(),
    ensures
        occurs_in(scan(cur).tokens[i].lexeme, cur.rest),
    decreases cur.rest.len(),
{
    assert(cur.rest.len() > 0);
    let step = scan_one(cur);
    let next = step.cursor;
    lemma_scan_one_consumes(cur);
    if step.token is Some && i == 0 {
        let from = lemma_step_lexeme_in_text(cur);
        assert(occurs_at(scan(cur).tokens[i].lexeme, cur.rest, from));
    } else {
        let j = if step.token is Some {
            i - 1
        } else {
            i
        };
        assert(scan(cur).tokens[i] == scan(next).tokens[j]);
        lemma_lexemes_from_source(next, j);
        let lexeme = scan(next).tokens[j].lexeme;
        let from = choose|from: int| occurs_at(lexeme, next.rest, from);
        let steps = lemma_scan_one_steps(cur);
        lemma_advance_n_within(cur, steps);
        assert(next.rest.subrange(from, from + lexeme.len()) =~= cur.rest.subrange(
            steps + from,
            steps + from + lexeme.len(),
        ));
        assert(occurs_at(lexeme, cur.rest, steps + from));
    }
}

} // verus!
