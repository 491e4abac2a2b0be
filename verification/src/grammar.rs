//! What a scan of a source text yields, stated over the cursor model.

use crate::chars::{alphanumeric, char_kind, digit, CharKind};
use crate::cursor::{lemma_advance_n_within, lemma_run_len_bound, other_than, run_len, Cursor};
use crate::error::LexerError;
use crate::token::{word_type, TokenType, TokenView};
use vstd::prelude::*;

verus! {

/// The outcome of scanning one token, error or stretch of ignored text.
pub struct Step {
    /// The token found, if any.
    pub token: Option<TokenView>,
    /// The error found, if any.
    pub error: Option<LexerError>,
    /// Where the scan goes on.
    pub cursor: Cursor,
}

/// The outcome of scanning a text to its end.
pub struct Scan {
    /// The tokens, in source order.
    pub tokens: Seq<TokenView>,
    /// The errors, in source order.
    pub errors: Seq<LexerError>,
    /// Where the scan stopped.
    pub cursor: Cursor,
}

/// The predicate of decimal digits.
pub open spec fn digits() -> spec_fn(char) -> bool {
    |c: char| digit(c)
}

/// The predicate of the characters that continue a name.
pub open spec fn name_chars() -> spec_fn(char) -> bool {
    |c: char| alphanumeric(c)
}

/// The number of characters of a numeric literal that follow its first
/// digit: the digits after it and, if a `.` comes next, that `.` and the
/// digits after it.
pub open spec fn number_tail_len(s: Seq<char>) -> nat {
    let whole = run_len(s, digits());
    if whole < s.len() && s[whole as int] == '.' {
        whole + 1 + run_len(s.skip((whole + 1) as int), digits())
    } else {
        whole
    }
}

/// The number of characters up to and including the first `stop`, or,
/// where there is none, of the whole text.
pub open spec fn past_len(s: Seq<char>, stop: char) -> nat {
    let before = run_len(s, other_than(stop));
    if before < s.len() {
        before + 1
    } else {
        before
    }
}

/// The cursor after everything up to and including the first `stop`, or,
/// where there is none, at the end of the text.
pub open spec fn past(cur: Cursor, stop: char) -> Cursor {
    cur.advance_n(past_len(cur.rest, stop))
}

/// A step that yields a token.
pub open spec fn token_step(
    token_type: TokenType,
    lexeme: Seq<char>,
    line: nat,
    cursor: Cursor,
) -> Step {
    Step { token: Some(TokenView { token_type, lexeme, line }), error: None, cursor }
}

/// A step that yields an error.
pub open spec fn error_step(error: LexerError, cursor: Cursor) -> Step {
    Step { token: None, error: Some(error), cursor }
}

/// A step that yields nothing.
pub open spec fn skip_step(cursor: Cursor) -> Step {
    Step { token: None, error: None, cursor }
}

/// One step of the scan, from a cursor with text left. The first character
/// decides what is read; every token carries the line it starts on.
pub open spec fn scan_one(cur: Cursor) -> Step
    recommends
        cur.rest.len() > 0,
{
    let c = cur.rest[0];
    let after = cur.advance();
    match char_kind(c) {
        CharKind::Single(token_type) => token_step(token_type, cur.rest.take(1), cur.line, after),
        CharKind::Slash => if after.at('/') {
            skip_step(past(after.advance(), '\n'))
        } else {
            token_step(TokenType::Divide, cur.rest.take(1), cur.line, after)
        },
        CharKind::Comparison { alone, with_equals } => if after.at('=') {
            token_step(with_equals, cur.rest.take(2), cur.line, after.advance())
        } else {
            token_step(alone, cur.rest.take(1), cur.line, after)
        },
        CharKind::Bang => if after.at('=') {
            token_step(TokenType::NotEquals, cur.rest.take(2), cur.line, after.advance())
        } else {
            error_step(LexerError::UnexpectedChar { position: after.position(), c }, after)
        },
        CharKind::Quote => {
            let body = run_len(after.rest, other_than('"'));
            if body < after.rest.len() {
                token_step(
                    TokenType::String,
                    after.rest.take(body as int),
                    cur.line,
                    past(after, '"'),
                )
            } else {
                error_step(
                    LexerError::UnterminatedStringSequence {
                        starts_at: after.position(),
                        ends_at: past(after, '"').position(),
                    },
                    past(after, '"'),
                )
            }
        },
        CharKind::Blank => skip_step(after),
        CharKind::Letter => {
            let more = run_len(after.rest, name_chars());
            let name = cur.rest.take((1 + more) as int);
            token_step(word_type(name), name, cur.line, after.advance_n(more))
        },
        CharKind::Digit => {
            let more = number_tail_len(after.rest);
            let literal = cur.rest.take((1 + more) as int);
            token_step(TokenType::Number, literal, cur.line, after.advance_n(more))
        },
        CharKind::Unexpected => error_step(
            LexerError::UnexpectedChar { position: after.position(), c },
            after,
        ),
    }
}

/// A sequence of the one value, or of none.
pub open spec fn seq_of<T>(item: Option<T>) -> Seq<T> {
    match item {
        Some(x) => seq![x],
        None => Seq::empty(),
    }
}

/// The scan of a text from a cursor to the end: step after step, until
/// nothing is left.
pub open spec fn scan(cur: Cursor) -> Scan
    decreases cur.rest.len(),
    via scan_decreases
{
    if cur.rest.len() == 0 {
        Scan { tokens: Seq::empty(), errors: Seq::empty(), cursor: cur }
    } else {
        let step = scan_one(cur);
        let rest = scan(step.cursor);
        Scan {
            tokens: seq_of(step.token) + rest.tokens,
            errors: seq_of(step.error) + rest.errors,
            cursor: rest.cursor,
        }
    }
}

#[via_fn]
proof fn scan_decreases(cur: Cursor) {
    if cur.rest.len() > 0 {
        lemma_scan_one_consumes(cur);
    }
}

/// Advancing past a stop character consumes the text up to and including
/// the first stop, or all of it where there is none.
pub proof fn lemma_past_consumes(cur: Cursor, stop: char)
    ensures
        past_len(cur.rest, stop) <= cur.rest.len(),
        past(cur, stop).rest == cur.rest.skip(past_len(cur.rest, stop) as int),
        past(cur, stop).line >= cur.line,
{
    lemma_run_len_bound(cur.rest, other_than(stop));
    lemma_advance_n_within(cur, past_len(cur.rest, stop));
}

/// The tail of a number lies within the text.
pub proof fn lemma_number_tail_bound(s: Seq<char>)
    ensures
        number_tail_len(s) <= s.len(),
{
    let whole = run_len(s, digits());
    lemma_run_len_bound(s, digits());
    if whole < s.len() && s[whole as int] == '.' {
        lemma_run_len_bound(s.skip((whole + 1) as int), digits());
    }
}

/// Each step consumes at least one character and never goes back a line.
pub proof fn lemma_scan_one_consumes(cur: Cursor)
    requires
        cur.rest.len() > 0,
    ensures
        scan_one(cur).cursor.rest.len() < cur.rest.len(),
        scan_one(cur).cursor.line >= cur.line,
{
    let after = cur.advance();
    lemma_past_consumes(after, '"');
    lemma_past_consumes(after.advance(), '\n');
    lemma_run_len_bound(after.rest, name_chars());
    lemma_advance_n_within(after, run_len(after.rest, name_chars()));
    lemma_number_tail_bound(after.rest);
    lemma_advance_n_within(after, number_tail_len(after.rest));
}

} // verus!
