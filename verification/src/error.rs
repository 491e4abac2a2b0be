//! Positions in the source text and the errors a scan can report.

use crate::text::{decimal, hexadecimal, push_numeral};
use vstd::prelude::*;

verus! {

/// Position within an input file.
#[derive(Debug, PartialEq, Eq, Structural, Clone, Copy)]
pub struct Position {
    pub line: usize,
    pub column: usize,
}

/// Errors returned by the lexer.
#[derive(Debug, PartialEq, Eq, Structural, Clone, Copy)]
pub enum LexerError {
    /// Returned when the lexer encountered an unterminated string sequence.
    UnterminatedStringSequence { starts_at: Position, ends_at: Position },
    /// Returned when the lexer encountered an unexpected character.
    UnexpectedChar { position: Position, c: char },
}

impl Position {
    /// The position as it is shown to a reader.
    pub open spec fn text(self) -> Seq<char> {
        "line "@ + decimal(self.line as nat) + ", column "@ + decimal(self.column as nat)
    }

    /// Render the position: `line <L>, column <C>`.
    pub fn to_string(&self) -> (s: String)
        ensures
            s@ == self.text(),
    {
        let mut s = "line ".to_owned();
        push_numeral(&mut s, self.line as u64, 10);
        s.append(", column ");
        push_numeral(&mut s, self.column as u64, 10);
        s
    }
}

impl LexerError {
    /// The error as it is shown to a reader. A character is shown as it is
    /// and, between `\u{` and `}`, by its code point in hexadecimal.
    pub open spec fn text(self) -> Seq<char> {
        match self {
            LexerError::UnterminatedStringSequence { starts_at, ends_at } => {
                "Unterminted string sequence found, starting at "@ + starts_at.text()
                    + ", ending at "@ + ends_at.text()
            },
            LexerError::UnexpectedChar { position, c } => {
                "Unexpected char '"@.push(c) + "' (unicode \\u{"@ + hexadecimal(c as nat)
                    + "}) found at "@ + position.text()
            },
        }
    }

    /// Render the error as one line of text.
    pub fn to_string(&self) -> (s: String)
        ensures
            s@ == self.text(),
    {
        match self {
            LexerError::UnterminatedStringSequence { starts_at, ends_at } => {
                let mut s = "Unterminted string sequence found, starting at ".to_owned();
                s.append(starts_at.to_string().as_str());
                s.append(", ending at ");
                s.append(ends_at.to_string().as_str());
                s
            },
            LexerError::UnexpectedChar { position, c } => {
                let mut s = "Unexpected char '".to_owned();
                s.push(*c);
                s.append("' (unicode \\u{");
                push_numeral(&mut s, *c as u64, 16);
                s.append("}) found at ");
                s.append(position.to_string().as_str());
                s
            },
        }
    }
}

} // verus!
