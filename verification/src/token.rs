//! Tokens and their types.

use crate::text::{decimal, push_numeral};
use vstd::prelude::*;

verus! {

/// The closed set of token types of the language.
#[derive(Debug, PartialEq, Eq, Structural, Clone, Copy)]
pub enum TokenType {
    // Operators
    Plus,
    Minus,
    Times,
    Divide,
    Equals,
    DoubleEquals,
    NotEquals,
    Greater,
    Less,
    GreaterOrEqual,
    LessOrEqual,
    // Special characters
    Semicolon,
    OpeningParentheses,
    ClosingParentheses,
    OpeningBraces,
    ClosingBraces,
    // Keywords
    True,
    False,
    And,
    Or,
    Var,
    Print,
    If,
    Else,
    While,
    // Literals
    Number,
    String,
    // Variables
    Identifier,
    // Marks the end of the input.
    EndOfile,
}

/// A token: its type, the text it was read from and the line it starts on.
#[derive(Debug, PartialEq, Eq)]
pub struct Token {
    pub token_type: TokenType,
    pub lexeme: String,
    pub line: usize,
}

/// What a token is, as plain mathematical values.
pub struct TokenView {
    pub token_type: TokenType,
    pub lexeme: Seq<char>,
    pub line: nat,
}

impl View for Token {
    type V = TokenView;

    open spec fn view(&self) -> TokenView {
        TokenView { token_type: self.token_type, lexeme: self.lexeme@, line: self.line as nat }
    }
}

impl TokenType {
    /// The name of the token type.
    pub open spec fn text(self) -> Seq<char> {
        match self {
            TokenType::Plus => "Plus"@,
            TokenType::Minus => "Minus"@,
            TokenType::Times => "Times"@,
            TokenType::Divide => "Divide"@,
            TokenType::Equals => "Equals"@,
            TokenType::DoubleEquals => "DoubleEquals"@,
            TokenType::NotEquals => "NotEquals"@,
            TokenType::Greater => "Greater"@,
            TokenType::Less => "Less"@,
            TokenType::GreaterOrEqual => "GreaterOrEqual"@,
            TokenType::LessOrEqual => "LessOrEqual"@,
            TokenType::Semicolon => "Semicolon"@,
            TokenType::OpeningParentheses => "OpeningParentheses"@,
            TokenType::ClosingParentheses => "ClosingParentheses"@,
            TokenType::OpeningBraces => "OpeningBraces"@,
            TokenType::ClosingBraces => "ClosingBraces"@,
            TokenType::True => "True"@,
            TokenType::False => "False"@,
            TokenType::And => "And"@,
            TokenType::Or => "Or"@,
            TokenType::Var => "Var"@,
            TokenType::Print => "Print"@,
            TokenType::If => "If"@,
            TokenType::Else => "Else"@,
            TokenType::While => "While"@,
            TokenType::Number => "Number"@,
            TokenType::String => "String"@,
            TokenType::Identifier => "Identifier"@,
            TokenType::EndOfile => "EndOfile"@,
        }
    }

    /// The name of the token type.
    pub fn name(&self) -> (name: &'static str)
        ensures
            name@ == self.text(),
    {
        match self {
            TokenType::Plus => "Plus",
            TokenType::Minus => "Minus",
            TokenType::Times => "Times",
            TokenType::Divide => "Divide",
            TokenType::Equals => "Equals",
            TokenType::DoubleEquals => "DoubleEquals",
            TokenType::NotEquals => "NotEquals",
            TokenType::Greater => "Greater",
            TokenType::Less => "Less",
            TokenType::GreaterOrEqual => "GreaterOrEqual",
            TokenType::LessOrEqual => "LessOrEqual",
            TokenType::Semicolon => "Semicolon",
            TokenType::OpeningParentheses => "OpeningParentheses",
            TokenType::ClosingParentheses => "ClosingParentheses",
            TokenType::OpeningBraces => "OpeningBraces",
            TokenType::ClosingBraces => "ClosingBraces",
            TokenType::True => "True",
            TokenType::False => "False",
            TokenType::And => "And",
            TokenType::Or => "Or",
            TokenType::Var => "Var",
            TokenType::Print => "Print",
            TokenType::If => "If",
            TokenType::Else => "Else",
            TokenType::While => "While",
            TokenType::Number => "Number",
            TokenType::String => "String",
            TokenType::Identifier => "Identifier",
            TokenType::EndOfile => "EndOfile",
        }
    }

    /// Render the token type: its name.
    pub fn to_string(&self) -> (s: String)
        ensures
            s@ == self.text(),
    {
        self.name().to_owned()
    }
}

impl TokenView {
    /// The token as it is shown to a reader.
    pub open spec fn text(self) -> Seq<char> {
        "<"@ + self.token_type.text() + ", "@ + self.lexeme + "> Line: "@ + decimal(self.line)
    }
}

impl Token {
    /// Render the token: `<<type>, <lexeme>> Line: <L>`.
    pub fn to_string(&self) -> (s: String)
        ensures
            s@ == self@.text(),
    {
        let mut s = "<".to_owned();
        s.append(self.token_type.name());
        s.append(", ");
        s.append(self.lexeme.as_str());
        s.append("> Line: ");
        push_numeral(&mut s, self.line as u64, 10);
        s
    }
}

/// The views of a sequence of tokens, in the same order.
pub open spec fn token_views(tokens: Seq<Token>) -> Seq<TokenView> {
    tokens.map_values(|t: Token| t@)
}

/// The view of a token that may be missing.
pub open spec fn token_view_of(token: Option<Token>) -> Option<TokenView> {
    match token {
        Some(t) => Some(t@),
        None => None,
    }
}

/// The keyword that is spelled exactly `name`, if there is one.
pub open spec fn keyword_of(name: Seq<char>) -> Option<TokenType> {
    if name == seq!['t', 'r', 'u', 'e'] {
        Some(TokenType::True)
    } else if name == seq!['f', 'a', 'l', 's', 'e'] {
        Some(TokenType::False)
    } else if name == seq!['a', 'n', 'd'] {
        Some(TokenType::And)
    } else if name == seq!['o', 'r'] {
        Some(TokenType::Or)
    } else if name == seq!['v', 'a', 'r'] {
        Some(TokenType::Var)
    } else if name == seq!['p', 'r', 'i', 'n', 't'] {
        Some(TokenType::Print)
    } else if name == seq!['i', 'f'] {
        Some(TokenType::If)
    } else if name == seq!['e', 'l', 's', 'e'] {
        Some(TokenType::Else)
    } else if name == seq!['w', 'h', 'i', 'l', 'e'] {
        Some(TokenType::While)
    } else {
        None
    }
}

/// The type of the token that a name stands for: keywords take precedence
/// over identifiers, and only the full name counts.
pub open spec fn word_type(name: Seq<char>) -> TokenType {
    match keyword_of(name) {
        Some(t) => t,
        None => TokenType::Identifier,
    }
}

/// Whether `name` spells exactly the characters of `word`.
fn spells(name: &Vec<char>, word: &[char]) -> (b: bool)
    ensures
        b == (name@ == word@),
{
    if name.len() != word.len() {
        return false;
    }
    let mut i: usize = 0;
    while i < name.len()
        invariant
            i <= name.len(),
            name.len() == word.len(),
            forall|j: int| 0 <= j < i ==> name@[j] == word@[j],
        decreases name.len() - i,
    {
        if name[i] != word[i] {
            return false;
        }
        i += 1;
    }
    assert(name@ =~= word@);
    true
}

/// Look a name up in the fixed set of keywords.
pub fn keyword(name: &Vec<char>) -> (k: Option<TokenType>)
    ensures
        k == keyword_of(name@),
{
    if spells(name, &['t', 'r', 'u', 'e']) {
        Some(TokenType::True)
    } else if spells(name, &['f', 'a', 'l', 's', 'e']) {
        Some(TokenType::False)
    } else if spells(name, &['a', 'n', 'd']) {
        Some(TokenType::And)
    } else if spells(name, &['o', 'r']) {
        Some(TokenType::Or)
    } else if spells(name, &['v', 'a', 'r']) {
        Some(TokenType::Var)
    } else if spells(name, &['p', 'r', 'i', 'n', 't']) {
        Some(TokenType::Print)
    } else if spells(name, &['i', 'f']) {
        Some(TokenType::If)
    } else if spells(name, &['e', 'l', 's', 'e']) {
        Some(TokenType::Else)
    } else if spells(name, &['w', 'h', 'i', 'l', 'e']) {
        Some(TokenType::While)
    } else {
        None
    }
}

} // verus!
