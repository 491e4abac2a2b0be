use spl::chars::{classify, is_digit, CharKind};
use spl::error::{LexerError, Position};
use spl::lexer::Lexer;
use spl::token::{keyword, Token, TokenType};

fn token(token_type: TokenType, lexeme: &str, line: usize) -> Token {
    Token {
        token_type,
        lexeme: lexeme.into(),
        line,
    }
}

#[test]
fn blanks_and_comments_yield_nothing() {
    let mut lex = Lexer::new(" \t\n// a comment\n\n  // another one / with \"quotes\" and !\n\t");
    let (tokens, errors) = lex.tokenize();
    assert_eq!(tokens, vec![]);
    assert_eq!(errors, vec![]);
    assert_eq!(lex.line(), 5);
}

#[test]
fn empty_input_yields_nothing() {
    let mut lex = Lexer::new("");
    let (tokens, errors) = lex.tokenize();
    assert_eq!(tokens, vec![]);
    assert_eq!(errors, vec![]);
    assert_eq!(lex.line(), 1);
    assert_eq!(lex.column(), 0);
}

#[test]
fn comment_at_end_of_input_is_no_error() {
    let mut lex = Lexer::new("1 // no newline after this");
    let (tokens, errors) = lex.tokenize();
    assert_eq!(tokens, vec![token(TokenType::Number, "1", 1)]);
    assert_eq!(errors, vec![]);
}

#[test]
fn every_single_character_token_is_one_token_on_line_one() {
    let cases = [
        ("+", TokenType::Plus),
        ("-", TokenType::Minus),
        ("*", TokenType::Times),
        (";", TokenType::Semicolon),
        ("(", TokenType::OpeningParentheses),
        (")", TokenType::ClosingParentheses),
        ("{", TokenType::OpeningBraces),
        ("}", TokenType::ClosingBraces),
    ];
    for (text, token_type) in cases {
        let mut lex = Lexer::new(text);
        let (tokens, errors) = lex.tokenize();
        assert_eq!(tokens, vec![token(token_type, text, 1)]);
        assert_eq!(errors, vec![]);
    }
}

#[test]
fn two_character_operators_are_one_token() {
    let cases = [
        ("==", TokenType::DoubleEquals),
        ("!=", TokenType::NotEquals),
        (">=", TokenType::GreaterOrEqual),
        ("<=", TokenType::LessOrEqual),
        ("=", TokenType::Equals),
        (">", TokenType::Greater),
        ("<", TokenType::Less),
    ];
    for (text, token_type) in cases {
        let mut lex = Lexer::new(text);
        let (tokens, errors) = lex.tokenize();
        assert_eq!(tokens, vec![token(token_type, text, 1)]);
        assert_eq!(errors, vec![]);
    }
}

#[test]
fn three_equals_signs_are_a_double_and_a_single() {
    let mut lex = Lexer::new("===");
    let (tokens, errors) = lex.tokenize();
    assert_eq!(
        tokens,
        vec![
            token(TokenType::DoubleEquals, "==", 1),
            token(TokenType::Equals, "=", 1)
        ]
    );
    assert_eq!(errors, vec![]);
}

#[test]
fn every_keyword_is_one_token_of_its_own_type() {
    let cases = [
        ("true", TokenType::True),
        ("false", TokenType::False),
        ("and", TokenType::And),
        ("or", TokenType::Or),
        ("var", TokenType::Var),
        ("print", TokenType::Print),
        ("if", TokenType::If),
        ("else", TokenType::Else),
        ("while", TokenType::While),
    ];
    for (text, token_type) in cases {
        let mut lex = Lexer::new(text);
        let (tokens, errors) = lex.tokenize();
        assert_eq!(tokens, vec![token(token_type, text, 1)]);
        assert_eq!(errors, vec![]);
    }
}

#[test]
fn a_keyword_inside_a_longer_name_is_an_identifier() {
    for text in ["if32", "iff", "truely", "xor", "While", "i"] {
        let mut lex = Lexer::new(text);
        let (tokens, errors) = lex.tokenize();
        assert_eq!(tokens, vec![token(TokenType::Identifier, text, 1)]);
        assert_eq!(errors, vec![]);
    }
}

#[test]
fn keyword_lookup_needs_the_full_name() {
    assert_eq!(keyword(&vec!['i', 'f']), Some(TokenType::If));
    assert_eq!(keyword(&vec!['w', 'h', 'i', 'l', 'e']), Some(TokenType::While));
    assert_eq!(keyword(&vec!['i', 'f', '3', '2']), None);
    assert_eq!(keyword(&vec!['i']), None);
    assert_eq!(keyword(&vec![]), None);
}

#[test]
fn names_may_hold_letters_and_digits_of_any_script() {
    let mut lex = Lexer::new("größe2 = 1");
    let (tokens, errors) = lex.tokenize();
    assert_eq!(
        tokens,
        vec![
            token(TokenType::Identifier, "größe2", 1),
            token(TokenType::Equals, "=", 1),
            token(TokenType::Number, "1", 1),
        ]
    );
    assert_eq!(errors, vec![]);
}

#[test]
fn a_number_does_not_take_letters_in() {
    let mut lex = Lexer::new("12ab");
    let (tokens, errors) = lex.tokenize();
    assert_eq!(
        tokens,
        vec![
            token(TokenType::Number, "12", 1),
            token(TokenType::Identifier, "ab", 1)
        ]
    );
    assert_eq!(errors, vec![]);
}

#[test]
fn string_literal_keeps_the_line_it_starts_on() {
    let mut lex = Lexer::new("\n\"two\nlines\" x");
    let (tokens, errors) = lex.tokenize();
    assert_eq!(
        tokens,
        vec![
            token(TokenType::String, "two\nlines", 2),
            token(TokenType::Identifier, "x", 3)
        ]
    );
    assert_eq!(errors, vec![]);
}

#[test]
fn unterminated_string_reports_where_it_starts_and_ends() {
    let mut lex = Lexer::new("a = \"Hello\nworld");
    let (tokens, errors) = lex.tokenize();
    assert_eq!(
        tokens,
        vec![
            token(TokenType::Identifier, "a", 1),
            token(TokenType::Equals, "=", 1)
        ]
    );
    assert_eq!(
        errors,
        vec![LexerError::UnterminatedStringSequence {
            starts_at: Position { line: 1, column: 5 },
            ends_at: Position { line: 2, column: 5 },
        }]
    );
}

#[test]
fn an_unexpected_character_does_not_stop_the_scan() {
    let mut lex = Lexer::new("a # b\n$ c");
    let (tokens, errors) = lex.tokenize();
    assert_eq!(
        tokens,
        vec![
            token(TokenType::Identifier, "a", 1),
            token(TokenType::Identifier, "b", 1),
            token(TokenType::Identifier, "c", 2),
        ]
    );
    assert_eq!(
        errors,
        vec![
            LexerError::UnexpectedChar {
                position: Position { line: 1, column: 3 },
                c: '#'
            },
            LexerError::UnexpectedChar {
                position: Position { line: 2, column: 1 },
                c: '$'
            },
        ]
    );
}

#[test]
fn scanning_twice_gives_the_same_result() {
    let source = "var x = 1.5; // c\n\"s\" ! \"open";
    let first = Lexer::new(source).tokenize();
    let second = Lexer::new(source).tokenize();
    assert_eq!(first, second);
    assert_eq!(first.0.len(), 6);
    assert_eq!(first.1.len(), 2);
}

#[test]
fn token_lines_never_decrease() {
    let mut lex = Lexer::new("a\nb c\n\n\"x\ny\" d\ne");
    let (tokens, _errors) = lex.tokenize();
    let lines: Vec<usize> = tokens.iter().map(|t| t.line).collect();
    assert_eq!(lines, vec![1, 2, 2, 4, 5, 6]);
}

#[test]
fn tokenize_goes_on_from_where_the_cursor_stands() {
    let mut lex = Lexer::new("skip me\nx");
    assert_eq!(lex.advance_until_equal('\n'), Ok(vec!['s', 'k', 'i', 'p', ' ', 'm', 'e']));
    let (tokens, errors) = lex.tokenize();
    assert_eq!(tokens, vec![token(TokenType::Identifier, "x", 2)]);
    assert_eq!(errors, vec![]);
}

#[test]
fn advance_if_equal_over_a_newline_starts_a_new_line() {
    let mut lex = Lexer::new("a\nb");
    assert_eq!(lex.advance(), Some('a'));
    assert!(lex.advance_if_equal('\n'));
    assert_eq!(lex.line(), 2);
    assert_eq!(lex.column(), 0);
}

#[test]
fn advance_at_the_end_consumes_nothing() {
    let mut lex = Lexer::new("ab");
    assert_eq!(lex.advance(), Some('a'));
    assert_eq!(lex.advance(), Some('b'));
    assert_eq!(lex.advance(), None);
    assert_eq!(lex.advance(), None);
    assert_eq!(lex.line(), 1);
    assert_eq!(lex.column(), 2);
}

#[test]
fn characters_are_classified_by_what_they_start() {
    assert_eq!(classify('+', false), CharKind::Single(TokenType::Plus));
    assert_eq!(classify('}', false), CharKind::Single(TokenType::ClosingBraces));
    assert_eq!(classify('/', false), CharKind::Slash);
    assert_eq!(
        classify('<', false),
        CharKind::Comparison {
            alone: TokenType::Less,
            with_equals: TokenType::LessOrEqual
        }
    );
    assert_eq!(classify('!', false), CharKind::Bang);
    assert_eq!(classify('"', false), CharKind::Quote);
    assert_eq!(classify('\t', false), CharKind::Blank);
    assert_eq!(classify('x', true), CharKind::Letter);
    assert_eq!(classify('7', false), CharKind::Digit);
    assert_eq!(classify('.', false), CharKind::Unexpected);
    assert_eq!(classify('\r', false), CharKind::Unexpected);
}

#[test]
fn only_the_ten_decimal_digits_are_digits() {
    assert!(is_digit('0'));
    assert!(is_digit('9'));
    assert!(!is_digit('/'));
    assert!(!is_digit(':'));
    assert!(!is_digit('a'));
    assert!(!is_digit('٣'));
}
