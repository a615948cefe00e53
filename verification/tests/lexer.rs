use lox::lexer::{Lexer, LexerError, Token, TokenType};

#[test]
pub fn test_error() {
    let mut l = Lexer::new("+\"sdf");
    let result = [l.next_token(), l.next_token(), l.next_token()];
    assert_eq!(
        result,
        [
            Some(Ok(Token { token_type: TokenType::Plus, start: 0, end: 1, line: 0 })),
            Some(Result::Err(LexerError::UnterminatedString { line: 1 })),
            None
        ]
    );
}

fn kinds(code: &str) -> Vec<TokenType> {
    let mut l = Lexer::new(code);
    let mut out = Vec::new();
    while let Some(t) = l.next_token() {
        out.push(t.unwrap().token_type);
    }
    out
}

#[test]
fn keywords_identifiers_and_numbers() {
    assert_eq!(
        kinds("var x = 12.5; // comment\nprint x >= 3;"),
        vec![
            TokenType::Var,
            TokenType::Identifier,
            TokenType::Equal,
            TokenType::Number,
            TokenType::Semicolon,
            TokenType::Print,
            TokenType::Identifier,
            TokenType::GreaterEqual,
            TokenType::Number,
            TokenType::Semicolon,
        ]
    );
}

#[test]
fn a_string_token_spans_its_quotes() {
    let mut l = Lexer::new("  \"hi\" ");
    let t = l.next_token().unwrap().unwrap();
    assert_eq!(t.token_type, TokenType::String);
    assert_eq!((t.start, t.end), (2, 6));
    assert!(l.next_token().is_none());
}

#[test]
fn error_messages() {
    assert_eq!(LexerError::UnterminatedString { line: 3 }.message(), "Unterminated string");
    assert_eq!(
        LexerError::InvalidTokenAt { start: 4, end: 15 }.message(),
        "Invalid token found at 4..15"
    );
    assert_eq!(
        LexerError::InvalidTokenAt { start: 4, end: 15 }.debug_text(),
        "InvalidTokenAt { start: 4, end: 15 }"
    );
}

fn token_case(code: &str, expected_token: &[TokenType], expected_values: &[&str], expected_lines: &[usize]) {
    let mut l = Lexer::new(code);
    let mut tokens = Vec::new();
    let mut values = Vec::new();
    let mut lines = Vec::new();
    while let Some(Ok(t)) = l.next_token() {
        tokens.push(t.ty());
        values.push(t.slice(code).to_string());
        lines.push(t.line);
    }
    assert_eq!(expected_token, tokens.as_slice());
    if !expected_values.is_empty() {
        assert_eq!(expected_values.to_vec(), values);
    }
    if !expected_lines.is_empty() {
        assert_eq!(expected_lines, lines.as_slice());
    }
}

#[test]
fn test1_sum() {
    token_case("501+3", &[TokenType::Number, TokenType::Plus, TokenType::Number], &["501", "+", "3"], &[]);
}

#[test]
fn test1_var_number() {
    token_case(
        "var test = 234.1",
        &[TokenType::Var, TokenType::Identifier, TokenType::Equal, TokenType::Number],
        &["var", "test", "=", "234.1"],
        &[],
    );
}

#[test]
fn test1_var_string() {
    token_case(
        "var x = \"test\"",
        &[TokenType::Var, TokenType::Identifier, TokenType::Equal, TokenType::String],
        &["var", "x", "=", "\"test\""],
        &[0, 0, 0, 0],
    );
}

#[test]
fn test1_multiline() {
    token_case(
        "1\n2+3\n4",
        &[TokenType::Number, TokenType::Number, TokenType::Plus, TokenType::Number, TokenType::Number],
        &["1", "2", "+", "3", "4"],
        &[0, 1, 1, 1, 2],
    );
}

#[test]
fn test1_print() {
    token_case(
        "print 1+2",
        &[TokenType::Print, TokenType::Number, TokenType::Plus, TokenType::Number],
        &["print", "1", "+", "2"],
        &[],
    );
}
