use rlox::scanner::{ScanError, Scanner};
use rlox::token::{Token, TokenType};

fn scan(source: &str) -> Vec<Token<'_>> {
    let mut scanner = Scanner::new(source);
    let mut tokens = Vec::new();
    loop {
        let token = scanner.scan_token();
        if token.token_type == TokenType::Eof {
            tokens.push(token);
            break;
        }
        tokens.push(token);
    }
    tokens
}

#[test]
fn test_single_char_tokens() {
    let tokens = scan("(){},.-+;*");
    let expected_types = vec![
        TokenType::LeftParen,
        TokenType::RightParen,
        TokenType::LeftBrace,
        TokenType::RightBrace,
        TokenType::Comma,
        TokenType::Dot,
        TokenType::Minus,
        TokenType::Plus,
        TokenType::Semicolon,
        TokenType::Star,
        TokenType::Eof,
    ];
    assert_eq!(tokens.len(), expected_types.len());
    for (token, expected_type) in tokens.iter().zip(expected_types) {
        assert_eq!(token.token_type, expected_type);
    }
}

#[test]
fn test_two_char_tokens() {
    let tokens = scan("! != = == > >= < <=");
    let expected_types = vec![
        TokenType::Bang,
        TokenType::BangEqual,
        TokenType::Equal,
        TokenType::EqualEqual,
        TokenType::Greater,
        TokenType::GreaterEqual,
        TokenType::Less,
        TokenType::LessEqual,
        TokenType::Eof,
    ];
    assert_eq!(tokens.len(), expected_types.len());
    for (token, expected_type) in tokens.iter().zip(expected_types) {
        assert_eq!(token.token_type, expected_type);
    }
}

#[test]
fn test_white_space_and_comments() {
    let tokens = scan("  \n // This is a comment \n ");
    assert_eq!(tokens.len(), 1); // Only EOF token
    assert_eq!(tokens[0].token_type, TokenType::Eof);
}

#[test]
fn test_newlines() {
    let tokens = scan("\n\n\n");
    assert_eq!(tokens.len(), 1); // Only EOF token
    assert_eq!(tokens[0].token_type, TokenType::Eof);
    assert_eq!(tokens[0].line, 4); // Line number should be 4
}

#[test]
fn test_numbers() {
    let tokens = scan("123 45.67");
    let expected_types = vec![TokenType::Number, TokenType::Number, TokenType::Eof];
    assert_eq!(tokens.len(), expected_types.len());
    for (token, expected_type) in tokens.iter().zip(expected_types) {
        assert_eq!(token.token_type, expected_type);
    }
}

#[test]
fn test_identifiers_and_keywords() {
    let tokens = scan("var foo = true;");
    let expected_types = vec![
        TokenType::Var,
        TokenType::Identifier,
        TokenType::Equal,
        TokenType::True,
        TokenType::Semicolon,
        TokenType::Eof,
    ];
    assert_eq!(tokens.len(), expected_types.len());
    for (token, expected_type) in tokens.iter().zip(expected_types) {
        assert_eq!(token.token_type, expected_type);
    }
}

#[test]
fn test_strings() {
    let tokens = scan(r#""hello" "world""#);
    let expected_types = vec![TokenType::String, TokenType::String, TokenType::Eof];
    assert_eq!(tokens.len(), expected_types.len());
    for (token, expected_type) in tokens.iter().zip(expected_types) {
        assert_eq!(token.token_type, expected_type);
    }
}

#[test]
fn lexemes_are_the_bytes_of_the_tokens() {
    let tokens = scan("var foo = 45.67; // note\n\"a\nb\" bar");
    let lexemes: Vec<&[u8]> = tokens.iter().map(|t| t.lexeme).collect();
    let expected: Vec<&[u8]> =
        vec![b"var", b"foo", b"=", b"45.67", b";", b"\"a\nb\"", b"bar", b""];
    assert_eq!(lexemes, expected);
    let lines: Vec<usize> = tokens.iter().map(|t| t.line).collect();
    assert_eq!(lines, vec![1, 1, 1, 1, 1, 2, 3, 3]);
}

#[test]
fn every_keyword_has_its_kind() {
    let tokens = scan(
        "and class else false for fun if nil or print return super this true var while whiles",
    );
    let kinds: Vec<TokenType> = tokens.iter().map(|t| t.token_type).collect();
    assert_eq!(
        kinds,
        vec![
            TokenType::And,
            TokenType::Class,
            TokenType::Else,
            TokenType::False,
            TokenType::For,
            TokenType::Fun,
            TokenType::If,
            TokenType::Nil,
            TokenType::Or,
            TokenType::Print,
            TokenType::Return,
            TokenType::Super,
            TokenType::This,
            TokenType::True,
            TokenType::Var,
            TokenType::While,
            TokenType::Identifier,
            TokenType::Eof,
        ]
    );
}

#[test]
fn a_number_takes_a_dot_only_before_a_digit() {
    let tokens = scan("1.5 2. .3 4.x");
    let kinds: Vec<TokenType> = tokens.iter().map(|t| t.token_type).collect();
    assert_eq!(
        kinds,
        vec![
            TokenType::Number,
            TokenType::Number,
            TokenType::Dot,
            TokenType::Dot,
            TokenType::Number,
            TokenType::Number,
            TokenType::Dot,
            TokenType::Identifier,
            TokenType::Eof,
        ]
    );
    assert_eq!(tokens[0].lexeme, b"1.5");
    assert_eq!(tokens[1].lexeme, b"2");
}

#[test]
fn an_unterminated_string_is_an_error_that_takes_the_rest() {
    let tokens = scan("print \"abc\ndef");
    assert_eq!(tokens.len(), 3);
    assert_eq!(tokens[1].token_type, TokenType::Error);
    assert_eq!(tokens[1].lexeme, b"Unterminated string.");
    assert_eq!(tokens[1].line, 1);
    assert_eq!(tokens[2].token_type, TokenType::Eof);
    assert_eq!(tokens[2].line, 2);
}

#[test]
fn an_unknown_byte_is_an_error_of_one_byte() {
    let tokens = scan("a @ b");
    assert_eq!(tokens.len(), 4);
    assert_eq!(tokens[1].token_type, TokenType::Error);
    assert_eq!(tokens[1].lexeme, b"Unexpected character.");
    assert_eq!(tokens[2].token_type, TokenType::Identifier);
}

#[test]
fn the_end_of_input_is_returned_again_and_again() {
    let mut scanner = Scanner::new("x");
    assert_eq!(scanner.scan_token().token_type, TokenType::Identifier);
    assert_eq!(scanner.scan_token().token_type, TokenType::Eof);
    assert_eq!(scanner.scan_token().token_type, TokenType::Eof);
    assert!(scanner.next().is_none());
}

#[test]
fn the_default_token_is_an_empty_end_of_input() {
    let token = Token::default();
    assert_eq!(token.token_type, TokenType::Eof);
    assert!(token.lexeme.is_empty());
    assert_eq!(token.line, 0);
}

#[test]
fn scan_errors_have_their_text() {
    assert_eq!(
        ScanError::UnexpectedCharacter(3).message(),
        b"Unexpected character at line 3".to_vec()
    );
    assert_eq!(
        ScanError::UnterminatedString(120).message(),
        b"Unterminated string at line 120".to_vec()
    );
}
