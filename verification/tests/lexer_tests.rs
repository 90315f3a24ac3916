use rust_json_parser::Lexer;
use rust_json_parser::LexerError;
use rust_json_parser::LexerErrorKinds;
use rust_json_parser::Token;
use rust_json_parser::TokenKind;

fn lex_all(input: &str) -> Vec<TokenKind> {
    let mut lexer = Lexer::new(input);
    let mut tokens = Vec::new();
    loop {
        let token = lexer.next_token().unwrap();
        let Token { kind, .. } = token.clone();
        {
            if kind == TokenKind::EOF {
                break;
            }
            tokens.push(kind);
        }
    }
    tokens
}

#[test]
fn test_single_char_tokens() {
    let input = "{\"hello\" } [ ] : ,";
    let expected = vec![
        TokenKind::LeftBrace,
        TokenKind::String("hello".into()),
        TokenKind::RightBrace,
        TokenKind::LeftBracket,
        TokenKind::RightBracket,
        TokenKind::Colon,
        TokenKind::Comma,
    ];
    assert_eq!(lex_all(input), expected);
}

#[test]
fn test_simple_string() {
    let input = r#""hello" "world""#;
    let expected = vec![
        TokenKind::String("hello".into()),
        TokenKind::String("world".into()),
    ];
    assert_eq!(lex_all(input), expected);
}

#[test]
fn test_simple_numbers() {
    let input = "0 123 -456 -0.2e2";
    let expected = vec![
        TokenKind::Number("0".into()),
        TokenKind::Number("123".into()),
        TokenKind::Number("-456".into()),
        TokenKind::Number("-0.2e2".into()),
    ];
    let tokens = lex_all(input);
    assert_eq!(tokens, expected);
    let floats: Vec<f64> = tokens
        .iter()
        .map(|t| match t {
            TokenKind::Number(s) => s.parse::<f64>().unwrap(),
            _ => panic!("expected a number token"),
        })
        .collect();
    assert_eq!(floats, vec![0.0, 123.0, -456.0, -20.0]);
}

#[test]
fn test_mixed_input() {
    let input = r#"{ "key": -42 }"#;
    let expected = vec![
        TokenKind::LeftBrace,
        TokenKind::String("key".into()),
        TokenKind::Colon,
        TokenKind::Number("-42".into()),
        TokenKind::RightBrace,
    ];
    assert_eq!(lex_all(input), expected);
}

#[test]
fn test_whitespace_skipping() {
    let input = "   { \n\t: , }  ";
    let expected = vec![
        TokenKind::LeftBrace,
        TokenKind::Colon,
        TokenKind::Comma,
        TokenKind::RightBrace,
    ];
    assert_eq!(lex_all(input), expected);
}

#[test]
fn test_unexpected_char_error() {
    let mut lexer = Lexer::new("@");
    let result = lexer.next_token();
    assert!(matches!(
        result,
        Err(LexerError {
            kind: LexerErrorKinds::UnexcpectedChar('@'),
            ..
        })
    ));
}

#[test]
fn test_unclosed_string_error() {
    let mut lexer = Lexer::new("\"unterminated");
    let result = lexer.next_token();
    assert!(matches!(
        result,
        Err(LexerError {
            kind: LexerErrorKinds::UnclosedString,
            ..
        })
    ));
}

#[test]
fn test_leading_zero_error() {
    let mut lexer = Lexer::new("0123");
    let result = lexer.next_token();
    assert!(matches!(
        result,
        Err(LexerError {
            kind: LexerErrorKinds::LeadingZero,
            ..
        })
    ));
}

#[test]
fn test_invalid_number_error() {
    let mut lexer = Lexer::new("-");
    let result = lexer.next_token();
    assert!(matches!(
        result,
        Err(LexerError {
            kind: LexerErrorKinds::InvalidNumber,
            ..
        })
    ));
}

#[test]
fn test_invalid_decimal_error() {
    let mut lexer = Lexer::new("1.");
    let result = lexer.next_token();
    assert!(matches!(
        result,
        Err(LexerError {
            kind: LexerErrorKinds::InvalidDecimal,
            ..
        })
    ));
}

#[test]
fn test_invalid_exponent_error() {
    let mut lexer = Lexer::new("1e");
    let result = lexer.next_token();
    assert!(matches!(
        result,
        Err(LexerError {
            kind: LexerErrorKinds::InvalidExponent,
            ..
        })
    ));
}

#[test]
fn test_token_positions() {
    let mut lexer = Lexer::new("\n {\"a\"");
    let brace = lexer.next_token().unwrap();
    assert_eq!(brace.kind, TokenKind::LeftBrace);
    assert_eq!((brace.line, brace.column), (2, 2));
    let key = lexer.next_token().unwrap();
    assert_eq!(key.kind, TokenKind::String("a".into()));
    assert_eq!((key.line, key.column), (2, 3));
}

#[test]
fn test_eof_is_idempotent() {
    let mut lexer = Lexer::new("  ");
    let first = lexer.next_token().unwrap();
    assert_eq!(first.kind, TokenKind::EOF);
    let second = lexer.next_token().unwrap();
    assert_eq!(second.kind, TokenKind::EOF);
    assert_eq!((second.line, second.column), (first.line, first.column));
}

#[test]
fn test_literal_mismatch_errors() {
    let mut lexer = Lexer::new("tru!");
    assert!(matches!(
        lexer.next_token(),
        Err(LexerError {
            kind: LexerErrorKinds::InvalidLiteral,
            ..
        })
    ));
    let mut lexer = Lexer::new("truex");
    assert!(matches!(
        lexer.next_token(),
        Err(LexerError {
            kind: LexerErrorKinds::InvalidLiteral,
            ..
        })
    ));
    let mut lexer = Lexer::new("null");
    assert_eq!(lexer.next_token().unwrap().kind, TokenKind::Null);
}

#[test]
fn test_escape_errors() {
    let mut lexer = Lexer::new("\"\\x\"");
    assert!(matches!(
        lexer.next_token(),
        Err(LexerError {
            kind: LexerErrorKinds::InvalidEscapeChar('x'),
            ..
        })
    ));
    let mut lexer = Lexer::new("\"\\u12g4\"");
    assert!(matches!(
        lexer.next_token(),
        Err(LexerError {
            kind: LexerErrorKinds::InvalidEscape,
            ..
        })
    ));
    let mut lexer = Lexer::new("\"\\ud800\"");
    assert!(matches!(
        lexer.next_token(),
        Err(LexerError {
            kind: LexerErrorKinds::InvalidEscape,
            ..
        })
    ));
    let mut lexer = Lexer::new("\"\\u12");
    assert!(matches!(
        lexer.next_token(),
        Err(LexerError {
            kind: LexerErrorKinds::InvalidEscape,
            ..
        })
    ));
}

#[test]
fn test_unescaped_control_character() {
    let mut lexer = Lexer::new("\"a\u{1}b\"");
    assert!(matches!(
        lexer.next_token(),
        Err(LexerError {
            kind: LexerErrorKinds::UnescapedControlCharacter,
            ..
        })
    ));
}

#[test]
fn test_unicode_whitespace_is_skipped() {
    let input = "\u{2028}\u{a0}true\u{3000}";
    let mut lexer = Lexer::new(input);
    assert_eq!(lexer.next_token().unwrap().kind, TokenKind::True);
    assert_eq!(lexer.next_token().unwrap().kind, TokenKind::EOF);
}
