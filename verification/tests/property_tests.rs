use rust_json_parser::LexerError;
use rust_json_parser::LexerErrorKinds;
use rust_json_parser::ParserError;
use rust_json_parser::ParserErrorKind;
use rust_json_parser::TokenKind;
use rust_json_parser::Value;
use rust_json_parser::parse_json;

fn number(text: &str) -> Value {
    Value::Number(text.to_string())
}

#[test]
fn scalar_round_trips() {
    assert_eq!(parse_json("null").unwrap(), Value::Null);
    assert_eq!(parse_json("true").unwrap(), Value::Bool(true));
    assert_eq!(parse_json("false").unwrap(), Value::Bool(false));
    let cases = [("42", 42.0), ("-10", -10.0), ("3.14", 3.14)];
    for (text, expected) in cases {
        let v = parse_json(text).unwrap();
        assert_eq!(v, number(text));
        assert_eq!(v.as_number().unwrap().parse::<f64>().unwrap(), expected);
    }
}

#[test]
fn structural_fidelity() {
    let v = parse_json(r#"{"name":"Alice","age":30}"#).unwrap();
    let entries = v.as_object().unwrap();
    assert_eq!(entries.len(), 2);
    assert_eq!(v.get("name"), Some(&Value::String("Alice".to_string())));
    let age = v.get("age").unwrap();
    assert_eq!(age.as_number().unwrap().parse::<f64>().unwrap(), 30.0);
}

#[test]
fn object_lookup_behaviour() {
    let v = parse_json(r#"{"a":1,"b":2}"#).unwrap();
    assert_eq!(v.get("b"), Some(&number("2")));
    assert_eq!(v.get("missing"), None);
    assert_eq!(Value::Null.get("a"), None);
    let dup = parse_json(r#"{"k":"old","k":"new"}"#).unwrap();
    assert_eq!(dup.get("k"), Some(&Value::String("new".to_string())));
}

#[test]
fn empty_containers_succeed() {
    assert_eq!(parse_json("[]").unwrap(), Value::Array(vec![]));
    assert_eq!(parse_json("{}").unwrap(), Value::Object(Vec::new()));
}

#[test]
fn leading_zero_rejected_at_column_one() {
    let err = parse_json("01").unwrap_err();
    assert_eq!(
        err,
        ParserError::Lexer(LexerError {
            kind: LexerErrorKinds::LeadingZero,
            line: 1,
            column: 1,
        })
    );
}

#[test]
fn trailing_commas_rejected() {
    let err = parse_json(r#"{"a":1,}"#).unwrap_err();
    assert!(matches!(
        err,
        ParserError::Parser {
            kind: ParserErrorKind::TrailingComma,
            ..
        }
    ));

    let err = parse_json("[1,]").unwrap_err();
    assert_eq!(
        err,
        ParserError::Parser {
            kind: ParserErrorKind::TrailingComma,
            line: 1,
            column: 3,
        }
    );
}

#[test]
fn escape_fidelity() {
    let v = parse_json("\"\\n\\t\\u0041\"").unwrap();
    assert_eq!(v, Value::String("\n\t\u{41}".to_string()));
    let v = parse_json("\"\\\" \\\\ \\/ \\b \\f \\r\"").unwrap();
    assert_eq!(v, Value::String("\" \\ / \u{8} \u{c} \r".to_string()));
}

#[test]
fn position_accuracy_across_lines() {
    let input = "{\n\"a\": 1,\n@\n}";
    let err = parse_json(input).unwrap_err();
    assert_eq!(
        err,
        ParserError::Lexer(LexerError {
            kind: LexerErrorKinds::UnexcpectedChar('@'),
            line: 3,
            column: 1,
        })
    );

    let input = "[\n1\n2\n]";
    let err = parse_json(input).unwrap_err();
    match err {
        ParserError::Parser { kind, line, column } => {
            assert!(matches!(kind, ParserErrorKind::ExpectedOneOfTokens(_, _)));
            assert_eq!((line, column), (3, 1));
        }
        other => panic!("expected a structural error, got {:?}", other),
    }
}

#[test]
fn parsing_is_idempotent() {
    let input = r#"{"a":[1,{"b":null}],"c":"x"}"#;
    let first = parse_json(input);
    let second = parse_json(input);
    assert_eq!(first, second);
    assert_eq!(first.unwrap(), second.unwrap());

    let bad = "[1,]";
    assert_eq!(parse_json(bad), parse_json(bad));
}

#[test]
fn trailing_content_rejected() {
    let err = parse_json("123 456").unwrap_err();
    assert!(matches!(
        err,
        ParserError::Parser {
            kind: ParserErrorKind::ExpectedToken(TokenKind::EOF, TokenKind::Number(_)),
            ..
        }
    ));
}

#[test]
fn empty_input_rejected() {
    let err = parse_json("").unwrap_err();
    assert!(matches!(
        err,
        ParserError::Parser {
            kind: ParserErrorKind::UnexpectedToken(TokenKind::EOF),
            ..
        }
    ));
}

#[test]
fn missing_colon_reported() {
    let err = parse_json(r#"{"a" 1}"#).unwrap_err();
    assert!(matches!(
        err,
        ParserError::Parser {
            kind: ParserErrorKind::ExpectedToken(TokenKind::Colon, TokenKind::Number(_)),
            ..
        }
    ));
}

#[test]
fn missing_object_comma_reported() {
    let err = parse_json(r#"{"a":1 "b":2}"#).unwrap_err();
    assert!(matches!(
        err,
        ParserError::Parser {
            kind: ParserErrorKind::ExpectedObjectEndOrComma(TokenKind::String(_)),
            ..
        }
    ));
}

#[test]
fn non_string_key_reported() {
    let err = parse_json("{1:2}").unwrap_err();
    assert!(matches!(
        err,
        ParserError::Parser {
            kind: ParserErrorKind::ExpectedToken(TokenKind::String(_), TokenKind::Number(_)),
            ..
        }
    ));
}

#[test]
fn bare_punctuation_rejected() {
    let err = parse_json(":").unwrap_err();
    assert!(matches!(
        err,
        ParserError::Parser {
            kind: ParserErrorKind::UnexpectedToken(TokenKind::Colon),
            ..
        }
    ));
}

#[test]
fn duplicate_keys_last_write_wins() {
    let v = parse_json(r#"{"a":1,"a":2}"#).unwrap();
    let entries = v.as_object().unwrap();
    assert_eq!(entries.len(), 1);
    assert_eq!(entries[0].0, "a");
    assert_eq!(entries[0].1, number("2"));
}

#[test]
fn deep_nesting_parses() {
    let v = parse_json("[[[[1]]]]").unwrap();
    let expected = Value::Array(vec![Value::Array(vec![Value::Array(vec![Value::Array(
        vec![number("1")],
    )])])]);
    assert_eq!(v, expected);
}

#[test]
fn exponent_forms_parse() {
    assert_eq!(parse_json("1E5").unwrap(), number("1e5"));
    assert_eq!(parse_json("2e+3").unwrap(), number("2e+3"));
    assert_eq!(parse_json("-0.5e-2").unwrap(), number("-0.5e-2"));
    assert_eq!(parse_json("0").unwrap(), number("0"));
}

#[test]
fn parser_error_messages_render() {
    let err = parse_json("[1,]").unwrap_err();
    assert_eq!(
        err.message(),
        "Parse error at line 1, column 3: Trailing comma found"
    );

    let err = parse_json("@").unwrap_err();
    assert_eq!(
        err.message(),
        "Lexer error: Unexpected character: '@' at line 1, column 1"
    );

    let err = parse_json("123 456").unwrap_err();
    assert_eq!(
        err.message(),
        "Parse error at line 1, column 5: Expected token EOF, but found number(456)"
    );

    let err = parse_json("[1 2]").unwrap_err();
    assert_eq!(
        err.message(),
        "Parse error at line 1, column 4: Expected one of ,, ] but found number(2)"
    );
}

#[test]
fn display_len_matches_source_width() {
    assert_eq!(TokenKind::LeftBrace.display_len(), 1);
    assert_eq!(TokenKind::String("ab".to_string()).display_len(), 4);
    assert_eq!(TokenKind::Number("3.14".to_string()).display_len(), 4);
    assert_eq!(TokenKind::True.display_len(), 4);
    assert_eq!(TokenKind::False.display_len(), 5);
    assert_eq!(TokenKind::EOF.display_len(), 1);
}
