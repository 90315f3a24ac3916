use rust_json_parser::LexerError;
use rust_json_parser::LexerErrorKinds;

#[test]
fn test_unexpected_char_display() {
    let err = LexerError {
        kind: LexerErrorKinds::UnexcpectedChar('x'),
        line: 1,
        column: 2,
    };
    assert_eq!(
        err.message(),
        "Unexpected character: 'x' at line 1, column 2"
    );
}

#[test]
fn test_invalid_escape_char_display() {
    let err = LexerError {
        kind: LexerErrorKinds::InvalidEscapeChar('n'),
        line: 3,
        column: 4,
    };
    assert_eq!(
        err.message(),
        "Invalid escape character: '\\n' at line 3, column 4"
    );
}

#[test]
fn test_unclosed_string_display() {
    let err = LexerError {
        kind: LexerErrorKinds::UnclosedString,
        line: 5,
        column: 6,
    };
    assert_eq!(
        err.message(),
        "Unclosed string literal at line 5, column 6"
    );
}

#[test]
fn test_leading_zero_display() {
    let err = LexerError {
        kind: LexerErrorKinds::LeadingZero,
        line: 7,
        column: 8,
    };
    assert_eq!(
        err.message(),
        "Number cannot have leading zeros at line 7, column 8"
    );
}

#[test]
fn test_invalid_number_display() {
    let err = LexerError {
        kind: LexerErrorKinds::InvalidNumber,
        line: 9,
        column: 10,
    };
    assert_eq!(
        err.message(),
        "Invalid number format at line 9, column 10"
    );
}

#[test]
fn test_invalid_decimal_display() {
    let err = LexerError {
        kind: LexerErrorKinds::InvalidDecimal,
        line: 11,
        column: 12,
    };
    assert_eq!(
        err.message(),
        "Invalid decimal format at line 11, column 12"
    );
}

#[test]
fn test_invalid_exponent_display() {
    let err = LexerError {
        kind: LexerErrorKinds::InvalidExponent,
        line: 13,
        column: 14,
    };
    assert_eq!(
        err.message(),
        "Invalid exponent format at line 13, column 14"
    );
}

#[test]
fn test_big_position_display() {
    let err = LexerError {
        kind: LexerErrorKinds::InvalidLiteral,
        line: 120,
        column: 4097,
    };
    assert_eq!(err.message(), "Invalid literal at line 120, column 4097");
}
