use rust_json_parser::Lexer;
use rust_json_parser::Parser;
use rust_json_parser::Value;
use rust_json_parser::parse;

fn number(text: &str) -> Value {
    Value::Number(text.to_string())
}

#[test]
fn parses_simple_object() {
    let input = r#"{
            "a": "hello",
            "b": 123,
            "c": true,
            "d": false,
            "e": null
        }"#;
    let lexer = Lexer::new(input);
    let mut parser = Parser::new(lexer);
    let result = parser.parse();
    assert!(result.is_ok(), "Parser failed: {:?}", result);
    let json = result.unwrap();
    assert!(json.is_object(), "Expected JSON object");
    assert_eq!(json.get("a"), Some(&Value::String("hello".to_string())));
    assert_eq!(json.get("b"), Some(&number("123")));
    assert_eq!(json.get("c"), Some(&Value::Bool(true)));
    assert_eq!(json.get("d"), Some(&Value::Bool(false)));
    assert_eq!(json.get("e"), Some(&Value::Null));
}

#[test]
fn test_parse_null() {
    let result = parse("null").unwrap();
    assert_eq!(result, Value::Null);
}

#[test]
fn test_parse_bool() {
    let result = parse("true").unwrap();
    assert_eq!(result, Value::Bool(true));

    let result = parse("false").unwrap();
    assert_eq!(result, Value::Bool(false));
}

#[test]
fn test_parse_number() {
    let result = parse("42").unwrap();
    assert_eq!(result, number("42"));
    assert_eq!(result.as_number().unwrap().parse::<f64>().unwrap(), 42.0);

    let result = parse("3.14").unwrap();
    assert_eq!(result, number("3.14"));
    assert_eq!(result.as_number().unwrap().parse::<f64>().unwrap(), 3.14);

    let result = parse("-10").unwrap();
    assert_eq!(result, number("-10"));
    assert_eq!(result.as_number().unwrap().parse::<f64>().unwrap(), -10.0);
}

#[test]
fn test_parse_string() {
    let result = parse(r#""hello""#).unwrap();
    assert_eq!(result, Value::String("hello".to_string()));

    let result = parse(r#""hello world""#).unwrap();
    assert_eq!(result, Value::String("hello world".to_string()));
}

#[test]
fn test_parse_empty_array() {
    let result = parse("[]").unwrap();
    assert_eq!(result, Value::Array(vec![]));
}

#[test]
fn test_parse_array() {
    let result = parse(r#"[1, 2, 3]"#).unwrap();
    assert_eq!(
        result,
        Value::Array(vec![number("1"), number("2"), number("3")])
    );

    let result = parse(r#"["a", "b", "c"]"#).unwrap();
    assert_eq!(
        result,
        Value::Array(vec![
            Value::String("a".to_string()),
            Value::String("b".to_string()),
            Value::String("c".to_string()),
        ])
    );
}

#[test]
fn test_parse_empty_object() {
    let result = parse("{}").unwrap();
    assert_eq!(result, Value::Object(Vec::new()));
}

#[test]
fn test_parse_object() {
    let result = parse(r#"{"name": "Alice", "age": 30}"#).unwrap();

    let expected = vec![
        ("name".to_string(), Value::String("Alice".to_string())),
        ("age".to_string(), number("30")),
    ];

    assert_eq!(result, Value::Object(expected));
}

#[test]
fn test_parse_nested_structure() {
    let json = r#"{
        "name": "Alice",
        "age": 30,
        "hobbies": ["reading", "coding"],
        "address": {
            "street": "123 Main St",
            "city": "Anytown"
        }
    }"#;

    let result = parse(json).unwrap();

    if result.is_object() {
        assert_eq!(result.get("name"), Some(&Value::String("Alice".to_string())));
        assert_eq!(result.get("age"), Some(&number("30")));

        if let Some(Value::Array(hobbies)) = result.get("hobbies") {
            assert_eq!(hobbies.len(), 2);
            assert_eq!(hobbies[0], Value::String("reading".to_string()));
            assert_eq!(hobbies[1], Value::String("coding".to_string()));
        } else {
            panic!("Expected hobbies to be an array");
        }

        if let Some(address) = result.get("address") {
            assert!(address.is_object(), "Expected address to be an object");
            assert_eq!(
                address.get("street"),
                Some(&Value::String("123 Main St".to_string()))
            );
            assert_eq!(
                address.get("city"),
                Some(&Value::String("Anytown".to_string()))
            );
        } else {
            panic!("Expected address to be an object");
        }
    } else {
        panic!("Expected result to be an object");
    }
}

#[test]
fn test_value_methods() {
    let null_val = Value::Null;
    assert!(null_val.is_null());
    assert!(!null_val.is_bool());

    let bool_val = Value::Bool(true);
    assert!(bool_val.is_bool());
    assert_eq!(bool_val.as_bool(), Some(true));

    let num_val = number("42");
    assert!(num_val.is_number());
    assert_eq!(num_val.as_number().unwrap().parse::<f64>().unwrap(), 42.0);

    let str_val = Value::String("hello".to_string());
    assert!(str_val.is_string());
    assert_eq!(str_val.as_str(), Some("hello"));

    let arr_val = Value::Array(vec![number("1")]);
    assert!(arr_val.is_array());
    assert!(arr_val.as_array().is_some());

    let obj_val = Value::Object(Vec::new());
    assert!(obj_val.is_object());
    assert!(obj_val.as_object().is_some());
}
