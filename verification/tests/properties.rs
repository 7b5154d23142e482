use json_descent::parse_json;
use json_descent::parser::Parser;
use json_descent::token::JsonArray;
use json_descent::token::JsonNumber;
use json_descent::token::JsonObject;
use json_descent::token::JsonToken;
use json_descent::token::ParseError;

#[test]
fn object_equality_is_order_insensitive() {
    let r1 = parse_json(r#"{"a": "x", "b": "y"}"#).unwrap();
    let r2 = parse_json(r#"{"b": "y", "a": "x"}"#).unwrap();
    assert_eq!(r1, r2);
    let smaller = parse_json(r#"{"a": "x"}"#).unwrap();
    assert_ne!(r1, smaller);
}

#[test]
fn array_equality_keeps_order() {
    let r1 = parse_json(r#"{"a": [1, 2]}"#).unwrap();
    let r2 = parse_json(r#"{"a": [2, 1]}"#).unwrap();
    assert_ne!(r1, r2);
}

#[test]
fn duplicate_key_last_wins() {
    let result = parse_json(r#"{"a": 1, "a": 2}"#).unwrap();
    let compare = JsonObject {
        keys: Some(vec![(
            "a".to_string(),
            JsonToken::Number(JsonNumber::Integer(2)),
        )]),
    };
    assert_eq!(result, compare);
}

#[test]
fn integer_and_float_lexemes() {
    let result = parse_json(r#"{"i": 101, "f": 1.5}"#).unwrap();
    let compare = JsonObject {
        keys: Some(vec![
            ("i".to_string(), JsonToken::Number(JsonNumber::Integer(101))),
            (
                "f".to_string(),
                JsonToken::Number(JsonNumber::Float("1.5".to_string())),
            ),
        ]),
    };
    assert_eq!(result, compare);
}

#[test]
fn integer_range_boundaries() {
    let max = parse_json(r#"{"n": 9223372036854775807}"#).unwrap();
    let max_compare = JsonObject {
        keys: Some(vec![(
            "n".to_string(),
            JsonToken::Number(JsonNumber::Integer(i64::MAX)),
        )]),
    };
    assert_eq!(max, max_compare);

    let min = parse_json(r#"{"n": -9223372036854775808}"#).unwrap();
    let min_compare = JsonObject {
        keys: Some(vec![(
            "n".to_string(),
            JsonToken::Number(JsonNumber::Integer(i64::MIN)),
        )]),
    };
    assert_eq!(min, min_compare);

    let over = parse_json(r#"{"n": 9223372036854775808}"#).unwrap();
    let over_compare = JsonObject {
        keys: Some(vec![(
            "n".to_string(),
            JsonToken::Number(JsonNumber::Float("9223372036854775808".to_string())),
        )]),
    };
    assert_eq!(over, over_compare);
}

#[test]
fn float_lexeme_shapes() {
    let result = parse_json(r#"{"a": 1e3, "b": -1.5e-3, "c": 1., "d": 007}"#).unwrap();
    let compare = JsonObject {
        keys: Some(vec![
            (
                "a".to_string(),
                JsonToken::Number(JsonNumber::Float("1e3".to_string())),
            ),
            (
                "b".to_string(),
                JsonToken::Number(JsonNumber::Float("-1.5e-3".to_string())),
            ),
            (
                "c".to_string(),
                JsonToken::Number(JsonNumber::Float("1.".to_string())),
            ),
            ("d".to_string(), JsonToken::Number(JsonNumber::Integer(7))),
        ]),
    };
    assert_eq!(result, compare);
}

#[test]
fn parsing_twice_gives_equal_trees() {
    let text = r#"{"k": [1, {"x": "y"}], "m": null}"#;
    let first = parse_json(text).unwrap();
    let second = parse_json(text).unwrap();
    assert_eq!(first, second);
}

#[test]
fn backslash_is_kept_verbatim() {
    let result = parse_json(r#"{"a\": 1}"#).unwrap();
    let compare = JsonObject {
        keys: Some(vec![(
            "a\\".to_string(),
            JsonToken::Number(JsonNumber::Integer(1)),
        )]),
    };
    assert_eq!(result, compare);
}

#[test]
fn empty_object_differs_from_empty_entry_list() {
    let none = JsonObject { keys: None };
    let some_empty = JsonObject { keys: Some(vec![]) };
    assert_ne!(none, some_empty);
    let none_array = JsonArray { items: None };
    let some_empty_array = JsonArray { items: Some(vec![]) };
    assert_ne!(none_array, some_empty_array);
}

#[test]
fn characters_after_the_root_object_are_ignored() {
    let result = parse_json("{}abc").unwrap();
    assert_eq!(result, JsonObject { keys: None });
}

#[test]
fn unclosed_object_at_end_of_input_is_accepted() {
    let result = parse_json("{").unwrap();
    assert_eq!(result, JsonObject { keys: None });
    let with_entry = parse_json(r#"{"a": 1"#).unwrap();
    let compare = JsonObject {
        keys: Some(vec![(
            "a".to_string(),
            JsonToken::Number(JsonNumber::Integer(1)),
        )]),
    };
    assert_eq!(with_entry, compare);
}

#[test]
fn cursor_never_passes_the_end() {
    let mut p = Parser::new("ab");
    assert_eq!(p.peek(), Some('a'));
    assert!(!p.is_done());
    assert_eq!(p.pop(), Some('a'));
    assert_eq!(p.pop(), Some('b'));
    assert!(p.is_done());
    assert_eq!(p.pop(), None);
    assert_eq!(p.pop(), None);
    assert_eq!(p.index, 2);
    assert_eq!(p.peek(), None);
}

#[test]
fn skip_whitespace_takes_spaces_and_newlines_only() {
    let mut p = Parser::new("  \n x");
    assert!(p.skip_whitespace());
    assert_eq!(p.index, 4);
    assert_eq!(p.peek(), Some('x'));

    let mut q = Parser::new("\tx");
    assert!(q.skip_whitespace());
    assert_eq!(q.index, 0);

    let mut r = Parser::new("   ");
    assert!(!r.skip_whitespace());
    assert!(r.is_done());
}

#[test]
fn parse_string_reads_up_to_the_quote() {
    let mut p = Parser::new(r#""hi there" rest"#);
    assert_eq!(p.parse_string().unwrap(), "hi there".to_string());
    assert_eq!(p.peek(), Some(' '));
}

#[test]
fn parse_expected_word_is_case_sensitive() {
    let mut p = Parser::new("null");
    assert!(p.parse_expected_word("null").is_ok());

    let mut q = Parser::new("nulL");
    assert!(matches!(
        q.parse_expected_word("null"),
        Err(ParseError::UnexpectedWordToken {
            expected: 'l',
            found: 'L',
            ..
        })
    ));

    let mut r = Parser::new("nu");
    assert!(matches!(
        r.parse_expected_word("null"),
        Err(ParseError::MissingTerminator)
    ));
}

#[test]
fn parse_number_leaves_the_next_character() {
    let mut p = Parser::new("101]");
    match p.parse_number() {
        Ok(JsonNumber::Integer(v)) => assert_eq!(v, 101),
        other => panic!("expected Integer, got {:?}", other),
    }
    assert_eq!(p.peek(), Some(']'));
}
