use json_descent::parse_json;
use json_descent::token::JsonArray;
use json_descent::token::JsonNumber;
use json_descent::token::JsonObject;
use json_descent::token::JsonToken;

#[test]
fn empty_string() {
    let result = parse_json("");
    assert!(result.is_err())
}

#[test]
fn empty_object() {
    let result = parse_json("{}");
    assert!(result.unwrap() == JsonObject { keys: None })
}

#[test]
fn kv_after_comma() {
    let result = parse_json(r#"{"key": "value",}"#);
    assert!(result.is_err())
}

#[test]
fn non_double_quoted_property() {
    // key2 should have double quotes around it here
    let result = parse_json(
        r#"{
  "key": "value",
  key2: "value"
}"#,
    );
    assert!(result.is_err())
}

#[test]
fn simple_key_value() {
    let result = parse_json(r#"{"key": "value"}"#).unwrap();
    let keys = vec![("key".to_string(), JsonToken::String("value".to_string()))];

    let compare = JsonObject { keys: Some(keys) };

    assert_eq!(result, compare)
}

#[test]
fn simple_key_value_with_comma() {
    let result = parse_json(
        r#"{
  "key": "value",
  "key2": "value"
}"#,
    )
    .unwrap();
    let keys = vec![
        ("key".to_string(), JsonToken::String("value".to_string())),
        ("key2".to_string(), JsonToken::String("value".to_string())),
    ];

    let compare = JsonObject { keys: Some(keys) };

    assert_eq!(result, compare)
}

#[test]
fn non_valid_boolean() {
    let result = parse_json(
        r#"{
  "key1": true,
  "key2": False,
  "key3": null,
  "key4": "value",
  "key5": 101
}"#,
    );

    assert!(result.is_err())
}

#[test]
fn valid_bool_and_number() {
    let result = parse_json(
        r#"{
  "key1": true,
  "key2": false,
  "key3": null,
  "key4": "value",
  "key5": 101
}"#,
    )
    .unwrap();

    let keys = vec![
        ("key1".to_string(), JsonToken::True),
        ("key2".to_string(), JsonToken::False),
        ("key3".to_string(), JsonToken::Null),
        ("key4".to_string(), JsonToken::String("value".to_string())),
        (
            "key5".to_string(),
            JsonToken::Number(JsonNumber::Integer(101)),
        ),
    ];

    let compare = JsonObject { keys: Some(keys) };

    assert_eq!(result, compare)
}

#[test]
fn invalid_array() {
    let result = parse_json(
        r#"{
  "key": "value",
  "key-n": 101,
  "key-o": {
    "inner key": "inner value"
  },
  "key-l": ['list value']
}"#,
    );

    assert!(result.is_err())
}

#[test]
fn valid_empty_object_and_array() {
    let result = parse_json(
        r#"{
  "key": "value",
  "key-n": 101,
  "key-o": {},
  "key-l": []
}"#,
    )
    .unwrap();

    let keys = vec![
        ("key".to_string(), JsonToken::String("value".to_string())),
        ("key-n".to_string(), JsonToken::Number(JsonNumber::Integer(101))),
        ("key-o".to_string(), JsonToken::Object(JsonObject { keys: None })),
        ("key-l".to_string(), JsonToken::Array(JsonArray { items: None })),
    ];

    let compare = JsonObject { keys: Some(keys) };

    assert_eq!(result, compare)
}

#[test]
fn valid_nested_object_and_array() {
    let result = parse_json(
        r#"{
  "key": "value",
  "key-n": 101,
  "key-o": {
    "inner key": "inner value"
  },
  "key-l": ["list value"]
}"#,
    )
    .unwrap();

    let inner_keys = vec![(
        "inner key".to_string(),
        JsonToken::String("inner value".to_string()),
    )];

    let keys = vec![
        ("key".to_string(), JsonToken::String("value".to_string())),
        ("key-n".to_string(), JsonToken::Number(JsonNumber::Integer(101))),
        (
            "key-o".to_string(),
            JsonToken::Object(JsonObject {
                keys: Some(inner_keys),
            }),
        ),
        (
            "key-l".to_string(),
            JsonToken::Array(JsonArray {
                items: Some(vec![JsonToken::String("list value".to_string())]),
            }),
        ),
    ];

    let compare = JsonObject { keys: Some(keys) };

    assert_eq!(result, compare)
}

#[test]
fn deeply_nested_object() {
    let result = parse_json(
        r#"{
  "level1": {
    "level2": {
      "level3": {
        "level4": "deep value"
      }
    }
  }
}"#,
    )
    .unwrap();

    let level4_keys = vec![(
        "level4".to_string(),
        JsonToken::String("deep value".to_string()),
    )];
    let level3_keys = vec![(
        "level3".to_string(),
        JsonToken::Object(JsonObject {
            keys: Some(level4_keys),
        }),
    )];
    let level2_keys = vec![(
        "level2".to_string(),
        JsonToken::Object(JsonObject {
            keys: Some(level3_keys),
        }),
    )];
    let level1_keys = vec![(
        "level1".to_string(),
        JsonToken::Object(JsonObject {
            keys: Some(level2_keys),
        }),
    )];

    let compare = JsonObject {
        keys: Some(level1_keys),
    };

    assert_eq!(result, compare);
}

#[test]
fn nested_arrays() {
    let result = parse_json(
        r#"{
  "array": [
    [1, 2, 3],
    ["nested", "array"],
    []
  ]
}"#,
    )
    .unwrap();

    let array_items = vec![
        JsonToken::Array(JsonArray {
            items: Some(vec![
                JsonToken::Number(JsonNumber::Integer(1)),
                JsonToken::Number(JsonNumber::Integer(2)),
                JsonToken::Number(JsonNumber::Integer(3)),
            ]),
        }),
        JsonToken::Array(JsonArray {
            items: Some(vec![
                JsonToken::String("nested".to_string()),
                JsonToken::String("array".to_string()),
            ]),
        }),
        JsonToken::Array(JsonArray { items: None }),
    ];

    let keys = vec![(
        "array".to_string(),
        JsonToken::Array(JsonArray {
            items: Some(array_items),
        }),
    )];

    let compare = JsonObject { keys: Some(keys) };

    assert_eq!(result, compare);
}

#[test]
fn mixed_nested_structures() {
    let result = parse_json(
        r#"{
  "object": {
    "array": [1, 2, {"key": "value"}],
    "key": "string"
  }
}"#,
    )
    .unwrap();

    let inner_object_keys = vec![("key".to_string(), JsonToken::String("value".to_string()))];
    let array_items = vec![
        JsonToken::Number(JsonNumber::Integer(1)),
        JsonToken::Number(JsonNumber::Integer(2)),
        JsonToken::Object(JsonObject {
            keys: Some(inner_object_keys),
        }),
    ];

    let object_keys = vec![
        (
            "array".to_string(),
            JsonToken::Array(JsonArray {
                items: Some(array_items),
            }),
        ),
        ("key".to_string(), JsonToken::String("string".to_string())),
    ];

    let keys = vec![(
        "object".to_string(),
        JsonToken::Object(JsonObject {
            keys: Some(object_keys),
        }),
    )];

    let compare = JsonObject { keys: Some(keys) };

    assert_eq!(result, compare);
}

#[test]
fn empty_and_nonempty_nested_structures() {
    let result = parse_json(
        r#"{
  "emptyObject": {},
  "emptyArray": [],
  "nonEmpty": {
    "key": [1, 2]
  }
}"#,
    )
    .unwrap();

    let non_empty_keys = vec![(
        "key".to_string(),
        JsonToken::Array(JsonArray {
            items: Some(vec![
                JsonToken::Number(JsonNumber::Integer(1)),
                JsonToken::Number(JsonNumber::Integer(2)),
            ]),
        }),
    )];

    let keys = vec![
        (
            "emptyObject".to_string(),
            JsonToken::Object(JsonObject { keys: None }),
        ),
        (
            "emptyArray".to_string(),
            JsonToken::Array(JsonArray { items: None }),
        ),
        (
            "nonEmpty".to_string(),
            JsonToken::Object(JsonObject {
                keys: Some(non_empty_keys),
            }),
        ),
    ];

    let compare = JsonObject { keys: Some(keys) };

    assert_eq!(result, compare);
}
