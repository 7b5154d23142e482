use json_descent::parse_json;
use json_descent::parser::Parser;
use json_descent::token::ParseError;

#[test]
fn empty_document_error() {
    assert!(matches!(parse_json(""), Err(ParseError::EmptyDocument)));
}

#[test]
fn expected_object_start_error() {
    assert!(matches!(
        parse_json("42"),
        Err(ParseError::ExpectedObjectStart { found: '4' })
    ));
}

#[test]
fn expected_array_start_error() {
    let mut p = Parser::new("x");
    assert!(matches!(
        p.parse_array(),
        Err(ParseError::ExpectedArrayStart { found: 'x' })
    ));
}

#[test]
fn expected_string_start_error() {
    let mut p = Parser::new("x");
    assert!(matches!(
        p.parse_string(),
        Err(ParseError::ExpectedStringStart)
    ));
}

#[test]
fn unterminated_string_error() {
    assert!(matches!(
        parse_json(r#"{"abc"#),
        Err(ParseError::UnterminatedString)
    ));
}

#[test]
fn unexpected_token_error() {
    assert!(matches!(
        parse_json("{key: 1}"),
        Err(ParseError::UnexpectedToken {
            found: 'k',
            position: 1
        })
    ));
}

#[test]
fn unexpected_word_token_error() {
    let result = parse_json(r#"{"k": trux}"#);
    match result {
        Err(ParseError::UnexpectedWordToken {
            word,
            expected,
            found,
        }) => {
            assert_eq!(word, "true".to_string());
            assert_eq!(expected, 'e');
            assert_eq!(found, 'x');
        }
        other => panic!("expected UnexpectedWordToken, got {:?}", other),
    }
}

#[test]
fn missing_terminator_error() {
    assert!(matches!(
        parse_json(r#"{"k": tru"#),
        Err(ParseError::MissingTerminator)
    ));
}

#[test]
fn colon_without_key_error() {
    assert!(matches!(
        parse_json("{:1}"),
        Err(ParseError::ColonWithoutKey { .. })
    ));
}

#[test]
fn missing_pending_key_error() {
    assert!(matches!(
        parse_json(r#"{"a": 1 2}"#),
        Err(ParseError::MissingPendingKey { .. })
    ));
}

#[test]
fn duplicate_key_before_colon_error() {
    assert!(matches!(
        parse_json(r#"{"a" "b": 1}"#),
        Err(ParseError::DuplicateKeyBeforeColon { .. })
    ));
}

#[test]
fn trailing_comma_expected_pair_error() {
    assert!(matches!(
        parse_json(r#"{"a": 1, "b": }"#),
        Err(ParseError::TrailingCommaExpectedPair)
    ));
}

#[test]
fn trailing_comma_no_following_pair_error() {
    assert!(matches!(
        parse_json(r#"{"key": "value",}"#),
        Err(ParseError::TrailingCommaNoFollowingPair)
    ));
}

#[test]
fn comma_before_element_error() {
    assert!(matches!(
        parse_json(r#"{"a": [,1]}"#),
        Err(ParseError::CommaBeforeElement)
    ));
}

#[test]
fn missing_comma_between_elements_error() {
    assert!(matches!(
        parse_json(r#"{"a": [1 2]}"#),
        Err(ParseError::MissingCommaBetweenElements)
    ));
}

#[test]
fn trailing_comma_no_following_element_error() {
    assert!(matches!(
        parse_json(r#"{"a": [1,]}"#),
        Err(ParseError::TrailingCommaNoFollowingElement)
    ));
}

#[test]
fn invalid_number_error() {
    let result = parse_json(r#"{"a": -}"#);
    match result {
        Err(ParseError::InvalidNumber { lexeme }) => assert_eq!(lexeme, "-".to_string()),
        other => panic!("expected InvalidNumber, got {:?}", other),
    }
}

#[test]
fn invalid_number_two_dots_error() {
    assert!(matches!(
        parse_json(r#"{"a": 1.2.3}"#),
        Err(ParseError::InvalidNumber { .. })
    ));
}

#[test]
fn invalid_number_bare_exponent_error() {
    assert!(matches!(
        parse_json(r#"{"a": 1e}"#),
        Err(ParseError::InvalidNumber { .. })
    ));
}

#[test]
fn unexpected_end_of_input_error() {
    let mut p = Parser::new("");
    assert!(matches!(
        p.parse_json_value(),
        Err(ParseError::UnexpectedEndOfInput)
    ));
}

#[test]
fn tab_is_not_whitespace() {
    assert!(matches!(
        parse_json("{\t}"),
        Err(ParseError::UnexpectedToken {
            found: '\t',
            position: 1
        })
    ));
}
