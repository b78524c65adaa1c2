use pact_sse_plugin::parser::{parse_field, FieldErrorKind};

#[test]
fn test_parse_field_event() {
    let key = parse_field("event").unwrap();
    assert_eq!(key.field, "event");
    assert!(key.event_type.is_none());
    assert_eq!(key.path(), "event");
}

#[test]
fn test_parse_field_retry() {
    let key = parse_field("retry").unwrap();
    assert_eq!(key.field, "retry");
    assert!(key.event_type.is_none());
    assert_eq!(key.path(), "retry");
}

#[test]
fn test_parse_field_data_bracket() {
    let key = parse_field("data[count]").unwrap();
    assert_eq!(key.field, "data");
    assert_eq!(key.event_type, Some("count".to_string()));
    assert_eq!(key.path(), "data.count.*");
}

#[test]
fn test_parse_field_data_bracket_wildcard() {
    let key = parse_field("id[user][*]").unwrap();
    assert_eq!(key.field, "id");
    assert_eq!(key.event_type, Some("user".to_string()));
    assert_eq!(key.path(), "id.user.*");
}

#[test]
fn test_parse_field_data_wildcard() {
    let key = parse_field("data[*]").unwrap();
    assert_eq!(key.field, "data");
    assert!(key.event_type.is_none());
    assert_eq!(key.path(), "data.*");
}

#[test]
fn test_parse_field_dot_notation() {
    let key = parse_field("data.count.*").unwrap();
    assert_eq!(key.field, "data");
    assert_eq!(key.event_type, Some("count".to_string()));
    assert_eq!(key.path(), "data.count.*");
}

#[test]
fn test_parse_field_id_wildcard() {
    let key = parse_field("id.*").unwrap();
    assert_eq!(key.field, "id");
    assert!(key.event_type.is_none());
    assert_eq!(key.path(), "id.*");
}

#[test]
fn notations_of_a_typed_field_agree() {
    let bracket = parse_field("data[count]").unwrap();
    assert_eq!(parse_field("data[count][*]").unwrap(), bracket);
    assert_eq!(parse_field("data.count.*").unwrap(), bracket);
    assert_eq!(parse_field("data.count").unwrap(), bracket);
    assert!(bracket.is_typed());
    assert_eq!(bracket.bracketed(), "data[count][*]");
}

#[test]
fn notations_of_an_untyped_field_agree() {
    let bracket = parse_field("data[*]").unwrap();
    assert_eq!(parse_field("data.*").unwrap(), bracket);
    assert_eq!(parse_field("data").unwrap(), bracket);
    assert!(!bracket.is_typed());
    assert_eq!(bracket.bracketed(), "data[*]");
}

#[test]
fn a_path_is_read_as_the_key_it_is_of() {
    for definition in ["event", "retry", "id[*]", "id[user][*]", "event[count]", "_x1.y2"] {
        let key = parse_field(definition).unwrap();
        assert_eq!(parse_field(&key.path()).unwrap(), key);
    }
}

#[test]
fn white_space_around_a_definition_is_dropped() {
    assert_eq!(parse_field(" \u{2003}event\t").unwrap().path(), "event");
    assert_eq!(parse_field("\n data[ count ] ").unwrap().path(), "data.count.*");
}

#[test]
fn characters_that_make_no_token_only_separate() {
    assert_eq!(parse_field("data#[%count@]").unwrap().path(), "data.count.*");
    assert_eq!(
        parse_field("data[my-event]").unwrap_err().kind,
        FieldErrorKind::NoClosingBracket
    );
    assert_eq!(parse_field("9data").unwrap().path(), "data.*");
}

#[test]
fn what_follows_a_definition_is_ignored() {
    assert_eq!(parse_field("data[*] and more").unwrap().path(), "data.*");
    assert_eq!(parse_field("data[count]]").unwrap().path(), "data.count.*");
}

#[test]
fn refused_definitions_say_why() {
    let cases = [
        ("  ", FieldErrorKind::Empty, "Empty field definition: ''"),
        ("[count]", FieldErrorKind::NoFieldName, "Expected field name in '[count]'"),
        ("data*", FieldErrorKind::Invalid, "Invalid field definition: 'data*'"),
        ("data[", FieldErrorKind::NoEventType, "Expected event type in 'data['"),
        (
            "data[]",
            FieldErrorKind::BadEventType,
            "Expected event type in field definition: 'data[]'",
        ),
        (
            "data[*",
            FieldErrorKind::NoClosingBracket,
            "Expected ']' in field definition: 'data[*'",
        ),
        (
            "data[count",
            FieldErrorKind::NoClosingBracket,
            "Expected ']' in field definition: 'data[count'",
        ),
        (
            "data[count][x]",
            FieldErrorKind::NoWildcard,
            "Expected '[*]' in field definition: 'data[count][x]'",
        ),
        (
            "data[count][*",
            FieldErrorKind::NoClosingBracket,
            "Expected ']' in field definition: 'data[count][*'",
        ),
        (
            "data.",
            FieldErrorKind::NoEventTypeAfterDot,
            "Expected event type after '.' in 'data.'",
        ),
        (
            "data.[",
            FieldErrorKind::NoEventTypeAfterDot,
            "Expected event type after '.' in 'data.['",
        ),
        (
            " data.count.x ",
            FieldErrorKind::NoAsterisk,
            "Expected '*' after '.' in field definition: 'data.count.x'",
        ),
    ];
    for (definition, kind, text) in cases {
        let error = parse_field(definition).unwrap_err();
        assert_eq!(error.kind, kind);
        assert_eq!(error.text(), text);
    }
}

#[test]
fn names_in_a_key_are_words() {
    for definition in ["data[count]", "_.x9", "  id [ user ] ", "a%b"] {
        if let Ok(key) = parse_field(definition) {
            let mut names = vec![key.field.clone()];
            names.extend(key.event_type.clone());
            for name in names {
                assert!(name.starts_with(|c: char| c.is_ascii_alphabetic() || c == '_'));
                assert!(name.chars().all(|c| c.is_ascii_alphanumeric() || c == '_'));
            }
        }
    }
    assert_eq!(parse_field("a%b").unwrap_err().kind, FieldErrorKind::Invalid);
}
