use pact_sse_plugin::definition::{has_nested_reference, parse_value, Config, FieldValue};
use pact_sse_plugin::parser::parse_field;
use pact_sse_plugin::plugin::SsePactPlugin;
use pact_sse_plugin::rules::Attribute;
use pact_sse_plugin::sse_content::setup::{
    build_interaction, try_setup_sse_contents, Configuration, FieldSetup, Interaction,
};
use pact_sse_plugin::sse_content::{setup_sse_contents, SseEvent};
use pact_sse_plugin::table::Table;

fn text(s: &str) -> Attribute {
    Attribute::Text(s.to_string())
}

fn config(fields: &[(&str, &str)]) -> Configuration {
    Some(
        fields
            .iter()
            .map(|(k, v)| (k.to_string(), FieldValue::Text(v.to_string())))
            .collect(),
    )
}

fn set_up(fields: &[(&str, &str)]) -> Interaction {
    try_setup_sse_contents(&config(fields)).unwrap().unwrap()
}

fn sorted(table: &Table<Attribute>) -> Vec<(String, Attribute)> {
    let mut entries = table.entries.clone();
    entries.sort_by(|a, b| a.0.cmp(&b.0));
    entries
}

const CONSUMER: [(&str, &str); 7] = [
    ("data[*]", "matching(type, 'simple text')"),
    ("data[count]", "matching(number, 42)"),
    ("data[time]", "matching(datetime, 'yyyy-MM-dd', '2024-01-15')"),
    ("event", "matching(type, 'count')"),
    ("id[*]", "matching(number, 100)"),
    (
        "id[user]",
        "matching(regex, '[0-9a-f]{8}-[0-9a-f]{4}-[0-9a-f]{4}-[0-9a-f]{4}-[0-9a-f]{12}', \
         '5d03dc45-96f6-4c0c-b1ad-aa67242058cc')",
    ),
    ("retry", "matching(integer, 3000)"),
];

#[test]
fn the_consumer_gets_one_event_for_each_field_but_two() {
    let interaction = set_up(&CONSUMER);
    assert_eq!(interaction.content_type, "text/event-stream");
    assert_eq!(
        String::from_utf8(interaction.content.clone()).unwrap(),
        "data:simple text\n\nevent:count\ndata:42\n\nevent:time\ndata:2024-01-15\n\ndata:100\n\n\
         event:user\ndata:5d03dc45-96f6-4c0c-b1ad-aa67242058cc\n\n"
    );
    let events = SseEvent::parse(std::str::from_utf8(&interaction.content).unwrap());
    assert_eq!(events.len(), 5);
    let types: Vec<Option<String>> = events.iter().map(|e| e.event.clone()).collect();
    assert!(types.contains(&None));
    assert!(types.contains(&Some("count".to_string())));
    assert!(types.contains(&Some("time".to_string())));
    assert!(types.contains(&Some("user".to_string())));
    assert!(events.iter().any(|e| e.data == Some("simple text".to_string())));
    assert!(events.iter().any(|e| e.data == Some("42".to_string())));
    assert_eq!(
        interaction.interaction_markup,
        "# SSE Events\n\n|type|data|\n|---|---|\n||simple text|\n|count|42|\n|time|2024-01-15|\n\
         ||100|\n|user|5d03dc45-96f6-4c0c-b1ad-aa67242058cc|\n"
    );
}

#[test]
fn rules_are_filed_under_the_paths_of_all_fields() {
    let interaction = set_up(&CONSUMER);
    let names: Vec<(&str, &str)> = interaction
        .rules
        .entries
        .iter()
        .map(|(path, rule)| (path.as_str(), rule.name.as_str()))
        .collect();
    assert_eq!(
        names,
        vec![
            ("data.*", "type"),
            ("data.count.*", "number"),
            ("data.time.*", "datetime"),
            ("event", "type"),
            ("id.*", "number"),
            ("id.user.*", "regex"),
            ("retry", "integer"),
        ]
    );
    assert_eq!(
        sorted(&interaction.rules.get("data.time.*").unwrap().values),
        vec![
            ("format".to_string(), text("yyyy-MM-dd")),
            ("match".to_string(), text("datetime")),
        ]
    );
    assert_eq!(
        sorted(&interaction.rules.get("data.*").unwrap().values),
        vec![("match".to_string(), text("type"))]
    );
}

#[test]
fn generators_are_filed_where_a_definition_asks_for_one() {
    let interaction = set_up(&CONSUMER);
    assert_eq!(
        interaction.generators.entries,
        vec![(
            "data.time.*".to_string(),
            Config {
                name: "DateTime".to_string(),
                values: Table { entries: vec![("format".to_string(), text("yyyy-MM-dd"))] },
            }
        )]
    );
    let retry = set_up(&[("retry", "matching(date, 'yyyy', '2024')")]);
    assert!(retry.generators.entries.is_empty());
    assert_eq!(retry.content, b"");
}

#[test]
fn sizes_are_filed_as_json() {
    let interaction = set_up(&[("data[*]", "atLeast(2)")]);
    let rule = interaction.rules.get("data.*").unwrap();
    assert_eq!(rule.name, "min-type");
    assert_eq!(
        sorted(&rule.values),
        vec![
            ("match".to_string(), text("min-type")),
            ("min".to_string(), Attribute::Json("2".to_string())),
        ]
    );
}

#[test]
fn a_rule_that_stands_elsewhere_is_one_on_the_type() {
    let interaction = set_up(&[("data[*]", "matching($'other')")]);
    let rule = interaction.rules.get("data.*").unwrap();
    assert_eq!(rule.name, "type");
    assert_eq!(rule.values.entries, vec![("match".to_string(), text("type"))]);
    assert_eq!(interaction.content, b"data:other\n\n");
}

#[test]
fn the_rule_of_the_last_field_with_a_path_counts() {
    let interaction = set_up(&[
        ("data.count.*", "matching(type, 'a')"),
        ("data[count]", "matching(number, 1)"),
    ]);
    assert_eq!(interaction.rules.entries.len(), 1);
    assert_eq!(interaction.rules.get("data.count.*").unwrap().name, "number");
    assert_eq!(interaction.content, b"event:count\ndata:a\n\nevent:count\ndata:1\n\n");
}

#[test]
fn what_is_set_up_for_fields_makes_the_interaction() {
    let setup = |name: &str, value: &str, generator: Option<Config>| FieldSetup {
        name: name.to_string(),
        key: parse_field(name).unwrap(),
        value: value.to_string(),
        rule: None,
        generator,
    };
    let uuid = Config { name: "Uuid".to_string(), values: Table::new() };
    let interaction = build_interaction(vec![
        setup("event", "t", None),
        setup("id[user]", "7", Some(uuid.clone())),
        setup("retry", "1", Some(uuid.clone())),
    ]);
    assert_eq!(interaction.content, b"event:user\ndata:7\n\n");
    assert_eq!(interaction.generators.entries, vec![("id.user.*".to_string(), uuid)]);
    assert_eq!(interaction.rules.entries.len(), 3);
}

#[test]
fn nothing_is_set_up_without_a_configuration() {
    assert_eq!(
        try_setup_sse_contents(&None).unwrap().unwrap_err(),
        "No config provided to match/generate SSE content"
    );
    assert_eq!(
        SsePactPlugin::default().configure_interaction(&None).unwrap().unwrap_err(),
        "Invalid SSE definition: No config provided to match/generate SSE content"
    );
    assert_eq!(set_up(&[]).content, b"");
}

#[test]
fn the_first_field_that_is_not_defined_is_reported() {
    let outcome = |fields: &[(&str, &str)]| setup_sse_contents(&config(fields)).unwrap_err();
    assert_eq!(outcome(&[("data[", ""), ("[", "")]), "Expected event type in 'data['");
    assert_eq!(
        outcome(&[("data", "matching(type, 'x')"), ("event", ""), ("[", "")]),
        "Expected a matching rule definition, but got an empty string"
    );
}

#[test]
fn only_texts_define_something() {
    let cases = [
        (FieldValue::Missing, "Not a valid value definition (missing value)"),
        (FieldValue::Null, "Null is not a valid value definition"),
        (FieldValue::Number, "Number is not a valid value definition"),
        (FieldValue::Bool, "Bool is not a valid value definition"),
        (FieldValue::Struct, "Struct is not a valid value definition"),
        (FieldValue::List, "List is not a valid value definition"),
    ];
    for (value, expected) in cases {
        assert_eq!(parse_value(&value).unwrap_err(), expected);
    }
}

#[test]
fn definitions_of_a_type_have_their_value_and_that_rule() {
    for value in ["simple text", "", "\\", "a\nb", "x) y", "eachKey("] {
        let definition = format!("matching(type, '{}')", value);
        let read = parse_value(&FieldValue::Text(definition.clone())).unwrap();
        assert_eq!(read.text(), definition);
        assert_eq!(read.value(), value);
        assert_eq!(read.first_rule(), Some("type".to_string()));
        assert!(read.first_values().entries.is_empty());
        assert!(read.generator().is_none());
    }
}

#[test]
fn refused_definitions_are_reported_as_the_reader_does() {
    let refused = parse_value(&FieldValue::Text("a, b, c".to_string())).unwrap_err();
    assert!(refused.contains("Expected a type of matching rule definition, but got 'a'"));
    assert!(try_setup_sse_contents(&config(&[("data", "a, b, c")])).unwrap().is_err());
}

#[test]
fn nested_references_are_found() {
    for definition in [
        "eachKey(matching($'x'))",
        " eachValue ( matching\t(\n$ 'x'))",
        "eachKey(eachValue(eachKey(matching($'x'))))",
    ] {
        assert!(has_nested_reference(definition));
        assert!(try_setup_sse_contents(&config(&[("data", definition)])).is_none());
        assert!(SsePactPlugin::default()
            .configure_interaction(&config(&[("data", definition)]))
            .is_none());
    }
    for definition in [
        "matching($'x')",
        "eachKey(matching(type, 'x'))",
        "matching(type, 'x'), eachKey(matching($'x'))",
        "eachKeys(matching($'x'))",
        "eachKey[matching($'x')]",
        "",
    ] {
        assert!(!has_nested_reference(definition));
    }
    let both = [("data", "eachKey(matching($'x'))"), ("event", "")];
    assert!(try_setup_sse_contents(&config(&both)).unwrap().is_err());
    assert!(try_setup_sse_contents(&config(&[("data", "eachKey(matching($'x')")])).unwrap().is_err());
}

#[test]
fn rules_on_each_value_are_filed_with_the_rules_they_hold() {
    let interaction = set_up(&[("data[*]", "eachValue(matching(type, 'x'))")]);
    let rule = interaction.rules.get("data.*").unwrap();
    assert_eq!(rule.name, "each-value");
    assert_eq!(
        sorted(&rule.values),
        vec![
            ("match".to_string(), text("each-value")),
            ("rules".to_string(), Attribute::Json("[{\"match\":\"type\"}]".to_string())),
            ("value".to_string(), text("x")),
        ]
    );
}

#[test]
fn unresolved_rules_of_fields_without_events_are_not_filed() {
    for name in ["event", "retry"] {
        let interaction = set_up(&[
            ("data[*]", "matching(type, 'x')"),
            (name, "eachKey(matching($'x'))"),
        ]);
        assert_eq!(interaction.content, b"data:x\n\n");
        assert_eq!(interaction.rules.entries.len(), 1);
        assert!(interaction.rules.get(name).is_none());
    }
    let interaction = set_up(&[("retry", "eachKey(matching(type, 'x'))")]);
    assert_eq!(interaction.rules.get("retry").unwrap().name, "each-key");
}
