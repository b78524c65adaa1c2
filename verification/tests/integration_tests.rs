use pact_sse_plugin::plugin::{
    Body, CompareContentsRequest, CompareStop, ConfigItem, ConfigValue, EntryType,
    PluginConfiguration, SsePactPlugin, VerifyStop,
};
use pact_sse_plugin::rules::{
    build_rules, Answer, Attribute, Question, RequestedRule, RuleList,
};
use pact_sse_plugin::sse_content::compare::{CompareContentsResponse, ContentMismatch};
use pact_sse_plugin::sse_content::{compare_sse_contents, SseEvent};
use pact_sse_plugin::table::Table;

fn body(content: &[u8]) -> Body {
    Body {
        content_type: "text/event-stream".to_string(),
        content: Some(content.to_vec()),
        content_type_hint: 0,
    }
}

fn request(expected: Option<Body>, actual: Option<Body>) -> CompareContentsRequest {
    CompareContentsRequest {
        expected,
        actual,
        allow_unexpected_keys: false,
        rules: Table::new(),
        plugin_configuration: None,
    }
}

fn found(response: CompareContentsResponse) -> Vec<ContentMismatch> {
    response.results.get("").unwrap().mismatches.clone()
}

#[test]
fn test_compare_contents_sse_format() {
    let expected = Body {
        content_type: "text/event-stream".to_string(),
        content: Some("data: hello\n\n".as_bytes().to_vec().into()),
        content_type_hint: 0,
    };

    let actual = expected.clone();

    let request = CompareContentsRequest {
        expected: Some(expected),
        actual: Some(actual),
        allow_unexpected_keys: false,
        rules: Table::new(),
        plugin_configuration: None,
    };

    assert_eq!(request.expected.as_ref().unwrap().content_type, "text/event-stream");
    assert_eq!(request.actual.as_ref().unwrap().content_type, "text/event-stream");

    let response = SsePactPlugin::default().compare_contents(&request, &vec![]).unwrap();
    assert_eq!(response.error, "");
    assert!(found(response).is_empty());
}

#[test]
fn test_compare_contents_sse_mismatch() {
    let expected = Body {
        content_type: "text/event-stream".to_string(),
        content: Some("data: expected\n\n".as_bytes().to_vec().into()),
        content_type_hint: 0,
    };

    let actual = Body {
        content_type: "text/event-stream".to_string(),
        content: Some("data: actual\n\n".as_bytes().to_vec().into()),
        content_type_hint: 0,
    };

    let request = CompareContentsRequest {
        expected: Some(expected),
        actual: Some(actual),
        allow_unexpected_keys: false,
        rules: Table::new(),
        plugin_configuration: None,
    };

    assert_eq!(request.expected.as_ref().unwrap().content_type, "text/event-stream");
    assert_eq!(request.actual.as_ref().unwrap().content_type, "text/event-stream");

    let expected_bytes: &[u8] =
        request.expected.as_ref().unwrap().content.as_ref().unwrap().as_ref();
    let actual_bytes: &[u8] = request.actual.as_ref().unwrap().content.as_ref().unwrap().as_ref();
    assert_ne!(expected_bytes, actual_bytes);

    let mismatches = found(SsePactPlugin::default().compare_contents(&request, &vec![]).unwrap());
    assert_eq!(mismatches.len(), 1);
    assert_eq!(
        mismatches[0].mismatch,
        "Data mismatch: Expected data 'expected', but got 'actual'"
    );
}

#[test]
fn test_sse_multiple_events() {
    let content = Body {
        content_type: "text/event-stream".to_string(),
        content: Some(
            "data: event1\n\ndata: event2\n\ndata: event3\n\n".as_bytes().to_vec().into(),
        ),
        content_type_hint: 0,
    };

    let content_str = String::from_utf8_lossy(content.content.as_ref().unwrap().as_ref());
    assert!(content_str.contains("data: event1"));
    assert!(content_str.contains("data: event2"));
    assert!(content_str.contains("data: event3"));
    assert_eq!(SseEvent::parse(&content_str).len(), 3);
}

#[test]
fn test_sse_event_types() {
    let content = Body {
        content_type: "text/event-stream".to_string(),
        content: Some("event: message\nid: 123\ndata: hello\n\n".as_bytes().to_vec().into()),
        content_type_hint: 0,
    };

    let content_str = String::from_utf8_lossy(content.content.as_ref().unwrap().as_ref());
    assert!(content_str.contains("event: message"));
    assert!(content_str.contains("id: 123"));
    assert!(content_str.contains("data: hello"));
    assert_eq!(SseEvent::parse(&content_str)[0].event, Some("message".to_string()));
}

#[test]
fn test_plugin_configuration() {
    let config = PluginConfiguration {
        interaction_configuration: Some(vec![(
            "key".to_string(),
            ConfigValue::Text("value".to_string()),
        )]),
        pact_configuration: None,
    };

    assert!(config.interaction_configuration.is_some());
}

#[test]
fn the_catalogue_has_a_matcher_and_a_generator() {
    let catalogue = SsePactPlugin::default().init_plugin();
    assert_eq!(catalogue.len(), 2);
    assert_eq!(catalogue[0].entry_type, EntryType::ContentMatcher);
    assert_eq!(catalogue[1].entry_type, EntryType::ContentGenerator);
    for entry in catalogue {
        assert_eq!(entry.key, "sse");
        assert_eq!(
            entry.values.entries,
            vec![("content-types".to_string(), "text/event-stream".to_string())]
        );
    }
}

#[test]
fn content_on_one_side_only_is_a_mismatch() {
    let plugin = SsePactPlugin::default();
    let unexpected = found(plugin.compare_contents(&request(None, Some(body(b"data:x"))), &vec![]).unwrap());
    assert_eq!(
        unexpected,
        vec![ContentMismatch {
            expected: None,
            actual: Some(b"data:x".to_vec()),
            mismatch: "Expected no SSE content, but got 6 bytes".to_string(),
            path: "".to_string(),
            diff: "".to_string(),
            mismatch_type: "body".to_string(),
        }]
    );
    let missing = found(plugin.compare_contents(&request(Some(body(b"data:x")), None), &vec![]).unwrap());
    assert_eq!(
        missing,
        vec![ContentMismatch {
            expected: Some(b"data:x".to_vec()),
            actual: None,
            mismatch: "Expected SSE content, but did not get any".to_string(),
            path: "".to_string(),
            diff: "".to_string(),
            mismatch_type: "body".to_string(),
        }]
    );
    let nothing = plugin.compare_contents(&request(None, None), &vec![]).unwrap();
    assert!(nothing.results.entries.is_empty());
}

#[test]
fn bytes_that_are_no_text_cannot_be_compared() {
    let plugin = SsePactPlugin::default();
    let bad: &[u8] = b"data:\xff";
    let reason = std::str::from_utf8(bad).unwrap_err().to_string();
    assert_eq!(
        plugin.compare_contents(&request(Some(body(bad)), Some(body(bad))), &vec![]).unwrap_err(),
        CompareStop::Aborted(format!("Failed to parse expected SSE: {}", reason))
    );
    assert_eq!(
        plugin.compare_contents(&request(Some(body(b"")), Some(body(bad))), &vec![]).unwrap_err(),
        CompareStop::Aborted(format!("Failed to parse actual SSE: {}", reason))
    );
}

#[test]
fn rules_of_a_request_are_applied() {
    let mut compared = request(Some(body(b"data:1\n")), Some(body(b"data:2\n")));
    let rule = RequestedRule { rule_type: "number".to_string(), values: Table::new() };
    compared.rules = build_rules(vec![("data.*".to_string(), vec![rule])]).unwrap();
    assert!(found(SsePactPlugin::default().compare_contents(&compared, &vec![]).unwrap()).is_empty());
}

#[test]
fn there_is_no_mock_server() {
    let plugin = SsePactPlugin::default();
    assert_eq!(plugin.start_mock_server(), "Mock server not implemented for SSE plugin");
    assert!(plugin.shutdown_mock_server().ok);
    assert!(plugin.shutdown_mock_server().results.is_empty());
    assert!(plugin.get_mock_server_results().ok);
    assert!(plugin.get_mock_server_results().results.is_empty());
}

#[test]
fn an_interaction_is_prepared_without_content() {
    assert_eq!(
        SsePactPlugin::default().prepare_interaction_for_verification(),
        Body {
            content_type: "text/event-stream".to_string(),
            content: None,
            content_type_hint: 0,
        }
    );
}

fn item(fields: &[(&str, Attribute)]) -> ConfigItem {
    let mut table = Table::new();
    for (k, v) in fields {
        table.insert(k.to_string(), v.clone());
    }
    ConfigItem::Struct(table)
}

fn config(fields: Vec<(&str, ConfigValue)>) -> Option<PluginConfiguration> {
    Some(PluginConfiguration {
        interaction_configuration: Some(
            fields.into_iter().map(|(k, v)| (k.to_string(), v)).collect(),
        ),
        pact_configuration: None,
    })
}

#[test]
fn a_body_verifies_against_itself() {
    let plugin = SsePactPlugin::default();
    for bytes in [b"id:1\nevent:t\ndata:x\nretry:1\n".to_vec(), b"\xff".to_vec(), vec![]] {
        let same = Some(bytes);
        let result = plugin.verify_interaction(None, &same, &same, &vec![]).unwrap();
        assert!(result.success);
        assert!(result.mismatches.is_empty());
    }
    assert!(plugin.verify_interaction(None, &None, &None, &vec![]).unwrap().success);
    assert!(plugin.verify_interaction(None, &None, &Some(vec![]), &vec![]).unwrap().success);
}

#[test]
fn missing_content_fails_the_verification() {
    let result = SsePactPlugin::default()
        .verify_interaction(None, &Some(b"x".to_vec()), &None, &vec![])
        .unwrap();
    assert!(!result.success);
    assert_eq!(result.mismatches.len(), 1);
    assert_eq!(result.mismatches[0].mismatch, "Expected SSE content, but did not get any");
    assert_eq!(result.mismatches[0].mismatch_type, "body");
}

#[test]
fn the_rules_that_a_configuration_keeps_are_applied() {
    let text = |s: &str| Attribute::Text(s.to_string());
    let kept = config(vec![
        (
            "data[*]rules",
            ConfigValue::List(vec![
                item(&[("type", text("number"))]),
                item(&[("type", text("no such rule"))]),
                item(&[("type", Attribute::Json("1".to_string()))]),
                ConfigItem::Other,
                item(&[("type", text("regex")), ("regex", text("^x"))]),
            ]),
        ),
        ("id[*]rulesrules", ConfigValue::List(vec![item(&[("type", text("type"))])])),
        ("retry", ConfigValue::List(vec![item(&[("type", text("type"))])])),
        ("event.rules", ConfigValue::Text("type".to_string())),
        ("other", ConfigValue::Other),
    ]);
    let plugin = SsePactPlugin::default();
    let result = plugin.verify_interaction(
        kept,
        &Some(b"id:1\ndata:1\nretry:1\n".to_vec()),
        &Some(b"id:2\ndata:y\nretry:2\n".to_vec()),
        &vec![],
    )
    .unwrap();
    assert!(!result.success);
    let texts: Vec<String> = result.mismatches.into_iter().map(|m| m.mismatch).collect();
    assert_eq!(
        texts,
        vec![
            "Expected 'y' to match a number",
            "Expected 'y' to match '^x'",
            "Expected retry '1', but got '2'",
        ]
    );
}

#[test]
fn no_rules_are_kept_under_other_names() {
    let rules: Table<RuleList> = pact_sse_plugin::plugin::rules_of_configuration(config(vec![
        ("data", ConfigValue::List(vec![item(&[("type", Attribute::Text("type".to_string()))])])),
        ("rules", ConfigValue::List(vec![item(&[("type", Attribute::Text("type".to_string()))])])),
    ]))
    .unwrap();
    assert_eq!(rules.entries.len(), 1);
    assert_eq!(rules.entries[0].0, "");
}

#[test]
fn rules_that_may_not_end_are_not_tried() {
    let plugin = SsePactPlugin::default();
    let pattern = Attribute::Text("(x+x+)+y".to_string());
    let mut values = Table::new();
    values.insert("regex".to_string(), pattern.clone());
    let rule = RequestedRule { rule_type: "regex".to_string(), values: values.clone() };
    let mut compared = request(Some(body(b"data:1\n")), Some(body(b"data:xxx\n")));
    compared.rules = build_rules(vec![("data.*".to_string(), vec![rule])]).unwrap();
    assert!(plugin.can_compare_contents(&compared));
    let asked = |expected: &str| Question {
        expected: expected.to_string(),
        actual: "xxx".to_string(),
        rule: "regex".to_string(),
        setting: pattern.clone(),
    };
    assert_eq!(
        plugin.try_compare_contents(&compared, &vec![]).unwrap().unwrap_err(),
        CompareStop::Open(vec![asked("1")])
    );
    let answers = vec![Answer { question: asked("1"), failure: Some("refused".to_string()) }];
    let answer = plugin.compare_contents(&compared, &answers).unwrap();
    assert_eq!(found(answer)[0].mismatch, "refused");
    compared.actual = Some(body(b"id:1\n"));
    let answer = plugin.try_compare_contents(&compared, &vec![]).unwrap().unwrap();
    assert_eq!(found(answer)[0].mismatch, "Expected data '1', but event has no data");
    values.insert("type".to_string(), Attribute::Text("regex".to_string()));
    let kept = || {
        let item = ConfigItem::Struct(values.clone());
        config(vec![("data[*]rules", ConfigValue::List(vec![item]))])
    };
    let content = Some(b"data:xxx\n".to_vec());
    assert_eq!(
        plugin.verify_interaction(kept(), &content, &content, &vec![]).unwrap_err(),
        VerifyStop::Open(vec![asked("xxx")])
    );
    let matching = vec![Answer { question: asked("xxx"), failure: None }];
    assert!(plugin.verify_interaction(kept(), &content, &content, &matching).unwrap().success);
}

#[test]
fn rules_that_cannot_be_read_are_not_kept_in_silence() {
    let variants = "[{\"index\":0,\"rules\":{\"$[99999999999999999999]\":{}}}]";
    let unreadable = config(vec![(
        "data[*]rules",
        ConfigValue::List(vec![item(&[
            ("type", Attribute::Text("arrayContains".to_string())),
            ("variants", Attribute::Json(variants.to_string())),
        ])]),
    )]);
    let content = Some(b"data:1\n".to_vec());
    assert_eq!(
        SsePactPlugin::default()
            .verify_interaction(unreadable, &content, &content, &vec![])
            .unwrap_err(),
        VerifyStop::Unreadable
    );
}

#[test]
fn bodies_without_content_are_not_compared() {
    let plugin = SsePactPlugin::default();
    let empty = || {
        let mut empty = body(b"");
        empty.content = None;
        Some(empty)
    };
    assert!(plugin.try_compare_contents(&request(empty(), None), &vec![]).is_none());
    assert!(plugin.try_compare_contents(&request(None, empty()), &vec![]).is_none());
    assert!(plugin.try_compare_contents(&request(Some(body(b"")), empty()), &vec![]).is_none());
    assert!(plugin.try_compare_contents(&request(Some(body(b"\xff")), empty()), &vec![]).unwrap().is_err());
}

#[test]
fn contents_are_compared_as_streams() {
    let plugin = SsePactPlugin::default();
    for allowed in [true, false] {
        let mut compared = request(Some(body(b"data:1\nid:2\n")), Some(body(b"data:x\nretry:3\n")));
        compared.allow_unexpected_keys = allowed;
        let rule = RequestedRule { rule_type: "number".to_string(), values: Table::new() };
        compared.rules = build_rules(vec![("data.*".to_string(), vec![rule])]).unwrap();
        let streams = compare_sse_contents(
            "data:1\nid:2\n",
            "data:x\nretry:3\n",
            !allowed,
            &compared.rules,
            &vec![],
        );
        assert_eq!(
            plugin.compare_contents(&compared, &vec![]).unwrap(),
            streams.unwrap()
        );
    }
}

#[test]
fn skipped_entries_make_no_difference() {
    let text = |s: &str| Attribute::Text(s.to_string());
    let kept = || item(&[("type", text("number"))]);
    let with = config(vec![
        ("other", ConfigValue::List(vec![kept()])),
        (
            "data[*]rules",
            ConfigValue::List(vec![ConfigItem::Other, kept(), item(&[("type", text("none"))])]),
        ),
        ("id[*]rules", ConfigValue::List(vec![ConfigItem::Other])),
        ("rules", ConfigValue::Other),
    ]);
    let without = config(vec![("data[*]rules", ConfigValue::List(vec![kept()]))]);
    let plugin = SsePactPlugin::default();
    let (expected, actual) = (Some(b"id:1\ndata:1\n".to_vec()), Some(b"id:2\ndata:x\n".to_vec()));
    let result = plugin.verify_interaction(with, &expected, &actual, &vec![]);
    assert_eq!(result, plugin.verify_interaction(without, &expected, &actual, &vec![]));
    assert_eq!(result.unwrap().mismatches.len(), 2);
}
