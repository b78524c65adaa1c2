use pact_sse_plugin::rules::{
    build_rules, Answer, Attribute, Question, RequestedRule, RuleList,
};
use pact_sse_plugin::sse_content::compare::{CompareContentsResponse, ContentMismatch};
use pact_sse_plugin::sse_content::{compare_sse_contents, compare_sse_events, SseEvent};
use pact_sse_plugin::table::Table;

fn no_rules() -> Table<RuleList> {
    Table::new()
}

fn attributes(values: &[(&str, Attribute)]) -> Table<Attribute> {
    let mut table = Table::new();
    for (k, v) in values {
        table.insert(k.to_string(), v.clone());
    }
    table
}

fn rules(list: &[(&str, &str, &[(&str, Attribute)])]) -> Table<RuleList> {
    let requested = list
        .iter()
        .map(|(key, rule_type, values)| {
            let rule = RequestedRule {
                rule_type: rule_type.to_string(),
                values: attributes(values),
            };
            (key.to_string(), vec![rule])
        })
        .collect();
    build_rules(requested).unwrap()
}

fn mismatches(expected: &str, actual: &str, rules: &Table<RuleList>) -> Vec<ContentMismatch> {
    let response: CompareContentsResponse =
        compare_sse_contents(expected, actual, false, rules, &vec![]).unwrap();
    assert_eq!(response.error, "");
    assert_eq!(response.results.entries.len(), 1);
    response.results.get("").unwrap().mismatches.clone()
}

fn texts(expected: &str, actual: &str, rules: &Table<RuleList>) -> Vec<String> {
    mismatches(expected, actual, rules).into_iter().map(|m| m.mismatch).collect()
}

#[test]
fn test_compare_sse_events_different_count() {
    let expected = vec![SseEvent {
        event: None,
        id: None,
        data: Some("event1".to_string()),
        retry: None,
    }];
    let actual = vec![
        SseEvent {
            event: None,
            id: None,
            data: Some("event1".to_string()),
            retry: None,
        },
        SseEvent {
            event: None,
            id: None,
            data: Some("event2".to_string()),
            retry: None,
        },
    ];

    let mismatches = compare_sse_events(&expected, &actual, &no_rules());

    assert!(!mismatches.is_empty());
    assert!(mismatches[0].mismatch.contains("events"));
}

#[test]
fn test_compare_sse_events_matching() {
    let expected = vec![SseEvent {
        event: Some("message".to_string()),
        id: Some("123".to_string()),
        data: Some("hello".to_string()),
        retry: Some(3000.to_string()),
    }];
    let actual = expected.clone();

    let mismatches = compare_sse_events(&expected, &actual, &no_rules());

    assert!(mismatches.is_empty());
}

#[test]
fn test_compare_sse_events_data_mismatch() {
    let expected = vec![SseEvent {
        event: None,
        id: None,
        data: Some("expected".to_string()),
        retry: None,
    }];
    let actual = vec![SseEvent {
        event: None,
        id: None,
        data: Some("actual".to_string()),
        retry: None,
    }];

    let mismatches = compare_sse_events(&expected, &actual, &no_rules());

    assert!(!mismatches.is_empty());
    assert!(mismatches[0].mismatch.contains("mismatch"));
}

#[test]
fn other_numbers_of_events_are_the_first_mismatch() {
    let found = mismatches("data:a\n\n", "data:b\n\ndata:c\n\n", &no_rules());
    assert_eq!(
        found[0],
        ContentMismatch {
            expected: Some(b"1 events".to_vec()),
            actual: Some(b"2 events".to_vec()),
            mismatch: "Expected 1 SSE events, but got 2".to_string(),
            path: "".to_string(),
            diff: "".to_string(),
            mismatch_type: "".to_string(),
        }
    );
    assert_eq!(found.len(), 2);
    assert_eq!(found[1].path, "event[0].data");
}

#[test]
fn unequal_fields_are_mismatches_in_their_order() {
    let found = mismatches(
        "data:a\n\nid:1\nevent:t\ndata:x\nretry:5\n\n",
        "data:a\n\nid:2\nevent:u\ndata:y\nretry:6\n\n",
        &no_rules(),
    );
    let shown: Vec<(&str, &str)> =
        found.iter().map(|m| (m.path.as_str(), m.mismatch.as_str())).collect();
    assert_eq!(
        shown,
        vec![
            ("event[1].event", "Expected event type 't', but got 'u'"),
            ("event[1].id", "Expected id '1', but got '2'"),
            ("event[1].data", "Data mismatch: Expected data 'x', but got 'y'"),
            ("event[1].retry", "Expected retry '5', but got '6'"),
        ]
    );
    assert_eq!(found[1].expected, Some(b"1".to_vec()));
    assert_eq!(found[1].actual, Some(b"2".to_vec()));
}

#[test]
fn identifiers_and_data_must_be_there_and_the_rest_may_be_missing() {
    let found = mismatches("id:1\nevent:t\ndata:x\nretry:5\n", "unknown:\n:\nretry:5\n", &no_rules());
    let shown: Vec<(&str, Option<Vec<u8>>)> =
        found.iter().map(|m| (m.mismatch.as_str(), m.actual.clone())).collect();
    assert_eq!(
        shown,
        vec![
            ("Expected id '1', but event has no id", None),
            ("Expected data 'x', but event has no data", None),
        ]
    );
    assert!(mismatches("event:t\ndata:x\nretry:5\n", "data:x\n", &no_rules()).is_empty());
}

#[test]
fn unexpected_fields_make_no_difference() {
    assert!(mismatches("data:x\n", "id:1\nevent:t\ndata:x\nretry:5\n", &no_rules()).is_empty());
}

#[test]
fn paths_count_in_decimal() {
    let expected = "data:a\n\n".repeat(12);
    let actual = format!("{}data:b\n\n", "data:a\n\n".repeat(11));
    let found = mismatches(&expected, &actual, &no_rules());
    assert_eq!(found.len(), 1);
    assert_eq!(found[0].path, "event[11].data");
}

#[test]
fn type_rules_accept_every_value() {
    let table = rules(&[("data[*]", "type", &[])]);
    assert!(mismatches("data:a\n", "data:other\n", &table).is_empty());
    let sized = rules(&[("data[*]", "type", &[("min", Attribute::Json("2".to_string()))])]);
    assert!(mismatches("data:a\n", "data:other\n", &sized).is_empty());
}

#[test]
fn rules_are_found_under_every_notation() {
    for key in ["data[count][*]", "data[count]", "data.count.*"] {
        let table = rules(&[(key, "number", &[])]);
        assert!(mismatches("event:count\ndata:1\n", "event:count\ndata:2\n", &table).is_empty());
        assert_eq!(
            texts("event:count\ndata:1\n", "event:count\ndata:x\n", &table),
            vec!["Expected 'x' to match a number"]
        );
        assert_eq!(
            texts("event:time\ndata:1\n", "event:time\ndata:2\n", &table),
            vec!["Data mismatch: Expected data '1', but got '2'"]
        );
        assert_eq!(texts("data:1\n", "data:2\n", &table).len(), 1);
    }
    for key in ["id[*]", "id.*"] {
        let table = rules(&[(key, "type", &[])]);
        assert!(mismatches("id:1\n", "id:2\n", &table).is_empty());
        assert_eq!(texts("id:1\nevent:t\n", "id:2\nevent:t\n", &table).len(), 1);
    }
    for key in ["id[user][*]", "id[user]", "id.user.*"] {
        let table = rules(&[(key, "type", &[])]);
        assert!(mismatches("id:1\nevent:user\n", "id:2\nevent:user\n", &table).is_empty());
    }
}

#[test]
fn types_that_are_no_words_have_rules_too() {
    let table = rules(&[("data[my-event][*]", "type", &[])]);
    assert!(mismatches("event:my-event\ndata:1\n", "event:my-event\ndata:2\n", &table).is_empty());
}

#[test]
fn event_types_and_reconnection_times_have_rules() {
    let table = rules(&[("event", "type", &[]), ("retry", "integer", &[])]);
    assert!(mismatches("event:a\nretry:1\n", "event:b\nretry:+20\n", &table).is_empty());
    assert_eq!(
        texts("event:a\nretry:1\n", "event:b\nretry:soon\n", &table),
        vec!["Expected 'soon' to match an integer number"]
    );
    assert_eq!(
        texts("retry:1\n", "retry:18446744073709551616\n", &table),
        vec!["Expected '18446744073709551616' to match an integer number"]
    );
    assert!(texts("retry:1\n", "retry:18446744073709551615\n", &table).is_empty());
}

#[test]
fn the_rules_of_several_notations_are_all_applied() {
    let table = rules(&[("data.count.*", "boolean", &[]), ("data[count][*]", "number", &[])]);
    assert_eq!(
        texts("event:count\ndata:1\n", "event:count\ndata:x\n", &table),
        vec!["Expected 'x' to match a number", "Expected 'x' (String) to match a boolean"]
    );
}

#[test]
fn an_empty_list_of_rules_accepts_every_value() {
    let table = build_rules(vec![("data[*]".to_string(), vec![])]).unwrap();
    assert!(mismatches("data:1\n", "data:2\n", &table).is_empty());
}

#[test]
fn rules_report_what_they_refuse() {
    let text = |s: &str| Attribute::Text(s.to_string());
    let report = |rule_type: &str, values: &[(&str, Attribute)], actual: &str| {
        let table = rules(&[("data[*]", rule_type, values)]);
        texts("data:expected\n", &format!("data:{}\n", actual), &table)
    };
    assert_eq!(report("equality", &[], "x"), vec!["Expected 'x' to be equal to 'expected'"]);
    assert!(report("equality", &[], "expected").is_empty());
    assert_eq!(report("values", &[], "x"), vec!["Expected 'x' to be equal to 'expected'"]);
    assert!(report("boolean", &[], "true").is_empty());
    assert_eq!(report("boolean", &[], "x"), vec!["Expected 'x' (String) to match a boolean"]);
    assert_eq!(report("notEmpty", &[], ""), vec!["Expected '' (String) to not be empty"]);
    assert!(report("not-empty", &[], "x").is_empty());
    assert_eq!(report("null", &[], "x"), vec!["Unable to match 'expected' using Null"]);
    assert_eq!(
        report("include", &[("value", text("lo w"))], "hello"),
        vec!["Expected 'hello' to include 'lo w'"]
    );
    assert!(report("include", &[("value", text("lo w"))], "hello world").is_empty());
    assert_eq!(report("decimal", &[], "x"), vec!["Expected 'x' to match a number"]);
    assert!(report("real", &[], "123").is_empty());
    assert!(report("regex", &[("regex", text("^\\d+$"))], "42").is_empty());
    assert_eq!(
        report("regex", &[("regex", text("^\\d+$"))], "x"),
        vec!["Expected 'x' to match '^\\d+$'"]
    );
    assert!(report("date", &[("format", text("yyyy-MM-dd"))], "2024-01-15").is_empty());
    assert_eq!(
        report("date", &[("format", text("yyyy-MM-dd"))], "tomorrow"),
        vec!["Expected 'tomorrow' to match a date pattern of 'yyyy-MM-dd'"]
    );
    assert_eq!(report("semver", &[], "1.0.0"), Vec::<String>::new());
    assert_eq!(report("statusCode", &[], "404").len(), 1);
    assert_eq!(report("eachKey", &[], "x").len(), 1);
    let variants = Attribute::Json("[]".to_string());
    assert_eq!(report("arrayContains", &[("variants", variants)], "x").len(), 1);
}

fn regex(pattern: &str) -> Attribute {
    Attribute::Text(pattern.to_string())
}

fn asked(expected: &str, actual: &str, pattern: &str) -> Question {
    Question {
        expected: expected.to_string(),
        actual: actual.to_string(),
        rule: "regex".to_string(),
        setting: regex(pattern),
    }
}

#[test]
fn ordinary_regular_expressions_are_tried() {
    for (pattern, actual) in [
        ("^(\\d{1,3}\\.){3}\\d{1,3}$", "192.168.0.1"),
        ("^(a|b){3}$", "aba"),
        ("^[a-z]+(-[a-z]+)*$", "ab-cd-ef"),
        ("^(?=x)[[:alpha:]]+$", "xyz"),
        ("^\\p{L}\\x41$", "xA"),
        ("^(mon|tue|wed|thu|fri|sat|sun)$", "thu"),
    ] {
        let table = rules(&[("data[*]", "regex", &[("regex", regex(pattern))])]);
        let matching = format!("data:{}\n", actual);
        assert!(texts("data:x\n", &matching, &table).is_empty(), "{}", pattern);
        assert_eq!(
            texts("data:x\n", "data:-\n", &table),
            vec![format!("Expected '-' to match '{}'", pattern)]
        );
    }
}

#[test]
fn long_texts_are_tried_too() {
    for (pattern, part) in [("^(\\w+\\s)*$", "ab "), ("^x(-[a-z]+)*$", "-ab"), ("^[a-b ]*$", "ab ")] {
        let table = rules(&[("data[*]", "regex", &[("regex", regex(pattern))])]);
        let actual = format!("data:x{}!\n", part.repeat(2000));
        assert_eq!(texts("data:x\n", &actual, &table).len(), 1, "{}", pattern);
    }
}

#[test]
fn rules_that_are_not_tried_are_asked_for() {
    let pattern = "(?i)100";
    let table = rules(&[
        ("data.count.*", "regex", &[("regex", regex(pattern))]),
        ("event", "regex", &[("regex", regex("(x+x+)+y"))]),
    ]);
    let expected = "event:count\ndata:42\n\nevent:count\ndata:43\n";
    let actual = "event:total\ndata:100\n\nevent:total\ndata:7\n";
    let compare = |answers: &Vec<Answer>| {
        compare_sse_contents(expected, actual, false, &table, answers)
    };
    let on_type = || asked("count", "total", "(x+x+)+y");
    assert_eq!(
        compare(&vec![]).unwrap_err(),
        vec![on_type(), asked("42", "100", pattern), on_type(), asked("43", "7", pattern)]
    );
    let mut answers = vec![
        Answer { question: on_type(), failure: None },
        Answer { question: asked("42", "100", pattern), failure: None },
    ];
    assert_eq!(compare(&answers).unwrap_err(), vec![asked("43", "7", pattern)]);
    answers.push(Answer {
        question: asked("43", "7", pattern),
        failure: Some("no match".to_string()),
    });
    let response = compare(&answers).unwrap();
    assert_eq!(response.error, "");
    let found = &response.results.get("").unwrap().mismatches;
    assert_eq!(found.len(), 1);
    assert_eq!(found[0].path, "event[1].data");
    assert_eq!(found[0].mismatch, "no match");
    assert_eq!(found[0].expected, Some(b"43".to_vec()));
    assert_eq!(found[0].actual, Some(b"7".to_vec()));
}

#[test]
fn answers_do_not_stand_for_rules_that_are_tried() {
    let table = rules(&[("data[*]", "regex", &[("regex", regex("^a+$"))])]);
    let answers = vec![Answer { question: asked("x", "b", "^a+$"), failure: None }];
    let response = compare_sse_contents("data:x\n", "data:b\n", true, &table, &answers).unwrap();
    assert_eq!(
        response.results.get("").unwrap().mismatches[0].mismatch,
        "Expected 'b' to match '^a+$'"
    );
}

#[test]
fn allowing_unexpected_keys_makes_no_difference() {
    let table = rules(&[("data[*]", "number", &[]), ("id[*]", "regex", &[("regex", regex("(?i)a"))])]);
    for (expected, actual) in [("data:1\n", "data:x\nid:2\n"), ("id:1\n", "id:2\n")] {
        assert_eq!(
            compare_sse_contents(expected, actual, true, &table, &vec![]),
            compare_sse_contents(expected, actual, false, &table, &vec![])
        );
    }
}
