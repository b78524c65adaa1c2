use pact_sse_plugin::rules::{
    add_rule, build_rules, Attribute, RequestedRule, Rule, RuleError, RuleList,
};
use pact_sse_plugin::table::Table;

fn text(s: &str) -> Attribute {
    Attribute::Text(s.to_string())
}

fn json(s: &str) -> Attribute {
    Attribute::Json(s.to_string())
}

fn attributes(values: &[(&str, Attribute)]) -> Table<Attribute> {
    let mut table = Table::new();
    for (k, v) in values {
        table.insert(k.to_string(), v.clone());
    }
    table
}

fn name(rule_type: &str, values: &[(&str, Attribute)]) -> String {
    Rule::new(rule_type, attributes(values)).unwrap().name()
}

fn refusal(rule_type: &str, values: &[(&str, Attribute)]) -> String {
    match Rule::new(rule_type, attributes(values)).unwrap_err() {
        RuleError::Refused(text) => text,
        RuleError::Unreadable => panic!("cannot be read"),
    }
}

#[test]
fn rules_have_the_name_of_their_type() {
    for plain in [
        "equality", "type", "number", "integer", "decimal", "boolean", "date", "time", "datetime",
        "null", "values", "semver", "not-empty", "status-code", "each-key", "each-value",
    ] {
        assert_eq!(name(plain, &[]), plain);
    }
    for (rule_type, expected) in [
        ("real", "decimal"),
        ("timestamp", "datetime"),
        ("statusCode", "status-code"),
        ("notEmpty", "not-empty"),
        ("eachKey", "each-key"),
        ("eachValue", "each-value"),
    ] {
        assert_eq!(name(rule_type, &[]), expected);
    }
    assert_eq!(name("regex", &[("regex", text("a+"))]), "regex");
    assert_eq!(name("include", &[("value", text("a"))]), "include");
    assert_eq!(name("contentType", &[("value", text("text/plain"))]), "content-type");
    assert_eq!(name("arrayContains", &[("variants", json("[]"))]), "array-contains");
}

#[test]
fn rules_on_the_type_can_have_sizes() {
    assert_eq!(name("type", &[("min", json("1"))]), "min-type");
    assert_eq!(name("type", &[("max", json("1"))]), "max-type");
    assert_eq!(name("type", &[("min", json("1")), ("max", json("2"))]), "min-max-type");
    assert_eq!(name("type", &[("min", json("true"))]), "type");
    assert_eq!(name("min", &[("min", json("1"))]), "min-type");
    assert_eq!(name("max-type", &[("max", text("7"))]), "max-type");
}

#[test]
fn the_type_stands_in_the_place_of_an_attribute() {
    assert_eq!(name("number", &[("match", text("regex"))]), "number");
}

#[test]
fn what_cannot_be_built_is_refused() {
    assert_eq!(refusal("nothing", &[]), "nothing is not a valid matching rule type");
    assert_eq!(refusal("", &[]), " is not a valid matching rule type");
    assert_eq!(refusal("regex", &[]), "Regex matcher missing 'regex' field");
    assert_eq!(refusal("include", &[]), "Include matcher missing 'value' field");
    assert_eq!(refusal("content-type", &[]), "ContentType matcher missing 'value' field");
    assert_eq!(refusal("min", &[]), "Min matcher missing 'min' field");
    assert_eq!(refusal("max-type", &[]), "Max matcher missing 'max' field");
    assert_eq!(refusal("min-type", &[("min", json("null"))]), "Min matcher missing 'min' field");
    assert_eq!(refusal("arrayContains", &[]), "ArrayContains matcher missing 'variants' field");
    assert_eq!(
        refusal("statusCode", &[("status", text("fine"))]),
        "Unable to parse status code for StatusCode matcher"
    );
    assert!(Rule::new("eachKey", attributes(&[("rules", json("7"))])).is_err());
}

#[test]
fn rules_are_filed_behind_those_that_are_there() {
    let mut table: Table<RuleList> = Table::new();
    add_rule(&mut table, "data.*", Rule::new("type", Table::new()).unwrap());
    add_rule(&mut table, "id.*", Rule::new("number", Table::new()).unwrap());
    add_rule(&mut table, "data.*", Rule::new("boolean", Table::new()).unwrap());
    let names: Vec<String> = table.get("data.*").unwrap().rules.iter().map(|r| r.name()).collect();
    assert_eq!(names, vec!["type", "boolean"]);
    assert_eq!(table.get("id.*").unwrap().rules.len(), 1);
    assert!(table.get("retry").is_none());
}

#[test]
fn the_first_refused_rule_is_reported() {
    let rule = |t: &str| RequestedRule { rule_type: t.to_string(), values: Table::new() };
    let requested = vec![
        ("data.*".to_string(), vec![rule("type"), rule("first")]),
        ("id.*".to_string(), vec![rule("second")]),
    ];
    assert_eq!(
        build_rules(requested).unwrap_err(),
        RuleError::Refused("first is not a valid matching rule type".to_string())
    );
}

#[test]
fn the_later_value_under_a_text_counts() {
    let mut table: Table<String> = Table::new();
    table.insert("a".to_string(), "1".to_string());
    table.insert("b".to_string(), "2".to_string());
    table.insert("a".to_string(), "3".to_string());
    assert_eq!(table.get("a").unwrap(), "3");
    assert_eq!(table.get("b").unwrap(), "2");
    assert!(table.get("c").is_none());
    assert_eq!(table.entries.len(), 2);
}

fn matchable(rule_type: &str, values: &[(&str, Attribute)], actual: &str) -> bool {
    Rule::new(rule_type, attributes(values)).unwrap().can_match(actual)
}

#[test]
fn regular_expressions_must_not_go_back_too_often() {
    let bounded = |pattern: &str, n: usize| {
        matchable("regex", &[("regex", text(pattern))], &"x".repeat(n))
    };
    for pattern in [
        "", "^\\d{4}-\\d{2}-\\d{2}$", "[0-9a-f]{8}-[0-9a-f]{4}", "(true|false)", "(?:ab)*c+d?",
        "x+", ".*", "a{2,3}?", "a*?b++", "(ab{2})+", "[^a-z\\]]+", "\\(a\\)", "^x*$|^y$",
        "^[a-z]+(-[a-z]+)*$", "a(-a+)*", "(?:\\s\\w+)*", "(\\d{1,3}, )+", "([A-Za-z_0-9]*\\.)*x",
        "(a|b)?", "(a|b){3}", "(?=a)b", "[[:alpha:]]", "a(-a+){2}", "\\p{L}+", "\\x41",
        "a|b|c|d|e|f|g|h|i|j|k|l|m|n|o|p|q|r|s|t|u|v|w|x|y|z",
        "[0-9a-f]{8}-[0-9a-f]{4}-[0-9a-f]{4}-[0-9a-f]{4}-[0-9a-f]{12}",
    ] {
        assert!(bounded(pattern, 40), "{}", pattern);
    }
    for pattern in [
        "(x+x+)+y", "(a|b)*", "(a?){20}", "(?i)a", "a{2,3}+", "a*?+", "a+{2}", "a**", "\\g<1>",
        "(-[a-z-]+)*", "(_a+)*", "(-a+b+)*", "(-a+)*?", "(-.+)*", "([^a]+a)*", "(-\\W+)*",
        "(*FAIL)", "(a*)*", "(", "[", "\\", "*a", "a)", "[a", "|+",
    ] {
        assert!(!bounded(pattern, 40), "{}", pattern);
    }
    assert!(bounded("x*x*", 900));
    assert!(!bounded("x*x*", 1000));
    assert!(bounded("a{1,5}a{1,5}a{1,5}", 80));
    assert!(!bounded("a{1,99999}a{1,99999}", 1));
    let one_way = [("regex", json("17"))];
    assert!(matchable("regex", &one_way, "x"));
    assert!(!matchable("regex", &[("regex", json("\"(a*)*\""))], "x"));
}

#[test]
fn formats_must_not_ask_for_too_many_digits() {
    let format = |f: &str| [("format", text(f))];
    for rule_type in ["date", "time", "datetime", "timestamp"] {
        assert!(matchable(rule_type, &[], "99999-01-01"));
        assert!(matchable(rule_type, &format("yyyy-MM-dd"), "99999-01-01"));
        assert!(matchable(rule_type, &format("yyyyy-MM-dd"), "2024-01-01"));
        assert!(!matchable(rule_type, &format("yyyyy-MM-dd"), "99999-01-01"));
        assert!(matchable(rule_type, &format("yyyyy-MM-dd b"), "99999-01-01"));
        assert!(matchable(rule_type, &format("'yyyyy'"), "99999-01-01"));
        assert!(matchable(rule_type, &format(&"S".repeat(9)), "1"));
        assert!(!matchable(rule_type, &format(&"S".repeat(20)), "1"));
        assert!(!matchable(rule_type, &[(rule_type, text("uuuuu"))], "99999"));
    }
    assert!(matchable("number", &format("yyyyy"), "99999"));
}

#[test]
fn nested_paths_must_have_indexes_that_can_be_read() {
    let nested = |index: &str| {
        json(&format!("[{{\"index\":0,\"rules\":{{\"$[{}]\":{{}}}}}}]", index))
    };
    let built = |index: &str| {
        Rule::new("arrayContains", attributes(&[("variants", nested(index))])).map(|r| r.name())
    };
    for good in ["0", "17", "*", "'a'"] {
        assert_eq!(built(good), Ok("array-contains".to_string()), "{}", good);
    }
    for bad in ["99999999999999999999", "\u{bd}"] {
        assert_eq!(built(bad), Err(RuleError::Unreadable), "{}", bad);
    }
}

#[test]
fn rules_on_keys_and_values_report_alike_each_time() {
    let rule = Rule::new("eachKey", attributes(&[("rules", json("[{\"match\":\"type\"}]"))])).unwrap();
    let report = rule.failure("a", "b", &vec![]).unwrap();
    assert!(report.is_some());
    assert_eq!(report, rule.failure("a", "b", &vec![]).unwrap());
}
