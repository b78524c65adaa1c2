use pact_sse_plugin::definition::Config;
use pact_sse_plugin::generators::can_draw;
use pact_sse_plugin::plugin::SsePactPlugin;
use pact_sse_plugin::rules::Attribute;
use pact_sse_plugin::sse_content::generate::{
    build_generators, with_drawn, write_events, GenerationStop, OpenDraw, RequestedGenerator, Told,
};
use pact_sse_plugin::sse_content::{generate_sse_content, SseEvent};
use pact_sse_plugin::table::Table;

fn json(s: &str) -> Attribute {
    Attribute::Json(s.to_string())
}

fn attributes(values: &[(&str, Attribute)]) -> Table<Attribute> {
    let mut table = Table::new();
    for (k, v) in values {
        table.insert(k.to_string(), v.clone());
    }
    table
}

fn generator(key: &str, generator_type: &str, values: &[(&str, Attribute)]) -> RequestedGenerator {
    RequestedGenerator {
        key: key.to_string(),
        generator_type: generator_type.to_string(),
        values: Some(attributes(values)),
    }
}

fn reason(stop: GenerationStop) -> String {
    match stop {
        GenerationStop::Refused(text) => text,
        GenerationStop::Open(draws) => panic!("{} open draws", draws.len()),
    }
}

fn generated(generators: Vec<RequestedGenerator>, content: &str) -> Result<String, String> {
    generate_sse_content(generators, &Some(content.as_bytes().to_vec()), &vec![])
        .map(|g| String::from_utf8(g.content).unwrap())
        .map_err(reason)
}

#[test]
fn fields_are_written_in_their_order() {
    assert_eq!(
        generated(vec![], "id:1\nevent:t\ndata:x\ndata:y\nretry:5\n\ndata: z").unwrap(),
        "retry:5\nevent:t\ndata:x\ndata:y\nid:1\n\ndata:z\n\n"
    );
    assert_eq!(generated(vec![], "").unwrap(), "");
}

#[test]
fn generating_keeps_the_events() {
    for content in ["data:  two\n\nid: 1\ndata:\ndata: \r\n\n", "retry:\nevent:  x\n", ":\n\n"] {
        assert_eq!(
            SseEvent::parse(&generated(vec![], content).unwrap()),
            SseEvent::parse(content)
        );
    }
    assert_eq!(generated(vec![], "data:  x").unwrap(), "data:  x\n\n");
}

#[test]
fn reconnection_times_are_drawn() {
    let range = [("min", json("-3")), ("max", json("-2"))];
    for _ in 0..20 {
        let output =
            generated(vec![generator("retry", "RandomInt", &range)], "retry:9\ndata:x\n").unwrap();
        assert!(output == "retry:-3\ndata:x\n\n" || output == "retry:-2\ndata:x\n\n");
    }
    let output = generated(vec![generator("retry", "RandomBoolean", &[])], "retry:9\n").unwrap();
    assert!(output == "retry:true\n\n" || output == "retry:false\n\n");
    let regex = [("regex", Attribute::Text("a{3}".to_string()))];
    let output = generated(vec![generator("retry", "Regex", &regex)], "retry:9\n").unwrap();
    assert_eq!(output, "retry:aaa\n\n");
}

#[test]
fn the_first_generator_that_cannot_be_had_is_reported() {
    assert_eq!(
        generated(vec![generator("retry", "Nothing", &[]), generator("[", "", &[])], "").unwrap_err(),
        "Failed to build generator of type Nothing"
    );
    assert_eq!(
        generated(vec![generator("[", "Nothing", &[])], "").unwrap_err(),
        "Expected field name in '['"
    );
    let mut valueless = generator("retry", "Uuid", &[]);
    valueless.values = None;
    assert_eq!(generated(vec![valueless], "").unwrap_err(), "Generator values were expected");
    assert!(build_generators(vec![generator("retry", "Regex", &[])]).is_err());
    assert!(build_generators(vec![generator("retry", "ProviderState", &[])]).is_err());
    for known in [
        "RandomInt", "Uuid", "RandomDecimal", "RandomHexadecimal", "RandomString", "Date", "Time",
        "DateTime", "RandomBoolean", "MockServerURL",
    ] {
        assert!(build_generators(vec![generator("retry", known, &[])]).is_ok());
    }
}

#[test]
fn generators_come_before_the_content() {
    assert_eq!(
        generate_sse_content(vec![generator("retry", "Nothing", &[])], &None, &vec![])
            .map_err(reason)
            .unwrap_err(),
        "Failed to build generator of type Nothing"
    );
}

#[test]
fn content_must_be_text() {
    let bytes = b"\xffdata".to_vec();
    let why = std::str::from_utf8(&bytes).unwrap_err().to_string();
    assert_eq!(
        generate_sse_content(vec![], &Some(bytes.clone()), &vec![]).map_err(reason).unwrap_err(),
        why
    );
    assert_eq!(
        SsePactPlugin::default()
            .generate_content(vec![], &Some(bytes), &vec![])
            .map_err(reason)
            .unwrap_err(),
        format!("Failed to generate SSE contents: {}", why)
    );
}

#[test]
fn a_value_that_cannot_be_drawn_is_reported() {
    assert_eq!(
        generated(vec![generator("retry", "MockServerURL", &[])], "retry:1").unwrap_err(),
        "MockServerURL: can not generate a value as there is no mock server details in the test \
         context"
    );
    assert!(generated(vec![generator("retry", "MockServerURL", &[])], "data:1").is_ok());
}

#[test]
fn the_plugin_answers_with_the_generated_stream() {
    let generated = SsePactPlugin::default()
        .generate_content(vec![], &Some(b"data:x".to_vec()), &vec![])
        .unwrap();
    assert_eq!(generated.content_type, "text/event-stream");
    assert_eq!(generated.content, b"data:x\n\n");
    assert_eq!(generated.events.len(), 1);
    assert_eq!(generated.events[0].event.data, Some("x".to_string()));
    assert!(generated.events[0].data.is_none());
}

#[test]
fn there_must_be_an_integer_to_draw() {
    let range = |values: &[(&str, Attribute)]| {
        can_draw(&Config { name: "RandomInt".to_string(), values: attributes(values) })
    };
    assert!(range(&[]));
    assert!(range(&[("min", json("10"))]));
    assert!(!range(&[("min", json("11"))]));
    assert!(range(&[("min", json("11.0"))]));
    assert!(range(&[("min", json("011"))]));
    assert!(range(&[("min", json("-0"))]));
    assert!(range(&[("min", Attribute::Text("11".to_string()))]));
    assert!(!range(&[("max", json("-1"))]));
    assert!(range(&[("max", json("4294967296"))]));
    assert!(!range(&[("max", json("4294967295"))]));
    assert!(range(&[("max", json("9223372036854775808"))]));
    assert!(!range(&[("max", json("9223372036854775807"))]));
    assert!(range(&[("min", json("2147483646")), ("max", json("2147483647"))]));
    assert!(!range(&[("min", json("2147483647")), ("max", json("2147483647"))]));
    assert!(!range(&[("min", json(" 1"))]));
    let empty = [("min", json("11"))];
    let request = || vec![generator("retry", "RandomInt", &empty)];
    let nothing = vec![];
    assert_eq!(
        generate_sse_content(request(), &Some(b"retry:1".to_vec()), &nothing).unwrap_err(),
        GenerationStop::Open(vec![OpenDraw {
            event: 0,
            field: "retry".to_string(),
            generator: Config { name: "RandomInt".to_string(), values: attributes(&empty) },
        }])
    );
    assert!(generate_sse_content(request(), &Some(b"data:1".to_vec()), &nothing).is_ok());
}

#[test]
fn values_that_begin_with_a_space_get_one_more() {
    let mut e = SseEvent::empty();
    e.data = Some(" a\nb\n c".to_string());
    e.id = Some(" 1".to_string());
    let written = write_events(&vec![e.clone()]);
    assert_eq!(written, "data:  a\ndata:b\ndata:  c\nid:  1\n\n");
    assert_eq!(SseEvent::parse(&written), vec![e]);
}

#[test]
fn formats_must_be_writable() {
    let writable = |name: &str, format: &str| {
        let values = attributes(&[("format", Attribute::Text(format.to_string()))]);
        can_draw(&Config { name: name.to_string(), values })
    };
    assert!(writable("Date", "yyyy-MM-dd"));
    assert!(writable("Date", "yyyy 'hour' dd''Z"));
    assert!(!writable("Date", "yyyy-MM-dd HH"));
    assert!(!writable("Date", "''a"));
    assert!(writable("Time", "HH:mm:ss.SSS a"));
    assert!(writable("DateTime", "yyyy-MM-dd'T'HH:mm:ss.SSSSSSXXX"));
    assert!(!writable("DateTime", "ss.SSSS"));
    assert!(writable("DateTime", "'SSSS'SS"));
    assert!(writable("Regex", "HH SSSS"));
    assert!(writable("Date", "H b"));
    assert!(writable("Date", "HHH"));
    assert!(writable("Date", "HH 'open"));
    assert!(writable("DateTime", ""));
    for refused in ["H b", "HHH", "HH 'open", ""] {
        let values = [("format", Attribute::Text(refused.to_string()))];
        let failed = generated(vec![generator("retry", "Date", &values)], "retry:1").unwrap_err();
        assert!(failed.starts_with(&format!("Date format {} is not valid", refused)));
    }
    for (name, format, length) in [
        ("Date", "yyyy 'hour' dd''Z", 18),
        ("Time", "HH:mm:ss.SSS", 12),
        ("DateTime", "yyyy-MM-dd HH:mm:ss.SSSSSS 'SSSS'", 31),
    ] {
        let values = [("format", Attribute::Text(format.to_string()))];
        let drawn = generated(vec![generator("retry", name, &values)], "retry:1").unwrap();
        assert_eq!(drawn.len(), "retry:\n\n".len() + length);
    }
    let json_text = attributes(&[("format", json("\"HH\""))]);
    assert!(!can_draw(&Config { name: "Date".to_string(), values: json_text }));
    let number = attributes(&[("format", json("7"))]);
    assert!(can_draw(&Config { name: "Date".to_string(), values: number }));
    assert!(generated(vec![generator("retry", "Date", &[("format", json("7"))])], "retry:1").is_err());
}

fn drawn(generator_type: &str, values: &[(&str, Attribute)]) -> String {
    let output = generated(vec![generator("retry", generator_type, values)], "retry:9").unwrap();
    output.strip_prefix("retry:").unwrap().strip_suffix("\n\n").unwrap().to_string()
}

fn hyphenated(s: &str, digit: fn(char) -> bool) -> bool {
    s.len() == 36
        && s.chars().enumerate().all(|(i, c)| match i {
            8 | 13 | 18 | 23 => c == '-',
            _ => digit(c),
        })
}

#[test]
fn drawn_values_have_the_form_that_is_asked_for() {
    let lower = |c: char| matches!(c, '0'..='9' | 'a'..='f');
    let upper = |c: char| matches!(c, '0'..='9' | 'A'..='F');
    let format = |s: &str| [("format", Attribute::Text(s.to_string()))];
    assert!(hyphenated(&drawn("Uuid", &[]), lower));
    assert!(hyphenated(&drawn("Uuid", &format("other")), lower));
    assert!(hyphenated(&drawn("Uuid", &format("upper-case-hyphenated")), upper));
    let simple = drawn("Uuid", &format("simple"));
    assert!(simple.len() == 32 && simple.chars().all(lower));
    let urn = drawn("Uuid", &format("URN"));
    assert!(hyphenated(urn.strip_prefix("urn:uuid:").unwrap(), lower));
    assert_eq!(drawn("RandomString", &[]).len(), 10);
    let text = drawn("RandomString", &[("size", json("3"))]);
    assert!(text.len() == 3 && text.chars().all(|c| c.is_ascii_alphanumeric()));
    assert_eq!(drawn("RandomString", &[("size", json("65537"))]).len(), 1);
    assert_eq!(drawn("RandomHexadecimal", &[]).len(), 10);
    let digits = drawn("RandomHexadecimal", &[("digits", json("20"))]);
    assert!(digits.len() == 16 && digits.chars().all(upper));
    assert_eq!(drawn("RandomDecimal", &[("digits", json("0"))]), "");
    assert_eq!(drawn("RandomDecimal", &[("digits", json("1"))]).len(), 1);
    for digits in 2..8 {
        let number = drawn("RandomDecimal", &[("digits", json(&digits.to_string()))]);
        assert_eq!(number.len(), digits + 1);
        let dot = number.find('.').unwrap();
        assert!(0 < dot && dot < digits);
        assert!(number.chars().enumerate().all(|(i, c)| i == dot || c.is_ascii_digit()));
    }
}

#[test]
fn the_drawn_values_are_those_of_the_stream() {
    let regex = [("regex", Attribute::Text("[a-z]{9}".to_string()))];
    let request = vec![generator("retry", "Regex", &regex)];
    let content = Some(b"retry:1\ndata:x\n\ndata:y\n\nretry:2\n".to_vec());
    let g = generate_sse_content(request, &content, &vec![]).unwrap();
    assert_eq!(g.events.len(), 3);
    assert!(g.events[1].retry.is_none());
    let mut expected = String::new();
    for (event, data) in g.events.iter().zip(["data:x\n", "data:y\n", ""]) {
        if let Some(drawn) = &event.retry {
            assert_eq!(event.event.retry, Some(drawn.text()));
            assert_eq!(drawn.text().len(), 9);
            expected.push_str(&format!("retry:{}\n", drawn.text()));
        }
        expected.push_str(&format!("{}\n", data));
    }
    assert_eq!(String::from_utf8(g.content).unwrap(), expected);
}

#[test]
fn fields_with_a_generator_get_what_was_drawn_for_them() {
    let text = |s: &str| Some(s.to_string());
    let e = &SseEvent::parse("retry:1\nevent:t\ndata:x\nid:7\n")[0];
    let table = build_generators(vec![generator("retry", "Uuid", &[])]).unwrap();
    let after = with_drawn(&table, e, text("a"), text("b"), text("c"));
    assert_eq!(after.retry, text("a"));
    assert_eq!(after.event, text("t"));
    assert_eq!(after.data, text("x"));
    assert_eq!(after.id, text("7"));
    assert_eq!(with_drawn(&table, e, None, None, None), *e);
    let none = build_generators(vec![]).unwrap();
    assert_eq!(with_drawn(&none, e, text("a"), text("b"), text("c")), *e);
    let silent = &SseEvent::parse("data:x\n")[0];
    assert_eq!(with_drawn(&table, silent, text("a"), None, None), *silent);
}

#[test]
fn expressions_must_stay_in_the_calendar() {
    let stays = |name: &str, expression: &str| {
        let values = attributes(&[("expression", Attribute::Text(expression.to_string()))]);
        can_draw(&Config { name: name.to_string(), values })
    };
    for good in [
        "", "now", "next week", "+ 1 day", "+ 80000000 days", "- 240000 years", "+ 1 week @ + 1 hour",
        "+ 100000000 bananas", "100000000 days", "+ 99999999999999 days",
        "+ 99999999999999999999999 years", "@ + 2000000000 hours", "+ 2 o'clock",
        "+ 300000 years", "+ 4294967297 years", "+ 18446744073709551615 days",
    ] {
        assert!(stays("DateTime", good), "{}", good);
    }
    for bad in [
        "+ 100000000 days", "-100000000day", "+ 3000000 months", "+ 250000 years",
        "+ 50000000 days - 50000000 days", "@ + 3000000000 hours", "+ 2147483647 years",
        "+ 18446744073609551616 days", "+ 9223372036854775809 milliseconds",
        "+ 9223372036854775808 months",
    ] {
        assert!(!stays("Date", bad), "{}", bad);
        assert!(stays("Uuid", bad));
    }
    for good in [
        "+ 80000000 days", "- 80000000 days", "+ 240000 years", "+ 100000000 bananas",
        "+ 300000 years", "+ 4294967297 years", "+ 18446744073709551615 days",
    ] {
        let values = [("expression", Attribute::Text(good.to_string()))];
        let _ = generated(vec![generator("retry", "Date", &values)], "retry:1");
    }
    let years = [("expression", Attribute::Text("+ 300000 years".to_string()))];
    let today = generated(vec![generator("retry", "Date", &[])], "retry:1").unwrap();
    assert_eq!(generated(vec![generator("retry", "Date", &years)], "retry:1").unwrap(), today);
    let far = [("expression", Attribute::Text("+ 100000000 days".to_string()))];
    let request = vec![generator("retry", "Date", &far)];
    assert!(matches!(
        generate_sse_content(request, &Some(b"retry:1".to_vec()), &vec![]),
        Err(GenerationStop::Open(_))
    ));
}

#[test]
fn lookups_must_be_opened_before_they_are_closed() {
    let expression = |s: &str| [("expression", Attribute::Text(s.to_string()))];
    let readable = |s: &str| {
        can_draw(&Config {
            name: "ProviderState".to_string(),
            values: attributes(&expression(s)),
        })
    };
    for good in ["", "a", "}", "${a}", "${a", "a${b}}", "${}", "x${}y${}", "${}${a}", "a}"] {
        assert!(readable(good), "{}", good);
        let _ = generated(vec![generator("retry", "ProviderState", &expression(good))], "retry:1");
    }
    for bad in ["}${a}", "a}${", "${}}${a}"] {
        assert!(!readable(bad), "{}", bad);
    }
    assert_eq!(drawn("ProviderState", &expression("x${}y${}z")), "xyz");
    let failed = |s: &str| {
        generated(vec![generator("retry", "ProviderState", &expression(s))], "retry:1").unwrap_err()
    };
    assert_eq!(failed("a"), "Value 'a' was not found in the provided context");
    assert_eq!(failed("${a}"), "No value for 'a' found");
    assert_eq!(failed("${a"), "Missing closing brace in expression string '${a'");
    let typed = |s: &str, data_type: &str| {
        let data_type = Attribute::Text(data_type.to_string());
        [("expression", Attribute::Text(s.to_string())), ("dataType", data_type)]
    };
    for (s, data_type) in [
        ("${}", "INTEGER"), ("1.5${}", "integer"), ("x${}", "Decimal"), ("${}", "FLOAT"),
        ("${}yes", "boolean"), ("9223372036854775808${}", "INTEGER"),
    ] {
        let values = attributes(&typed(s, data_type));
        assert!(!can_draw(&Config { name: "ProviderState".to_string(), values }), "{}", s);
    }
    for (s, data_type, value) in [
        ("a${}b", "STRING", "ab"), ("${}a", "raw", "a"), ("a${}", "other", "a"),
        ("-${}7", "INTEGER", "-7"), ("4${}2", "integer", "42"), ("+${}1", "INTEGER", "1"),
        ("${}12", "decimal", "12"), ("3${}", "FLOAT", "3"), ("-${}0", "INTEGER", "0"),
        ("007${}", "DECIMAL", "7"), ("tr${}ue", "Boolean", "true"),
        ("-9223372036854775808${}", "INTEGER", "-9223372036854775808"),
    ] {
        assert_eq!(drawn("ProviderState", &typed(s, data_type)), value);
    }
}

#[test]
fn regular_expressions_must_not_repeat_too_often() {
    let short = |pattern: &str| {
        let values = attributes(&[("regex", Attribute::Text(pattern.to_string()))]);
        can_draw(&Config { name: "Regex".to_string(), values })
    };
    for good in [
        "", "a{3}", "[a-z]+@[a-z]+\\.[a-z]{2,4}", "(ab){1000}{100}", "a{1000000}", "(a|b)*?",
        "[0-9a-f]{8}-[0-9a-f]{4}-[0-9a-f]{4}-[0-9a-f]{4}-[0-9a-f]{12}", "(?:x)+", "(?i)x\\(?x",
        "(?<x>a)", "\\d+,\\d+,\\d+,\\d+,\\d+,\\d+,\\d+,\\d+,\\d+,\\d+",
    ] {
        assert!(short(good), "{}", good);
    }
    for bad in [
        "((a|b){4000000000}){4000000000}", "a{4294967290,}", "a{10000000}", "a{2000000000}",
        "((a{1000}){1000}){1000}", "a{1000}{1000}{1000}", "(?x)a {1 0 0 0}", "(?i-x:a)",
    ] {
        assert!(!short(bad), "{}", bad);
    }
    let number = attributes(&[("regex", json("17"))]);
    assert!(can_draw(&Config { name: "Regex".to_string(), values: number }));
    assert_eq!(drawn("Regex", &[("regex", json("17"))]), "17");
    let regex = |s: &str| [("regex", Attribute::Text(s.to_string()))];
    assert_eq!(drawn("Regex", &regex("(ab){2}{3}")), "abababababab");
    assert_eq!(drawn("Regex", &regex("(a{2}){3}b")), "aaaaaab");
    assert_eq!(drawn("Regex", &regex("a{1000}")).len(), 1000);
}

#[test]
fn draws_that_are_not_certain_to_end_are_told() {
    let text = |s: &str| Some(Ok(s.to_string()));
    let decimal = [
        ("expression", Attribute::Text("1.5${}".to_string())),
        ("dataType", Attribute::Text("DECIMAL".to_string())),
    ];
    let request = || vec![generator("retry", "ProviderState", &decimal)];
    let content = Some(b"retry:1\ndata:x\n\ndata:y\n\nretry:2\n".to_vec());
    let open = |event: usize| OpenDraw {
        event,
        field: "retry".to_string(),
        generator: Config { name: "ProviderState".to_string(), values: attributes(&decimal) },
    };
    let told = |retry: Option<Result<String, String>>| Told { retry, data: None, id: None };
    assert_eq!(
        generate_sse_content(request(), &content, &vec![]).unwrap_err(),
        GenerationStop::Open(vec![open(0), open(2)])
    );
    assert_eq!(
        generate_sse_content(request(), &content, &vec![told(text("1.5"))]).unwrap_err(),
        GenerationStop::Open(vec![open(2)])
    );
    let both = vec![told(text("1.5")), told(text("ignored")), told(text("2.5"))];
    let g = generate_sse_content(request(), &content, &both).unwrap();
    assert_eq!(g.content, b"retry:1.5\ndata:x\n\ndata:y\n\nretry:2.5\n\n");
    assert_eq!(g.events[2].retry.as_ref().unwrap().text(), "2.5");
    assert!(g.events[1].retry.is_none());
    let failed = vec![told(text("1")), told(None), told(Some(Err("nothing".to_string())))];
    assert_eq!(
        SsePactPlugin::default().generate_content(request(), &content, &failed).unwrap_err(),
        GenerationStop::Refused("Failed to generate SSE contents: nothing".to_string())
    );
}

#[test]
fn what_is_told_of_certain_draws_makes_no_difference() {
    let told = vec![Told { retry: Some(Ok("x".to_string())), data: Some(Err("y".to_string())), id: None }];
    let three = [("regex", Attribute::Text("a{3}".to_string()))];
    let request = vec![generator("retry", "Regex", &three)];
    let content = Some(b"retry:1\ndata:d\n".to_vec());
    let g = generate_sse_content(request, &content, &told).unwrap();
    assert_eq!(g.content, b"retry:aaa\ndata:d\n\n");
}

#[test]
fn a_retry_generator_changes_nothing_else() {
    let content = "id:1\nevent:t\ndata:x\nretry:9\n\ndata:y\n\n";
    let seven = [("min", json("7")), ("max", json("7"))];
    let output = generated(vec![generator("retry", "RandomInt", &seven)], content).unwrap();
    let mut expected = SseEvent::parse(content);
    expected[0].retry = Some("7".to_string());
    assert_eq!(SseEvent::parse(&output), expected);
}
