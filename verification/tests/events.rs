use pact_sse_plugin::sse_content::{format_sse_content, parse_sse_content, SseEvent};

fn text(s: &str) -> Option<String> {
    Some(s.to_string())
}

fn event(id: Option<&str>, event: Option<&str>, data: Option<&str>, retry: Option<&str>) -> SseEvent {
    SseEvent {
        id: id.map(str::to_string),
        event: event.map(str::to_string),
        data: data.map(str::to_string),
        retry: retry.map(str::to_string),
    }
}

#[test]
fn test_parse_single_event() {
    let input = "data: hello world\n\n";
    let events = SseEvent::parse(input);

    assert_eq!(events.len(), 1);
    assert_eq!(events[0].data, text("hello world"));
    assert_eq!(events[0].event, None);
    assert_eq!(events[0].id, None);
}

#[test]
fn test_parse_event_with_all_fields() {
    let input = "id: 123\nevent: message\nretry: 3000\ndata: hello\n\n";
    let events = SseEvent::parse(input);

    assert_eq!(events.len(), 1);
    assert_eq!(events[0].id, Some("123".to_string()));
    assert_eq!(events[0].event, Some("message".to_string()));
    assert_eq!(events[0].retry, Some(3000.to_string()));
    assert_eq!(events[0].data, text("hello"));
}

#[test]
fn test_parse_multiple_events() {
    let input = "data: event1\n\ndata: event2\n\ndata: event3\n\n";
    let events = SseEvent::parse(input);

    assert_eq!(events.len(), 3);
    assert_eq!(events[0].data, text("event1"));
    assert_eq!(events[1].data, text("event2"));
    assert_eq!(events[2].data, text("event3"));
}

#[test]
fn test_parse_multiline_data() {
    let input = "data: line1\ndata: line2\ndata: line3\n\n";
    let events = SseEvent::parse(input);

    assert_eq!(events.len(), 1);
    assert_eq!(events[0].data, text("line1\nline2\nline3"));
}

#[test]
fn test_parse_empty_data() {
    let input = "\n\n";
    let events = SseEvent::parse(input);

    assert_eq!(events.len(), 0);
}

#[test]
fn test_format_single_event() {
    let event = SseEvent {
        event: Some("message".to_string()),
        id: Some("123".to_string()),
        data: text("hello"),
        retry: Some(3000.to_string()),
    };

    let formatted = event.format();
    assert!(formatted.contains("id: 123"));
    assert!(formatted.contains("event: message"));
    assert!(formatted.contains("retry: 3000"));
    assert!(formatted.contains("data: hello"));
}

#[test]
fn test_parse_sse_content() {
    let content = b"data: test\n\n";
    let events = parse_sse_content(content).unwrap();

    assert_eq!(events.len(), 1);
    assert_eq!(events[0].data, text("test"));
}

#[test]
fn test_parse_invalid_utf8() {
    let content = b"\xff\xfe";
    let result = parse_sse_content(content);

    assert!(result.is_err());
}

#[test]
fn test_format_sse_content() {
    let events = vec![SseEvent {
        event: Some("message".to_string()),
        id: None,
        data: text("hello"),
        retry: None,
    }];

    let formatted = format_sse_content(&events);
    let formatted_str = String::from_utf8_lossy(&formatted);

    assert!(formatted_str.contains("event: message"));
    assert!(formatted_str.contains("data: hello"));
}

#[test]
fn invalid_utf8_is_reported_as_the_standard_library_does() {
    let content = b"data:\xff";
    let error = parse_sse_content(content).unwrap_err();
    assert_eq!(error, std::str::from_utf8(content).unwrap_err().to_string());
}

#[test]
fn the_documented_stream_is_read() {
    let content = "id:100\ndata:simple text\n\nevent:count\ndata:42\n\nevent:time\ndata:2024-01-15\n\n\
                   id:5d03dc45-96f6-4c0c-b1ad-aa67242058cc\nevent:user\ndata:user payload\n";
    assert_eq!(
        SseEvent::parse(content),
        vec![
            event(Some("100"), None, Some("simple text"), None),
            event(None, Some("count"), Some("42"), None),
            event(None, Some("time"), Some("2024-01-15"), None),
            event(
                Some("5d03dc45-96f6-4c0c-b1ad-aa67242058cc"),
                Some("user"),
                Some("user payload"),
                None
            ),
        ]
    );
}

#[test]
fn one_space_after_the_colon_is_no_part_of_the_value() {
    assert_eq!(SseEvent::parse("data:x"), SseEvent::parse("data: x"));
    assert_eq!(SseEvent::parse("data:  x")[0].data, text(" x"));
    assert_eq!(SseEvent::parse("data:")[0].data, text(""));
}

#[test]
fn comments_and_unknown_fields_are_ignored() {
    let events = SseEvent::parse(":comment\ndata:x\n:data:y\nunknown:z\nid\n\n");
    assert_eq!(events, vec![event(None, None, Some("x"), None)]);
}

#[test]
fn the_last_identifier_type_and_reconnection_time_count() {
    let events = SseEvent::parse("id:1\nid:2\nevent:a\nevent:b\nretry:3\nretry:4\n");
    assert_eq!(events, vec![event(Some("2"), Some("b"), None, Some("4"))]);
}

#[test]
fn line_endings_make_no_difference() {
    let events = SseEvent::parse("id:1\r\ndata:a\r\n\r\ndata:b\r\r\n\r\n");
    assert_eq!(events, SseEvent::parse("id:1\ndata:a\n\ndata:b\n\n"));
    assert_eq!(events[1].data, text("b"));
}

#[test]
fn a_blank_line_separates_events() {
    let mut events = SseEvent::parse("id:1");
    events.extend(SseEvent::parse("data:2"));
    assert_eq!(SseEvent::parse("id:1\n\ndata:2"), events);
}

#[test]
fn formatted_events_are_read_back() {
    let events = vec![
        event(Some("1"), Some(" count"), Some("a\n\nb"), Some("3000")),
        event(None, None, Some(""), None),
        event(Some(""), None, None, None),
        event(None, None, Some("\u{e9} \u{1f600}"), None),
    ];
    assert_eq!(parse_sse_content(&format_sse_content(&events)).unwrap(), events);
    assert_eq!(
        events[0].format(),
        "id: 1\nretry: 3000\nevent:  count\ndata: a\ndata: \ndata: b\n\n"
    );
}

#[test]
fn nothing_is_read_of_an_event_without_fields() {
    let none = SseEvent::empty();
    assert!(none.is_empty());
    assert_eq!(none.format(), "\n");
    assert_eq!(SseEvent::parse(&none.format()), vec![]);
}

#[test]
fn sse_strings_are_read_back() {
    let e = event(Some("7"), Some("count"), Some("42"), Some("10"));
    assert_eq!(e.to_sse_string(), "id:7\nretry:10\nevent:count\ndata:42\n\n");
    assert_eq!(SseEvent::parse(&e.to_sse_string()), vec![e]);
}

#[test]
fn reading_is_stable() {
    let content = "junk\nid: 1\ndata: a\ndata:  b\r\n\n\n:x\n\nevent:t\nretry: \n";
    let events = SseEvent::parse(content);
    assert_eq!(parse_sse_content(&format_sse_content(&events)).unwrap(), events);
    assert!(events.iter().all(|e| !e.is_empty()));
}
