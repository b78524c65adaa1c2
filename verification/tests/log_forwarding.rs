use pact_sse_plugin::logging::{
    forwarded_level, is_transport_target, record_debug, record_str, startup_line, LogLevel,
};

#[test]
fn transport_targets_are_known_by_their_prefixes() {
    for target in ["h2::codec", "tower::buffer", "tonic::transport", "hyper_util::rt", "hyper::x"] {
        assert!(is_transport_target(target));
    }
    for target in ["", "h2", "h2:", "hyper", "pact_sse_plugin", "my::h2::codec", "towers::x"] {
        assert!(!is_transport_target(target));
    }
}

#[test]
fn events_are_forwarded_with_their_level() {
    assert_eq!(forwarded_level(LogLevel::Error, "a"), Some("ERROR"));
    assert_eq!(forwarded_level(LogLevel::Warn, "a"), Some("WARN"));
    assert_eq!(forwarded_level(LogLevel::Info, "a"), Some("INFO"));
    assert_eq!(forwarded_level(LogLevel::Debug, "a"), Some("DEBUG"));
    assert_eq!(forwarded_level(LogLevel::Trace, "a"), None);
    assert_eq!(forwarded_level(LogLevel::Error, "h2::codec"), None);
}

#[test]
fn the_first_text_is_the_message() {
    let mut message = String::new();
    record_str(&mut message, "message", "hello");
    record_str(&mut message, "host", "localhost");
    record_debug(&mut message, "port", "80");
    assert_eq!(message, "hello host=localhost  port=80 ");
}

#[test]
fn only_the_name_of_another_first_field_is_told() {
    let mut message = String::new();
    record_debug(&mut message, "message", "Init");
    record_debug(&mut message, "port", "80");
    assert_eq!(message, "message port=80 ");
}

#[test]
fn the_startup_line_tells_where_the_plugin_listens() {
    assert_eq!(startup_line(8080, "key"), "{\"port\":8080, \"serverKey\":\"key\"}");
    assert_eq!(startup_line(0, ""), "{\"port\":0, \"serverKey\":\"\"}");
}
