//! Which log events are forwarded to the host of the plugin, and what is told of them.

use crate::text::{decimal, decimal_text, has_prefix, to_chars};
use vstd::prelude::*;

verus! {

/// Whether a logger belongs to the internals of the gRPC transport. What these log is not
/// forwarded.
pub open spec fn is_transport(target: Seq<char>) -> bool {
    ||| "h2::"@.is_prefix_of(target)
    ||| "tower::"@.is_prefix_of(target)
    ||| "tonic::"@.is_prefix_of(target)
    ||| "hyper_util::"@.is_prefix_of(target)
    ||| "hyper::"@.is_prefix_of(target)
}

/// Whether a logger belongs to the internals of the gRPC transport.
pub fn is_transport_target(target: &str) -> (b: bool)
    ensures
        b == is_transport(target@),
{
    let chars = to_chars(target);
    let v = chars.as_slice();
    has_prefix(v, "h2::") || has_prefix(v, "tower::") || has_prefix(v, "tonic::") || has_prefix(
        v,
        "hyper_util::",
    ) || has_prefix(v, "hyper::")
}

/// The level of a log event.
#[derive(Debug, Clone, Copy, PartialEq, Eq, Structural)]
pub enum LogLevel {
    Error,
    Warn,
    Info,
    Debug,
    Trace,
}

/// The level that a log event is forwarded with; none for one that is not forwarded.
pub open spec fn forwarded(level: LogLevel, target: Seq<char>) -> Option<Seq<char>> {
    if is_transport(target) {
        None
    } else {
        match level {
            LogLevel::Error => Some("ERROR"@),
            LogLevel::Warn => Some("WARN"@),
            LogLevel::Info => Some("INFO"@),
            LogLevel::Debug => Some("DEBUG"@),
            LogLevel::Trace => None,
        }
    }
}

/// The level to forward a log event with, if it is forwarded.
pub fn forwarded_level(level: LogLevel, target: &str) -> (r: Option<&'static str>)
    ensures
        match r {
            Some(text) => forwarded(level, target@) == Some(text@),
            None => forwarded(level, target@) is None,
        },
{
    if is_transport_target(target) {
        return None;
    }
    match level {
        LogLevel::Error => Some("ERROR"),
        LogLevel::Warn => Some("WARN"),
        LogLevel::Info => Some("INFO"),
        LogLevel::Debug => Some("DEBUG"),
        LogLevel::Trace => None,
    }
}

/// A message with one more field of the log event, which stands behind what there is.
pub open spec fn with_field(message: Seq<char>, name: Seq<char>, value: Seq<char>) -> Seq<char> {
    message + " "@ + name + "="@ + value + " "@
}

fn add_field(message: &mut String, name: &str, value: &str)
    ensures
        final(message)@ == with_field(old(message)@, name@, value@),
{
    message.append(" ");
    message.append(name);
    message.append("=");
    message.append(value);
    message.append(" ");
}

/// Takes a text field of a log event into the message: the first is the message itself.
pub fn record_str(message: &mut String, name: &str, value: &str)
    ensures
        final(message)@ == (if old(message)@.len() == 0 {
            value@
        } else {
            with_field(old(message)@, name@, value@)
        }),
{
    if message.as_str().is_empty() {
        *message = value.to_owned();
    } else {
        add_field(message, name, value);
    }
}

/// Takes any other field of a log event into the message. Of the first, only the name is told.
pub fn record_debug(message: &mut String, name: &str, value: &str)
    ensures
        final(message)@ == (if old(message)@.len() == 0 {
            name@
        } else {
            with_field(old(message)@, name@, value@)
        }),
{
    if message.as_str().is_empty() {
        *message = name.to_owned();
    } else {
        add_field(message, name, value);
    }
}

/// The line that tells the host where the plugin listens.
pub open spec fn startup_text(port: nat, server_key: Seq<char>) -> Seq<char> {
    "{\"port\":"@ + decimal(port) + ", \"serverKey\":\""@ + server_key + "\"}"@
}

/// The line that tells the host where the plugin listens.
pub fn startup_line(port: u16, server_key: &str) -> (line: String)
    ensures
        line@ == startup_text(port as nat, server_key@),
{
    let mut line = "{\"port\":".to_owned();
    line.append(&decimal_text(port as usize));
    line.append(", \"serverKey\":\"");
    line.append(server_key);
    line.append("\"}");
    line
}

} // verus!
