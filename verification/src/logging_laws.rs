//! What holds of forwarding log events whatever they tell.

use crate::logging::{forwarded, startup_text, with_field, LogLevel};
use crate::text::decimal;
use vstd::prelude::*;

verus! {

/// What the transport logs is never forwarded, traces are not either, and every other event is
/// forwarded with the name of its level.
pub proof fn law_all_but_transport_and_traces_is_forwarded(level: LogLevel, target: Seq<char>)
    ensures
        "h2::"@.is_prefix_of(target) || "tower::"@.is_prefix_of(target) || "tonic::"@.is_prefix_of(
            target,
        ) || "hyper_util::"@.is_prefix_of(target) || "hyper::"@.is_prefix_of(target) ==> forwarded(
            level,
            target,
        ) is None,
        !("h2::"@.is_prefix_of(target) || "tower::"@.is_prefix_of(target) || "tonic::"@.is_prefix_of(
            target,
        ) || "hyper_util::"@.is_prefix_of(target) || "hyper::"@.is_prefix_of(target)) ==> {
            &&& forwarded(LogLevel::Error, target) == Some("ERROR"@)
            &&& forwarded(LogLevel::Warn, target) == Some("WARN"@)
            &&& forwarded(LogLevel::Info, target) == Some("INFO"@)
            &&& forwarded(LogLevel::Debug, target) == Some("DEBUG"@)
            &&& forwarded(LogLevel::Trace, target) is None
        },
{
}

/// A further field stands behind the message with its name and its value, and a space around them.
pub proof fn law_fields_stand_behind_the_message(
    message: Seq<char>,
    name: Seq<char>,
    value: Seq<char>,
)
    ensures
        with_field(message, name, value) == message + " "@ + name + "="@ + value + " "@,
        message.is_prefix_of(with_field(message, name, value)),
{
    let all = with_field(message, name, value);
    assert(all.subrange(0, message.len() as int) =~= message);
}

/// The host is told the port in decimal and the key as it is.
pub proof fn law_the_host_is_told_port_and_key(port: nat, key: Seq<char>)
    ensures
        startup_text(port, key) == "{\"port\":"@ + decimal(port) + ", \"serverKey\":\""@ + key
            + "\"}"@,
{
}

} // verus!
