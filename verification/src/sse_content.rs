//! Event streams: reading and writing them, setting them up from matching rule definitions,
//! comparing them and generating them.

pub mod compare;
pub mod compare_laws;
pub mod event;
pub mod event_laws;
pub mod generate;
pub mod generate_laws;
pub mod mismatch_laws;
pub mod reading_laws;
pub mod setup;
pub mod setup_laws;

pub use compare::{compare_sse_contents, compare_sse_events};
pub use event::{format_sse_content, parse_sse_content, SseEvent};
pub use generate::generate_sse_content;
pub use setup::setup_sse_contents;
