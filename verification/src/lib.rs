//! Creating, matching and generating Server-Sent Events payloads for Pact.

pub mod definition;
pub mod formats;
pub mod generators;
pub mod generators_laws;
pub mod logging;
pub mod logging_laws;
pub mod parser;
pub mod parser_laws;
pub mod plugin;
pub mod plugin_laws;
pub mod regex;
pub mod rules;
pub mod rules_laws;
pub mod sse_content;
pub mod table;
pub mod text;
pub mod text_laws;
pub mod view_laws;
