//! Line parsers: logfmt, JSON lines, format detection and per-line wrappers.

pub mod detect;
pub mod json;
pub mod logfmt;
pub mod resilience;

pub use detect::{parse_auto, sniff, Format};
pub use json::parse_json_line;
pub use logfmt::parse_logfmt_line;
