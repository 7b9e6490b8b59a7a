pub mod text;
pub mod keyed;
pub mod float;
pub mod record;
pub mod value_order;
pub mod json_doc;
pub mod sink;
pub mod diagnostics;
pub mod exit_codes;
pub mod parser;
pub mod cli;
pub mod follow;
pub mod group;
pub mod laws;
pub mod output;
pub mod query;

pub use diagnostics::DiagnosticsSink;
pub use exit_codes::ExitCode;
pub use output::{ColorWriter, CountFormatter, Formatter, JsonFormatter, JsonLinesFormatter, TableFormatter};
pub use parser::{parse_auto, parse_json_line, parse_logfmt_line, sniff, Format};
pub use record::{Field, Record, RecordError, Value};
