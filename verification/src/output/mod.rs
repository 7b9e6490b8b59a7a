//! Writers for matched records: JSON objects, NDJSON, counts and tables.

pub mod color;
pub mod count;
pub mod json;
pub mod jsonl;
pub mod row;
pub mod table;

pub use color::ColorWriter;
pub use count::CountFormatter;
pub use json::JsonFormatter;
pub use jsonl::JsonLinesFormatter;
pub use table::TableFormatter;

use vstd::prelude::*;
use crate::record::Record;

verus! {

/// A destination for matched records.
pub trait Formatter {
    /// Takes one matched record.
    fn write(&mut self, r: &Record) -> Result<(), std::io::Error>;

    /// Writes whatever is still held back and flushes the underlying writer.
    fn flush(&mut self) -> Result<(), std::io::Error>;
}

} // verus!
