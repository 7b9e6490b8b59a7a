//! Matched records as NDJSON, flushed after every line so that consumers
//! such as `tail -f` see each record at once.

use vstd::prelude::*;
use crate::json_doc::{json_compact_text, json_view};
use crate::output::json::{record_json, record_json_map, object_text, json_members_of, record_line_events};
use crate::keyed::lemma_sorted_listing;
use crate::record::Record;
use crate::sink::{LoggedWriter, WriteEvent, wrote, lemma_prefix_of_extension};

verus! {

/// What writing one record asks of the writer: its JSON text, a newline,
/// then a flush.
pub open spec fn flushed_line_events(t: Seq<char>) -> Seq<WriteEvent> {
    record_line_events(t).push(WriteEvent::Flush)
}

/// Writes one compact JSON object per line and flushes after each.
pub struct JsonLinesFormatter<W> {
    writer: LoggedWriter<W>,
    attach_raw_footer: bool,
}

impl<W: std::io::Write> JsonLinesFormatter<W> {
    /// What was asked of the writer so far.
    pub closed spec fn events(&self) -> Seq<WriteEvent> {
        self.writer.events()
    }

    /// Whether each object carries the raw input line as `_raw`.
    pub closed spec fn attaches_raw(&self) -> bool {
        self.attach_raw_footer
    }

    /// Objects carry `_raw`.
    pub fn new(w: W) -> (r: Self)
        ensures
            r.events() == Seq::<WriteEvent>::empty(),
            r.attaches_raw(),
    {
        JsonLinesFormatter { writer: LoggedWriter::new(w), attach_raw_footer: true }
    }

    /// Objects hold the fields only.
    pub fn without_raw_footer(writer: W) -> (r: Self)
        ensures
            r.events() == Seq::<WriteEvent>::empty(),
            !r.attaches_raw(),
    {
        JsonLinesFormatter { writer: LoggedWriter::new(writer), attach_raw_footer: false }
    }

    /// Writes the record's JSON object and a newline, then flushes.
    pub fn write(&mut self, r: &Record) -> (res: Result<(), std::io::Error>)
        ensures
            final(self).attaches_raw() == old(self).attaches_raw(),
            wrote(
                old(self).events(),
                final(self).events(),
                flushed_line_events(
                    object_text(record_json_map(r.view(), r.raw_view(), old(self).attaches_raw())),
                ),
                res is Ok,
            ),
    {
        let ghost start = self.writer.events();
        let v = record_json(r, self.attach_raw_footer);
        let text = json_compact_text(&v);
        let ghost planned = flushed_line_events(text@);
        proof {
            lemma_sorted_listing(json_members_of(json_view(v)));
            assert(text@ == object_text(record_json_map(r.view(), r.raw_view(), self.attach_raw_footer)));
        }
        let w = self.writer.write_str(text.as_str());
        if w.is_err() {
            proof {
                lemma_prefix_of_extension(start, planned, 1);
                assert(start + planned.take(1) =~= self.writer.events());
            }
            return w;
        }
        let n = self.writer.write_str("\n");
        if n.is_err() {
            proof {
                lemma_prefix_of_extension(start, planned, 2);
                assert(start + planned.take(2) =~= self.writer.events());
            }
            return n;
        }
        let f = self.writer.flush();
        proof {
            lemma_prefix_of_extension(start, planned, 3);
            assert(planned.take(3) =~= planned);
            assert(start + planned =~= self.writer.events());
        }
        f
    }

    /// Flushes the writer.
    pub fn flush(&mut self) -> (res: Result<(), std::io::Error>)
        ensures
            final(self).attaches_raw() == old(self).attaches_raw(),
            final(self).events() == old(self).events().push(WriteEvent::Flush),
    {
        self.writer.flush()
    }
}

} // verus!
