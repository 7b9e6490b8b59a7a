//! Per-line warnings and errors on a writer (normally standard error), with
//! a closing tally.

use vstd::prelude::*;
use crate::sink::{LoggedWriter, WriteEvent, prefix_of, lemma_prefix_of_extension};
use crate::text::{nat_text, u64_text, push_str};

verus! {

/// `tracegrep: warning: line <n>: <reason>` and a newline.
pub open spec fn skip_line_text(line_num: u64, reason: Seq<char>) -> Seq<char> {
    "tracegrep: warning: line "@ + nat_text(line_num as nat) + ": "@ + reason + "\n"@
}

/// `tracegrep: error: line <n>: <err>` and a newline.
pub open spec fn error_line_text(line_num: u64, err: Seq<char>) -> Seq<char> {
    "tracegrep: error: line "@ + nat_text(line_num as nat) + ": "@ + err + "\n"@
}

/// The tally of skipped lines.
pub open spec fn skipped_tally_text(n: u64) -> Seq<char> {
    "tracegrep: "@ + nat_text(n as nat) + (if n == 1 {
        " line"@
    } else {
        " lines"@
    }) + " skipped (use --strict to abort on first)\n"@
}

/// The tally of errors.
pub open spec fn error_tally_text(n: u64) -> Seq<char> {
    "tracegrep: "@ + nat_text(n as nat) + (if n == 1 {
        " error"@
    } else {
        " errors"@
    }) + "\n"@
}

/// What a summary asks of the writer: the tally of skipped lines if any,
/// then that of errors if any, then a flush if either was written.
pub open spec fn summary_events(skipped: u64, errors: u64) -> Seq<WriteEvent> {
    (if skipped != 0 {
        seq![WriteEvent::Text(skipped_tally_text(skipped))]
    } else {
        Seq::empty()
    }) + (if errors != 0 {
        seq![WriteEvent::Text(error_tally_text(errors))]
    } else {
        Seq::empty()
    }) + (if skipped != 0 || errors != 0 {
        seq![WriteEvent::Flush]
    } else {
        Seq::empty()
    })
}

/// Counts skipped lines and errors, reporting each on the writer.
pub struct DiagnosticsSink<W> {
    writer: LoggedWriter<W>,
    skipped_lines: u64,
    errors: u64,
}

impl<W> DiagnosticsSink<W> {
    pub closed spec fn skipped(&self) -> u64 {
        self.skipped_lines
    }

    pub closed spec fn error_count(&self) -> u64 {
        self.errors
    }

    /// What was asked of the writer so far.
    pub closed spec fn events(&self) -> Seq<WriteEvent> {
        self.writer.events()
    }

    /// The writer as it now is.
    pub closed spec fn writer_view(&self) -> W {
        self.writer.inner_view()
    }
}

impl<W: std::io::Write> DiagnosticsSink<W> {
    pub fn new(w: W) -> (r: Self)
        ensures
            r.skipped() == 0,
            r.error_count() == 0,
            r.events() == Seq::<WriteEvent>::empty(),
            r.writer_view() == w,
    {
        DiagnosticsSink { writer: LoggedWriter::new(w), skipped_lines: 0, errors: 0 }
    }

    /// How many lines were skipped.
    pub fn skipped_count(&self) -> (r: u64)
        ensures
            r == self.skipped(),
    {
        self.skipped_lines
    }

    /// How many errors were recorded.
    pub fn error_total(&self) -> (r: u64)
        ensures
            r == self.error_count(),
    {
        self.errors
    }

    /// Counts a skipped line and writes its warning; a failed write is ignored.
    pub fn record_skip(&mut self, line_num: u64, reason: &str)
        requires
            old(self).skipped() < u64::MAX,
        ensures
            final(self).skipped() == old(self).skipped() + 1,
            final(self).error_count() == old(self).error_count(),
            final(self).events() == old(self).events().push(
                WriteEvent::Text(skip_line_text(line_num, reason@)),
            ),
    {
        self.skipped_lines += 1;
        let mut msg = String::from_str("tracegrep: warning: line ");
        let num = u64_text(line_num);
        push_str(&mut msg, num.as_str());
        push_str(&mut msg, ": ");
        push_str(&mut msg, reason);
        push_str(&mut msg, "\n");
        let _ = self.writer.write_str(msg.as_str());
    }

    /// Counts an error and writes its line; a failed write is ignored.
    pub fn record_error(&mut self, line_num: u64, err: &str)
        requires
            old(self).error_count() < u64::MAX,
        ensures
            final(self).error_count() == old(self).error_count() + 1,
            final(self).skipped() == old(self).skipped(),
            final(self).events() == old(self).events().push(
                WriteEvent::Text(error_line_text(line_num, err@)),
            ),
    {
        self.errors += 1;
        let mut msg = String::from_str("tracegrep: error: line ");
        let num = u64_text(line_num);
        push_str(&mut msg, num.as_str());
        push_str(&mut msg, ": ");
        push_str(&mut msg, err);
        push_str(&mut msg, "\n");
        let _ = self.writer.write_str(msg.as_str());
    }

    /// Writes the tallies of skipped lines and errors (each only when
    /// nonzero) and flushes when anything was written. Stops at the first
    /// failed write, having asked for a prefix of the same requests.
    pub fn summary(&mut self) -> (r: Result<(), std::io::Error>)
        ensures
            final(self).skipped() == old(self).skipped(),
            final(self).error_count() == old(self).error_count(),
            r is Ok ==> final(self).events() == old(self).events() + summary_events(
                old(self).skipped(),
                old(self).error_count(),
            ),
            old(self).events().len() <= final(self).events().len(),
            prefix_of(
                final(self).events(),
                old(self).events() + summary_events(old(self).skipped(), old(self).error_count()),
            ),
    {
        let ghost start = self.writer.events();
        let ghost full = summary_events(self.skipped_lines, self.errors);
        if self.skipped_lines != 0 {
            let mut msg = String::from_str("tracegrep: ");
            let num = u64_text(self.skipped_lines);
            push_str(&mut msg, num.as_str());
            if self.skipped_lines == 1 {
                push_str(&mut msg, " line");
            } else {
                push_str(&mut msg, " lines");
            }
            push_str(&mut msg, " skipped (use --strict to abort on first)\n");
            let w = self.writer.write_str(msg.as_str());
            assert(msg@ =~= skipped_tally_text(self.skipped_lines));
            if w.is_err() {
                assert(full.take(1) =~= seq![WriteEvent::Text(msg@)]);
                assert(self.writer.events() =~= start + full.take(1));
                proof {
                    lemma_prefix_of_extension(start, full, 1);
                }
                return w;
            }
        }
        let ghost mid = self.writer.events();
        let ghost first_part = if self.skipped_lines != 0 {
            seq![WriteEvent::Text(skipped_tally_text(self.skipped_lines))]
        } else {
            Seq::<WriteEvent>::empty()
        };
        assert(mid =~= start + first_part);
        if self.errors != 0 {
            let mut msg = String::from_str("tracegrep: ");
            let num = u64_text(self.errors);
            push_str(&mut msg, num.as_str());
            if self.errors == 1 {
                push_str(&mut msg, " error");
            } else {
                push_str(&mut msg, " errors");
            }
            push_str(&mut msg, "\n");
            let w = self.writer.write_str(msg.as_str());
            assert(msg@ =~= error_tally_text(self.errors));
            if w.is_err() {
                assert(full.take(first_part.len() as int + 1) =~= first_part + seq![
                    WriteEvent::Text(msg@),
                ]);
                assert(self.writer.events() =~= start + full.take(first_part.len() as int + 1));
                proof {
                    lemma_prefix_of_extension(start, full, first_part.len() as int + 1);
                }
                return w;
            }
        }
        let ghost second_part = if self.errors != 0 {
            seq![WriteEvent::Text(error_tally_text(self.errors))]
        } else {
            Seq::<WriteEvent>::empty()
        };
        assert(self.writer.events() =~= start + first_part + second_part);
        if self.skipped_lines != 0 || self.errors != 0 {
            let f = self.writer.flush();
            assert(self.writer.events() =~= start + full);
            assert(full.take(full.len() as int) =~= full);
            proof {
                lemma_prefix_of_extension(start, full, full.len() as int);
            }
            return f;
        }
        assert(self.writer.events() =~= start + full);
        assert(full.take(full.len() as int) =~= full);
        proof {
            lemma_prefix_of_extension(start, full, full.len() as int);
        }
        Ok(())
    }

    /// The writer.
    pub fn into_inner(self) -> (r: W)
        ensures
            r == self.writer_view(),
    {
        self.writer.into_inner()
    }
}

} // verus!
