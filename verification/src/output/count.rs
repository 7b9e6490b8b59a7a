//! Counting matched records.

use vstd::prelude::*;
use crate::record::Record;
use crate::sink::{LoggedWriter, WriteEvent, wrote, lemma_prefix_of_extension};
use crate::text::{nat_text, u64_text, push_str};

verus! {

/// What a count formatter asks of its writer when flushed: the count and a
/// newline, then a flush.
pub open spec fn count_events(count: u64) -> Seq<WriteEvent> {
    seq![WriteEvent::Text(nat_text(count as nat) + "\n"@), WriteEvent::Flush]
}

/// Counts the records it is given, and writes the count when flushed.
pub struct CountFormatter<W> {
    inner: LoggedWriter<W>,
    count: u64,
}

impl<W: std::io::Write> CountFormatter<W> {
    pub closed spec fn count(&self) -> u64 {
        self.count
    }

    /// What was asked of the writer so far.
    pub closed spec fn events(&self) -> Seq<WriteEvent> {
        self.inner.events()
    }

    pub fn new(inner: W) -> (r: Self)
        ensures
            r.count() == 0,
            r.events() == Seq::<WriteEvent>::empty(),
    {
        CountFormatter { inner: LoggedWriter::new(inner), count: 0 }
    }

    /// Counts one more record (saturating at `u64::MAX`); writes nothing.
    pub fn write(&mut self, r: &Record) -> (res: Result<(), std::io::Error>)
        ensures
            res is Ok,
            final(self).count() == if old(self).count() == u64::MAX {
                u64::MAX
            } else {
                (old(self).count() + 1) as u64
            },
            final(self).events() == old(self).events(),
    {
        self.count = self.count.saturating_add(1);
        Ok(())
    }

    /// Writes the count and a newline, then flushes.
    pub fn flush(&mut self) -> (res: Result<(), std::io::Error>)
        ensures
            final(self).count() == old(self).count(),
            wrote(old(self).events(), final(self).events(), count_events(old(self).count()), res is Ok),
    {
        let ghost start = self.inner.events();
        let ghost planned = count_events(self.count);
        let mut text = u64_text(self.count);
        push_str(&mut text, "\n");
        let w = self.inner.write_str(text.as_str());
        if w.is_err() {
            proof {
                lemma_prefix_of_extension(start, planned, 1);
                assert(start + planned.take(1) =~= self.inner.events());
            }
            return w;
        }
        let f = self.inner.flush();
        proof {
            lemma_prefix_of_extension(start, planned, 2);
            assert(planned.take(2) =~= planned);
            assert(start + planned =~= self.inner.events());
        }
        f
    }
}

} // verus!
