//! Writers with a record of what was handed to them.
//!
//! A [`LoggedWriter`] wraps any `std::io::Write` and keeps, as ghost state,
//! the sequence of texts and flushes it passed on. The writer itself is
//! opaque: whether it stores the bytes is its own affair, and its errors are
//! passed back.

use vstd::prelude::*;

verus! {

#[verifier::external_type_specification]
#[verifier::external_body]
pub struct ExIoError(std::io::Error);

/// One request made of a writer.
pub enum WriteEvent {
    /// All of this text, as UTF-8.
    Text(Seq<char>),
    Flush,
}

/// `a` is an initial part of `b`.
pub open spec fn prefix_of<A>(a: Seq<A>, b: Seq<A>) -> bool {
    a.len() <= b.len() && b.take(a.len() as int) == a
}

/// A sequence of planned requests was made of a writer, stopping early only
/// on failure: `after` is `before` followed by a first part of `planned`, all
/// of it when `ok`.
pub open spec fn wrote(
    before: Seq<WriteEvent>,
    after: Seq<WriteEvent>,
    planned: Seq<WriteEvent>,
    ok: bool,
) -> bool {
    &&& before.len() <= after.len()
    &&& prefix_of(after, before + planned)
    &&& ok ==> after == before + planned
}

/// Extending `start` by a first part of `full` gives a prefix of
/// `start + full`.
pub proof fn lemma_prefix_of_extension<A>(start: Seq<A>, full: Seq<A>, k: int)
    requires
        0 <= k <= full.len(),
    ensures
        prefix_of(start + full.take(k), start + full),
{
    assert((start + full).take(start.len() + k) =~= start + full.take(k));
}

/// The text that a sequence of requests hands to the writer, in order.
pub open spec fn written_text(events: Seq<WriteEvent>) -> Seq<char>
    decreases events.len(),
{
    if events.len() == 0 {
        Seq::empty()
    } else {
        written_text(events.drop_last()) + match events.last() {
            WriteEvent::Text(t) => t,
            WriteEvent::Flush => Seq::empty(),
        }
    }
}

/// The text of two runs of requests, one after the other, is the text of
/// the first followed by that of the second.
pub proof fn lemma_written_text_append(a: Seq<WriteEvent>, b: Seq<WriteEvent>)
    ensures
        written_text(a + b) == written_text(a) + written_text(b),
    decreases b.len(),
{
    if b.len() == 0 {
        assert(a + b =~= a);
        assert(written_text(a) + Seq::<char>::empty() =~= written_text(a));
    } else {
        lemma_written_text_append(a, b.drop_last());
        assert((a + b).drop_last() =~= a + b.drop_last());
        assert((a + b).last() == b.last());
        let tail = match b.last() {
            WriteEvent::Text(t) => t,
            WriteEvent::Flush => Seq::<char>::empty(),
        };
        assert(written_text(a) + written_text(b.drop_last()) + tail =~= written_text(a) + (written_text(
            b.drop_last(),
        ) + tail));
    }
}

/// `Write::write_all` of the UTF-8 bytes of `s`.
#[verifier::external_body]
pub(crate) fn write_all_str<W: std::io::Write>(w: &mut W, s: &str) -> (r: Result<(), std::io::Error>) {
    w.write_all(s.as_bytes())
}

/// `Write::flush`.
#[verifier::external_body]
pub(crate) fn flush_inner<W: std::io::Write>(w: &mut W) -> (r: Result<(), std::io::Error>) {
    w.flush()
}

/// A writer and the requests made of it through this wrapper.
pub struct LoggedWriter<W> {
    inner: W,
    events: Ghost<Seq<WriteEvent>>,
}

impl<W> LoggedWriter<W> {
    /// The requests made so far, oldest first.
    pub closed spec fn events(&self) -> Seq<WriteEvent> {
        self.events@
    }

    /// The writer as it now is.
    pub closed spec fn inner_view(&self) -> W {
        self.inner
    }
}

impl<W: std::io::Write> LoggedWriter<W> {
    pub fn new(inner: W) -> (r: Self)
        ensures
            r.events() == Seq::<WriteEvent>::empty(),
            r.inner_view() == inner,
    {
        LoggedWriter { inner, events: Ghost(Seq::empty()) }
    }

    /// Hands `s` to the writer.
    pub fn write_str(&mut self, s: &str) -> (r: Result<(), std::io::Error>)
        ensures
            final(self).events() == old(self).events().push(WriteEvent::Text(s@)),
    {
        let r = write_all_str(&mut self.inner, s);
        self.events = Ghost(self.events@.push(WriteEvent::Text(s@)));
        r
    }

    /// Asks the writer to flush.
    pub fn flush(&mut self) -> (r: Result<(), std::io::Error>)
        ensures
            final(self).events() == old(self).events().push(WriteEvent::Flush),
    {
        let r = flush_inner(&mut self.inner);
        self.events = Ghost(self.events@.push(WriteEvent::Flush));
        r
    }

    /// The writer, for direct use; what is done through it is not logged.
    pub fn inner_mut(&mut self) -> (r: &mut W)
        ensures
            *r == old(self).inner_view(),
            final(self).inner_view() == *final(r),
            final(self).events() == old(self).events(),
    {
        &mut self.inner
    }

    pub fn get_ref(&self) -> (r: &W)
        ensures
            *r == self.inner_view(),
    {
        &self.inner
    }

    pub fn into_inner(self) -> (r: W)
        ensures
            r == self.inner_view(),
    {
        self.inner
    }
}

} // verus!
