//! ANSI coloring of log levels.

use vstd::prelude::*;
use crate::sink::{write_all_str, flush_inner, WriteEvent};
use crate::text::{chars_of, lower_seq, ascii_lower_exec, span_is, push_str};

verus! {

/// The ANSI sequence that opens the color of a lower-cased level: red for
/// `error`, yellow for `warn` and `warning`, cyan for `info`, dim for
/// `debug`; no color for any other level.
pub open spec fn level_style(lower: Seq<char>) -> Option<Seq<char>> {
    if lower == seq!['e', 'r', 'r', 'o', 'r'] {
        Some(seq!['\x1b', '[', '3', '1', 'm'])
    } else if lower == seq!['w', 'a', 'r', 'n'] || lower == seq!['w', 'a', 'r', 'n', 'i', 'n', 'g'] {
        Some(seq!['\x1b', '[', '3', '3', 'm'])
    } else if lower == seq!['i', 'n', 'f', 'o'] {
        Some(seq!['\x1b', '[', '3', '6', 'm'])
    } else if lower == seq!['d', 'e', 'b', 'u', 'g'] {
        Some(seq!['\x1b', '[', '2', 'm'])
    } else {
        None
    }
}

/// The ANSI reset sequence.
pub open spec fn style_reset() -> Seq<char> {
    seq!['\x1b', '[', '0', 'm']
}

/// A level as shown: wrapped in its color when coloring is on and the level
/// (ignoring ASCII case) is a known one, else unchanged.
pub open spec fn colorized(level: Seq<char>, enabled: bool) -> Seq<char> {
    if !enabled {
        level
    } else {
        match level_style(lower_seq(level)) {
            Some(open) => open + level + style_reset(),
            None => level,
        }
    }
}

/// Whether standard output is a terminal.
#[verifier::external_body]
fn stdout_is_terminal() -> (r: bool) {
    std::io::IsTerminal::is_terminal(&std::io::stdout())
}

/// A writer that knows whether ANSI styling should be applied.
pub struct ColorWriter<W> {
    inner: W,
    enabled: bool,
    events: Ghost<Seq<WriteEvent>>,
}

impl<W> ColorWriter<W> {
    pub closed spec fn enabled(&self) -> bool {
        self.enabled
    }

    pub closed spec fn inner_view(&self) -> W {
        self.inner
    }

    /// The texts and flushes handed to the inner writer through this
    /// wrapper, oldest first.
    pub closed spec fn events(&self) -> Seq<WriteEvent> {
        self.events@
    }

    /// Colors on exactly when standard output is a terminal.
    pub fn new_auto(inner: W) -> (r: Self)
        ensures
            r.inner_view() == inner,
            r.events() == Seq::<WriteEvent>::empty(),
    {
        let enabled = stdout_is_terminal();
        ColorWriter { inner, enabled, events: Ghost(Seq::empty()) }
    }

    /// Colors on or off as given.
    pub fn with_enabled(inner: W, enabled: bool) -> (r: Self)
        ensures
            r.inner_view() == inner,
            r.enabled() == enabled,
            r.events() == Seq::<WriteEvent>::empty(),
    {
        ColorWriter { inner, enabled, events: Ghost(Seq::empty()) }
    }

    /// The level wrapped in ANSI colors when coloring is on: `error` red,
    /// `warn`/`warning` yellow, `info` cyan, `debug` dim (ASCII case ignored);
    /// other levels unchanged.
    pub fn colorize_level(&self, level: &str) -> (r: String)
        ensures
            r@ == colorized(level@, self.enabled()),
    {
        if !self.enabled {
            return level.to_owned();
        }
        let lower = lowered_all(level);
        let n = lower.len();
        let open: &str = if span_is(&lower, 0, n, &['e', 'r', 'r', 'o', 'r']) {
            "\x1b[31m"
        } else if span_is(&lower, 0, n, &['w', 'a', 'r', 'n']) || span_is(
            &lower,
            0,
            n,
            &['w', 'a', 'r', 'n', 'i', 'n', 'g'],
        ) {
            "\x1b[33m"
        } else if span_is(&lower, 0, n, &['i', 'n', 'f', 'o']) {
            "\x1b[36m"
        } else if span_is(&lower, 0, n, &['d', 'e', 'b', 'u', 'g']) {
            "\x1b[2m"
        } else {
            assert(lower@.subrange(0, n as int) =~= lower@);
            return level.to_owned();
        };
        assert(lower@.subrange(0, n as int) =~= lower@);
        proof {
            reveal_strlit("\x1b[31m");
            reveal_strlit("\x1b[33m");
            reveal_strlit("\x1b[36m");
            reveal_strlit("\x1b[2m");
            reveal_strlit("\x1b[0m");
        }
        let mut out = open.to_owned();
        push_str(&mut out, level);
        push_str(&mut out, "\x1b[0m");
        assert(out@ =~= colorized(level@, self.enabled()));
        out
    }

    pub fn inner_mut(&mut self) -> (r: &mut W)
        ensures
            *r == old(self).inner_view(),
            final(self).inner_view() == *final(r),
            final(self).enabled() == old(self).enabled(),
            final(self).events() == old(self).events(),
    {
        &mut self.inner
    }

    pub fn into_inner(self) -> (r: W)
        ensures
            r == self.inner_view(),
    {
        self.inner
    }
}

impl<W: std::io::Write> ColorWriter<W> {
    /// Hands all of `s`, unchanged, to the inner writer (`write_all`) and
    /// passes back its outcome.
    pub fn write_str(&mut self, s: &str) -> (r: Result<(), std::io::Error>)
        ensures
            final(self).enabled() == old(self).enabled(),
            final(self).events() == old(self).events().push(WriteEvent::Text(s@)),
    {
        let r = write_all_str(&mut self.inner, s);
        self.events = Ghost(self.events@.push(WriteEvent::Text(s@)));
        r
    }

    /// Asks the inner writer to flush and passes back its outcome.
    pub fn flush(&mut self) -> (r: Result<(), std::io::Error>)
        ensures
            final(self).enabled() == old(self).enabled(),
            final(self).events() == old(self).events().push(WriteEvent::Flush),
    {
        let r = flush_inner(&mut self.inner);
        self.events = Ghost(self.events@.push(WriteEvent::Flush));
        r
    }
}

/// `str::to_ascii_lowercase`, as characters.
fn lowered_all(s: &str) -> (r: Vec<char>)
    ensures
        r@ == lower_seq(s@),
{
    let v = chars_of(s);
    let mut out: Vec<char> = Vec::new();
    let mut i: usize = 0;
    while i < v.len()
        invariant
            i <= v.len(),
            v@ == s@,
            out@ == lower_seq(v@.take(i as int)),
        decreases v.len() - i,
    {
        let c = v[i];
        out.push(ascii_lower_exec(c));
        proof {
            assert(v@.take(i + 1) =~= v@.take(i as int).push(c));
        }
        i += 1;
    }
    assert(v@.take(v.len() as int) =~= v@);
    out
}

} // verus!
