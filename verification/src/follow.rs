//! The decisions of follow mode (`--follow`): which lines of a tailed file
//! are parsed and matched, when a shrunken file is reopened, and the
//! `==> path <==` banners that mark the source of each record when several
//! files are followed. Reading, waiting and writing are the caller's.

use vstd::prelude::*;
use crate::diagnostics::{DiagnosticsSink, skip_line_text};
use crate::float::{FloatRepr, FloatView, is_float_reader, reader_fn};
use crate::parser::detect::{Format, sniff_text};
use crate::parser::resilience::{CliInputHint, ParsedCliLine, cli_line, cli_hint_from_format,
    parse_cli_line, strict_failure_text, blank};
use crate::query::ast::Expr;
use crate::query::eval::holds;
use crate::record::Record;
use crate::sink::WriteEvent;
use crate::text::{chars_of, string_of, trim_unicode, trim_end_index, is_unicode_ws_exec, push_str};

verus! {

/// How each tailed line is parsed (the command line's `--input`).
#[derive(Clone, Copy, Debug, PartialEq, Eq, Structural)]
pub enum FollowParseSpec {
    /// Each line in the format it shows by itself.
    AutoPerLine,
    Fixed(Format),
}

/// The input hint a parse spec stands for.
pub open spec fn follow_hint(spec: FollowParseSpec) -> CliInputHint {
    match spec {
        FollowParseSpec::AutoPerLine => CliInputHint::Auto,
        FollowParseSpec::Fixed(Format::JsonLines) => CliInputHint::Json,
        FollowParseSpec::Fixed(Format::Logfmt) => CliInputHint::Logfmt,
        FollowParseSpec::Fixed(Format::Plain) => CliInputHint::Plain,
    }
}

/// The input hint of a parse spec.
pub fn hint_of_spec(spec: FollowParseSpec) -> (r: CliInputHint)
    ensures
        r == follow_hint(spec),
{
    match spec {
        FollowParseSpec::AutoPerLine => CliInputHint::Auto,
        FollowParseSpec::Fixed(format) => cli_hint_from_format(format),
    }
}

/// `str::trim_end`.
pub open spec fn trim_end(s: Seq<char>) -> Seq<char> {
    s.take(trim_end_index(s, s.len() as int))
}

/// What the follower does on reaching the end of the file.
#[derive(Clone, Copy, Debug, PartialEq, Eq, Structural)]
pub enum EofAction {
    /// The file shrank: open it again and continue from its end.
    Reopen,
    /// Wait and read again.
    Wait,
}

/// The position of a follower: the file length it last saw and the number
/// of lines read.
pub struct FollowCursor {
    tracked_len: u64,
    lineno: u64,
}

impl FollowCursor {
    pub closed spec fn seen_len(&self) -> u64 {
        self.tracked_len
    }

    pub closed spec fn lines_read(&self) -> u64 {
        self.lineno
    }

    /// How many lines were read.
    pub fn line_count(&self) -> (r: u64)
        ensures
            r == self.lines_read(),
    {
        self.lineno
    }

    /// A follower that starts at the end of a file of length `len`.
    pub fn new(len: u64) -> (r: Self)
        ensures
            r.seen_len() == len,
            r.lines_read() == 0,
    {
        FollowCursor { tracked_len: len, lineno: 0 }
    }

    /// At end of file, with the file now `current_len` long: reopen if it
    /// shrank, else remember the length and wait.
    pub fn on_eof(&mut self, current_len: u64) -> (r: EofAction)
        ensures
            r == (if current_len < old(self).seen_len() {
                EofAction::Reopen
            } else {
                EofAction::Wait
            }),
            final(self).lines_read() == old(self).lines_read(),
            r == EofAction::Wait ==> final(self).seen_len() == current_len,
            r == EofAction::Reopen ==> final(self).seen_len() == old(self).seen_len(),
    {
        if current_len < self.tracked_len {
            EofAction::Reopen
        } else {
            self.tracked_len = current_len;
            EofAction::Wait
        }
    }

    /// The file was opened again and is `len` long.
    pub fn on_reopened(&mut self, len: u64)
        ensures
            final(self).seen_len() == len,
            final(self).lines_read() == old(self).lines_read(),
    {
        self.tracked_len = len;
    }

    /// A line was read: it is numbered, its trailing whitespace dropped, and
    /// it is parsed under `spec`. A record is returned when it matches
    /// `expr`; a parse failure aborts a strict follow and is otherwise
    /// reported to `diag` as skipped.
    pub fn on_line<F: Fn(&str) -> FloatRepr, W: std::io::Write>(
        &mut self,
        line: &str,
        expr: &Expr,
        spec: FollowParseSpec,
        strict: bool,
        diag: &mut DiagnosticsSink<W>,
        read_float: &F,
    ) -> (r: Result<Option<Record>, String>)
        requires
            is_float_reader(*read_float),
            old(self).lines_read() < u64::MAX,
            !strict ==> old(diag).skipped() < u64::MAX,
        ensures
            final(self).lines_read() == old(self).lines_read() + 1,
            final(self).seen_len() == old(self).seen_len(),
            line_outcome(
                r,
                trim_end(line@),
                final(self).lines_read(),
                expr@,
                follow_hint(spec),
                strict,
                *old(diag),
                *final(diag),
                reader_fn(*read_float),
            ),
    {
        self.lineno = self.lineno + 1;
        let t = trimmed_end(line);
        match parse_cli_line(t.as_str(), self.lineno, hint_of_spec(spec), strict, diag, read_float) {
            Err(e) => Err(e),
            Ok(ParsedCliLine::Ignored) => Ok(None),
            Ok(ParsedCliLine::Record(rec)) => {
                if expr.eval(&rec) {
                    Ok(Some(rec))
                } else {
                    Ok(None)
                }
            },
        }
    }
}

/// `line` without trailing whitespace.
fn trimmed_end(line: &str) -> (r: String)
    ensures
        r@ == trim_end(line@),
{
    let v = chars_of(line);
    let mut j = v.len();
    while j > 0 && is_unicode_ws_exec(v[j - 1])
        invariant
            j <= v.len(),
            v@ == line@,
            trim_end_index(v@, j as int) == trim_end_index(v@, v.len() as int),
        decreases j,
    {
        j -= 1;
    }
    assert(v@.subrange(0, j as int) =~= v@.take(j as int));
    string_of(&v, 0, j)
}

/// What handling physical line `line` (numbered `n`) under `hint` gives,
/// from diagnostics `before` to `after`: nothing for a blank line, a record
/// that matches `query` (or nothing if it does not), or on a parse failure
/// either the error that aborts a strict run or, otherwise, a skip reported.
pub open spec fn line_outcome<W>(
    r: Result<Option<Record>, String>,
    line: Seq<char>,
    n: u64,
    query: crate::query::ast::ExprView,
    hint: CliInputHint,
    strict: bool,
    before: DiagnosticsSink<W>,
    after: DiagnosticsSink<W>,
    rd: spec_fn(Seq<char>) -> FloatView,
) -> bool {
    match cli_line(line, hint, rd) {
        None => r matches Ok(None) && after == before,
        Some(Ok(m)) => after == before && if holds(query, m) {
            r matches Ok(Some(rec)) && rec.view() == m && rec.raw_view() == trim_unicode(line)
        } else {
            r matches Ok(None)
        },
        Some(Err(e)) => if strict {
            r matches Err(msg) && msg@ == strict_failure_text(n, e) && after == before
        } else {
            &&& r matches Ok(None)
            &&& after.skipped() == before.skipped() + 1
            &&& after.error_count() == before.error_count()
            &&& after.events() == before.events().push(
                WriteEvent::Text(skip_line_text(n, "parse: "@ + e)),
            )
        },
    }
}

/// How many files are followed, and so how.
#[derive(Clone, Copy, Debug, PartialEq, Eq, Structural)]
pub enum FollowMode {
    /// One file, without banners.
    Single,
    /// Several files, each record after a banner naming its file.
    Multiplexed,
}

/// One file is followed plainly, several with banners; none is an error.
pub fn follow_mode(n_paths: usize) -> (r: Result<FollowMode, String>)
    ensures
        n_paths == 0 ==> (r matches Err(e) && e@ == "follow_paths requires at least one path"@),
        n_paths == 1 ==> r == Ok::<FollowMode, String>(FollowMode::Single),
        n_paths > 1 ==> r == Ok::<FollowMode, String>(FollowMode::Multiplexed),
{
    if n_paths == 0 {
        Err(String::from_str("follow_paths requires at least one path"))
    } else if n_paths == 1 {
        Ok(FollowMode::Single)
    } else {
        Ok(FollowMode::Multiplexed)
    }
}

/// `==> <path> <==`.
pub open spec fn banner_text(path: Seq<char>) -> Seq<char> {
    "==> "@ + path + " <=="@
}

/// The banner that announces a record from `path` (as displayed).
pub fn follow_banner(path: &str) -> (r: String)
    ensures
        r@ == banner_text(path@),
{
    let mut s = String::from_str("==> ");
    push_str(&mut s, path);
    push_str(&mut s, " <==");
    s
}

/// The format of a file decided from its first line that is not blank
/// (`line`), or plain text when it has none.
pub fn sniff_line_format(first_nonblank: Option<&str>) -> (r: Format)
    ensures
        match first_nonblank {
            Some(l) => r == sniff_text(l@),
            None => r == Format::Plain,
        },
{
    match first_nonblank {
        Some(l) => crate::parser::detect::sniff(l),
        None => Format::Plain,
    }
}

/// Banners recorded instead of printed, for tests of multiplexed follow.
pub struct BannerCapture {
    enabled: bool,
    banners: Vec<String>,
}

impl BannerCapture {
    pub closed spec fn is_enabled(&self) -> bool {
        self.enabled
    }

    /// The banners recorded, oldest first.
    pub closed spec fn recorded(&self) -> Seq<Seq<char>> {
        self.banners@.map_values(|b: String| b@)
    }

    /// Capture off, nothing recorded.
    pub fn new() -> (r: Self)
        ensures
            !r.is_enabled(),
            r.recorded() == Seq::<Seq<char>>::empty(),
    {
        let r = BannerCapture { enabled: false, banners: Vec::new() };
        assert(r.recorded() =~= Seq::<Seq<char>>::empty());
        r
    }
}

/// Starts recording banners, forgetting those recorded before.
pub fn reset_and_enable_banner_capture(c: &mut BannerCapture)
    ensures
        final(c).is_enabled(),
        final(c).recorded() == Seq::<Seq<char>>::empty(),
{
    c.banners = Vec::new();
    c.enabled = true;
    assert(c.recorded() =~= Seq::<Seq<char>>::empty());
}

/// Stops recording banners; those recorded stay.
pub fn disable_banner_capture(c: &mut BannerCapture)
    ensures
        !final(c).is_enabled(),
        final(c).recorded() == old(c).recorded(),
{
    c.enabled = false;
}

/// Whether banners are being recorded.
pub fn capture_enabled(c: &BannerCapture) -> (r: bool)
    ensures
        r == c.is_enabled(),
{
    c.enabled
}

/// Records `line` if capture is on.
pub fn push_banner(c: &mut BannerCapture, line: String)
    ensures
        final(c).is_enabled() == old(c).is_enabled(),
        final(c).recorded() == if old(c).is_enabled() {
            old(c).recorded().push(line@)
        } else {
            old(c).recorded()
        },
{
    if !c.enabled {
        return ;
    }
    c.banners.push(line);
    assert(c.recorded() =~= old(c).recorded().push(line@));
}

/// The banners recorded so far.
pub fn captured_banners(c: &BannerCapture) -> (r: Vec<String>)
    ensures
        r@.map_values(|b: String| b@) == c.recorded(),
{
    let mut out: Vec<String> = Vec::new();
    let mut i: usize = 0;
    while i < c.banners.len()
        invariant
            i <= c.banners.len(),
            out.len() == i,
            forall|k: int| 0 <= k < i ==> (#[trigger] out@[k])@ == c.banners@[k]@,
        decreases c.banners.len() - i,
    {
        let b = c.banners[i].clone();
        out.push(b);
        i += 1;
    }
    assert(out@.map_values(|b: String| b@) =~= c.recorded());
    out
}

} // verus!
