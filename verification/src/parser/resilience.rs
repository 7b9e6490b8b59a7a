//! Line parsing that skips blank lines, per-line format detection, and the
//! command line's handling of a line that fails to parse.

use vstd::prelude::*;
use crate::diagnostics::{DiagnosticsSink, skip_line_text};
use crate::float::{FloatRepr, FloatView, is_float_reader, reader_fn};
use crate::parser::detect::{Format, auto_line, line_format, line_format_exec, parse_auto};
use crate::parser::json::{json_line, parse_json_line};
use crate::parser::logfmt::{logfmt_line, parse_logfmt_line};
use crate::record::{Record, RecordError, ValueView, yields};
use crate::sink::WriteEvent;
use crate::text::{chars_of, string_of, trim_chars, trim_unicode, nat_text, u64_text, push_str};

verus! {

/// A line holding only whitespace, or nothing.
pub open spec fn blank(line: Seq<char>) -> bool {
    trim_unicode(line).len() == 0
}

/// `line` trimmed, as a string, with its characters.
fn trimmed(line: &str) -> (r: (String, bool))
    ensures
        r.0@ == trim_unicode(line@),
        r.1 == blank(line@),
{
    let t = trim_chars(&chars_of(line));
    let s = string_of(&t, 0, t.len());
    assert(t@.subrange(0, t.len() as int) =~= t@);
    (s, t.len() == 0)
}

/// Whether `line` is blank.
pub fn is_blank_line(line: &str) -> (r: bool)
    ensures
        r == blank(line@),
{
    trimmed(line).1
}

/// `None` for a blank line; otherwise the outcome of parsing the trimmed
/// line as JSON.
pub fn parse_json_line_skip<F: Fn(&str) -> FloatRepr>(line: &str, read_float: &F) -> (r: Option<
    Result<Record, RecordError>,
>)
    requires
        is_float_reader(*read_float),
    ensures
        match r {
            None => blank(line@),
            Some(x) => !blank(line@) && yields(
                x,
                trim_unicode(line@),
                json_line(trim_unicode(line@), reader_fn(*read_float)),
            ),
        },
{
    let (t, is_blank) = trimmed(line);
    if is_blank {
        return None;
    }
    Some(parse_json_line(t.as_str(), read_float))
}

/// `None` for a blank line; otherwise the outcome of parsing the trimmed
/// line as logfmt.
pub fn parse_logfmt_line_skip<F: Fn(&str) -> FloatRepr>(line: &str, read_float: &F) -> (r: Option<
    Result<Record, RecordError>,
>)
    requires
        is_float_reader(*read_float),
    ensures
        match r {
            None => blank(line@),
            Some(x) => !blank(line@) && yields(
                x,
                trim_unicode(line@),
                logfmt_line(trim_unicode(line@), reader_fn(*read_float)),
            ),
        },
{
    let (t, is_blank) = trimmed(line);
    if is_blank {
        return None;
    }
    Some(parse_logfmt_line(t.as_str(), read_float))
}

/// The format of one trimmed, non-blank line (the rule `sniff` applies to
/// the first such line of an input).
pub fn sniff_this_line(trimmed_nonempty: &str) -> (r: Format)
    ensures
        r == line_format(trimmed_nonempty@),
{
    line_format_exec(&chars_of(trimmed_nonempty))
}

/// `None` for a blank line; otherwise the trimmed line parsed in the format
/// it shows by itself.
pub fn parse_auto_perline<F: Fn(&str) -> FloatRepr>(line: &str, read_float: &F) -> (r: Option<
    Result<Record, RecordError>,
>)
    requires
        is_float_reader(*read_float),
    ensures
        match r {
            None => blank(line@),
            Some(x) => !blank(line@) && yields(
                x,
                trim_unicode(line@),
                auto_line(
                    trim_unicode(line@),
                    line_format(trim_unicode(line@)),
                    reader_fn(*read_float),
                ),
            ),
        },
{
    let (t, is_blank) = trimmed(line);
    if is_blank {
        return None;
    }
    let fmt = sniff_this_line(t.as_str());
    Some(parse_auto(t.as_str(), fmt, read_float))
}

/// The input format chosen on the command line.
#[derive(Debug, Clone, Copy, PartialEq, Eq, Structural)]
pub enum CliInputHint {
    /// Detect the format of each line by itself.
    Auto,
    Json,
    Logfmt,
    Plain,
}

/// The hint that stands for a fixed format.
pub fn cli_hint_from_format(f: Format) -> (r: CliInputHint)
    ensures
        r == match f {
            Format::JsonLines => CliInputHint::Json,
            Format::Logfmt => CliInputHint::Logfmt,
            Format::Plain => CliInputHint::Plain,
        },
{
    match f {
        Format::JsonLines => CliInputHint::Json,
        Format::Logfmt => CliInputHint::Logfmt,
        Format::Plain => CliInputHint::Plain,
    }
}

/// The format a non-blank trimmed line is read in under `hint`.
pub open spec fn hinted_format(hint: CliInputHint, t: Seq<char>) -> Format {
    match hint {
        CliInputHint::Auto => line_format(t),
        CliInputHint::Json => Format::JsonLines,
        CliInputHint::Logfmt => Format::Logfmt,
        CliInputHint::Plain => Format::Plain,
    }
}

/// What a physical line gives under `hint`: nothing for a blank line, else
/// the outcome of parsing the trimmed line.
pub open spec fn cli_line(line: Seq<char>, hint: CliInputHint, rd: spec_fn(Seq<char>) -> FloatView) -> Option<
    Result<Map<Seq<char>, ValueView>, Seq<char>>,
> {
    if blank(line) {
        None
    } else {
        let t = trim_unicode(line);
        Some(auto_line(t, hinted_format(hint, t), rd))
    }
}

/// One physical line, as the command line sees it.
pub enum ParsedCliLine {
    /// Blank, or skipped after a parse failure.
    Ignored,
    Record(Record),
}

/// The error that aborts a strict run: `line <n>: parse: <detail>`.
pub open spec fn strict_failure_text(line_num: u64, detail: Seq<char>) -> Seq<char> {
    "line "@ + nat_text(line_num as nat) + ": parse: "@ + detail
}

/// Parses physical line `line_num` under `hint`. A blank line is ignored. A
/// line that fails to parse aborts a strict run with an error; otherwise it
/// is reported to `diag` as skipped and ignored.
pub fn parse_cli_line<F: Fn(&str) -> FloatRepr, W: std::io::Write>(
    line: &str,
    line_num: u64,
    hint: CliInputHint,
    strict: bool,
    diag: &mut DiagnosticsSink<W>,
    read_float: &F,
) -> (r: Result<ParsedCliLine, String>)
    requires
        is_float_reader(*read_float),
        !strict ==> old(diag).skipped() < u64::MAX,
    ensures
        match cli_line(line@, hint, reader_fn(*read_float)) {
            None => r matches Ok(ParsedCliLine::Ignored) && *final(diag) == *old(diag),
            Some(Ok(m)) => r matches Ok(ParsedCliLine::Record(rec)) && rec.view() == m
                && rec.raw_view() == trim_unicode(line@) && *final(diag) == *old(diag),
            Some(Err(e)) => if strict {
                r matches Err(msg) && msg@ == strict_failure_text(line_num, e) && *final(diag)
                    == *old(diag)
            } else {
                &&& r matches Ok(ParsedCliLine::Ignored)
                &&& final(diag).skipped() == old(diag).skipped() + 1
                &&& final(diag).error_count() == old(diag).error_count()
                &&& final(diag).events() == old(diag).events().push(
                    WriteEvent::Text(skip_line_text(line_num, "parse: "@ + e)),
                )
            },
        },
{
    let (t, is_blank) = trimmed(line);
    if is_blank {
        return Ok(ParsedCliLine::Ignored);
    }
    let fmt = match hint {
        CliInputHint::Auto => sniff_this_line(t.as_str()),
        CliInputHint::Json => Format::JsonLines,
        CliInputHint::Logfmt => Format::Logfmt,
        CliInputHint::Plain => Format::Plain,
    };
    match parse_auto(t.as_str(), fmt, read_float) {
        Ok(rec) => Ok(ParsedCliLine::Record(rec)),
        Err(e) => {
            let msg = e.message();
            if strict {
                let mut out = String::from_str("line ");
                let num = u64_text(line_num);
                push_str(&mut out, num.as_str());
                push_str(&mut out, ": ");
                push_str(&mut out, msg.as_str());
                proof {
                    reveal_strlit(": ");
                    reveal_strlit("parse: ");
                    reveal_strlit(": parse: ");
                }
                assert(out@ =~= strict_failure_text(line_num, e.detail()));
                Err(out)
            } else {
                diag.record_skip(line_num, msg.as_str());
                Ok(ParsedCliLine::Ignored)
            }
        },
    }
}

} // verus!
