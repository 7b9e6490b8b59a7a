//! Format detection for line-oriented input, and parsing by detected format.

use vstd::prelude::*;
use crate::float::{FloatRepr, FloatView, is_float_reader, reader_fn};
use crate::parser::json::{json_line, parse_json_line};
use crate::parser::logfmt::{logfmt_line, parse_logfmt_line};
use crate::record::{Record, RecordError, Value, ValueView, yields};
use crate::text::{chars_of, is_unicode_ws_exec, trim_unicode, trim_chars, trim_start_index,
    span_vec, first_index_of, lemma_first_index_of};

verus! {

/// The principal format of line-oriented input.
#[derive(Debug, Clone, Copy, PartialEq, Eq, Structural)]
pub enum Format {
    JsonLines,
    Logfmt,
    Plain,
}

/// `[A-Za-z0-9_]`.
pub open spec fn is_word_char(c: char) -> bool {
    ('A' <= c <= 'Z') || ('a' <= c <= 'z') || ('0' <= c <= '9') || c == '_'
}

/// End of the run of word characters that starts at `i`.
pub open spec fn word_end(s: Seq<char>, i: int) -> int
    decreases s.len() - i,
{
    if 0 <= i < s.len() && is_word_char(s[i]) {
        word_end(s, i + 1)
    } else {
        i
    }
}

/// `s` starts with `word=`: one or more word characters, then `=`.
pub open spec fn word_key_equals_prefix(s: Seq<char>) -> bool {
    let w = word_end(s, 0);
    s.len() > 0 && is_word_char(s[0]) && w < s.len() && s[w] == '='
}

/// `str::trim_start`.
pub open spec fn trim_start(s: Seq<char>) -> Seq<char> {
    s.skip(trim_start_index(s, 0))
}

/// The format one line shows: a `{` after leading whitespace means JSON
/// lines; a line holding `=` that starts (after leading whitespace) with
/// `word=` means logfmt; anything else is plain text.
pub open spec fn line_format(line: Seq<char>) -> Format {
    let t = trim_start(line);
    if t.len() > 0 && t[0] == '{' {
        Format::JsonLines
    } else if first_index_of(line, '=') < line.len() && word_key_equals_prefix(t) {
        Format::Logfmt
    } else {
        Format::Plain
    }
}

/// End of the line that starts at `i`: the index of the next `\n`, or the
/// length.
pub open spec fn line_end(s: Seq<char>, i: int) -> int
    decreases s.len() - i,
{
    if 0 <= i < s.len() && s[i] != '\n' {
        line_end(s, i + 1)
    } else {
        i
    }
}

pub proof fn lemma_line_end(s: Seq<char>, i: int)
    requires
        0 <= i <= s.len(),
    ensures
        i <= line_end(s, i) <= s.len(),
        forall|k: int| i <= k < line_end(s, i) ==> #[trigger] s[k] != '\n',
        line_end(s, i) < s.len() ==> s[line_end(s, i)] == '\n',
    decreases s.len() - i,
{
    if i < s.len() && s[i] != '\n' {
        lemma_line_end(s, i + 1);
    }
}

/// The format of the first line from index `i` on that is not blank.
pub open spec fn sniff_from(s: Seq<char>, i: int) -> Format
    decreases s.len() - i,
{
    if i < 0 || i >= s.len() {
        Format::Plain
    } else {
        let e = line_end(s, i);
        proof {
            lemma_line_end(s, i);
        }
        let line = trim_unicode(s.subrange(i, e));
        if line.len() == 0 {
            if e >= s.len() {
                Format::Plain
            } else {
                sniff_from(s, e + 1)
            }
        } else {
            line_format(line)
        }
    }
}

/// The format of a whole input: that of its first line that is not blank,
/// and plain text when every line is blank.
pub open spec fn sniff_text(s: Seq<char>) -> Format {
    sniff_from(s, 0)
}

/// What parsing `line` as `fmt` gives: a JSON object's flattened fields, a
/// logfmt line's fields, or, for plain text, the one field `msg` holding
/// the line.
pub open spec fn auto_line(line: Seq<char>, fmt: Format, rd: spec_fn(Seq<char>) -> FloatView) -> Result<
    Map<Seq<char>, ValueView>,
    Seq<char>,
> {
    match fmt {
        Format::JsonLines => json_line(line, rd),
        Format::Logfmt => logfmt_line(line, rd),
        Format::Plain => Ok(map!["msg"@ => ValueView::Str(line)]),
    }
}

/// `[A-Za-z0-9_]` on one character.
pub fn is_word_byte(c: char) -> (r: bool)
    ensures
        r == is_word_char(c),
{
    ('A' <= c && c <= 'Z') || ('a' <= c && c <= 'z') || ('0' <= c && c <= '9') || c == '_'
}

/// Whether `v[from..]` starts with `word=`.
pub fn has_word_key_equals_prefix(v: &Vec<char>, from: usize) -> (r: bool)
    requires
        from <= v.len(),
    ensures
        r == word_key_equals_prefix(v@.skip(from as int)),
{
    let ghost s = v@.skip(from as int);
    if from >= v.len() || !is_word_byte(v[from]) {
        return false;
    }
    let mut i = from;
    while i < v.len() && is_word_byte(v[i])
        invariant
            from <= i <= v.len(),
            s == v@.skip(from as int),
            word_end(s, i - from) == word_end(s, 0),
        decreases v.len() - i,
    {
        assert(s[i - from] == v@[i as int]);
        i += 1;
    }
    proof {
        if i < v.len() {
            assert(s[i - from] == v@[i as int]);
        }
    }
    i < v.len() && v[i] == '='
}

/// Whether `v` holds the character `c`.
fn contains_char(v: &Vec<char>, c: char) -> (r: bool)
    ensures
        r == (first_index_of(v@, c) < v@.len()),
{
    let mut i: usize = 0;
    while i < v.len()
        invariant
            i <= v.len(),
            forall|k: int| 0 <= k < i ==> v@[k] != c,
        decreases v.len() - i,
    {
        if v[i] == c {
            proof {
                lemma_first_index_of(v@, c);
            }
            return true;
        }
        i += 1;
    }
    proof {
        lemma_first_index_of(v@, c);
    }
    false
}

/// The format one line shows.
pub fn line_format_exec(line: &Vec<char>) -> (r: Format)
    ensures
        r == line_format(line@),
{
    let mut a: usize = 0;
    while a < line.len() && is_unicode_ws_exec(line[a])
        invariant
            a <= line.len(),
            trim_start_index(line@, a as int) == trim_start_index(line@, 0),
        decreases line.len() - a,
    {
        a += 1;
    }
    let ghost t = trim_start(line@);
    assert(t == line@.skip(a as int));
    if a < line.len() && line[a] == '{' {
        return Format::JsonLines;
    }
    if contains_char(line, '=') && has_word_key_equals_prefix(line, a) {
        return Format::Logfmt;
    }
    Format::Plain
}

/// The format of `input`, decided by its first line that is not blank;
/// plain text when there is none.
pub fn sniff(input: &str) -> (r: Format)
    ensures
        r == sniff_text(input@),
{
    let v = chars_of(input);
    let mut i: usize = 0;
    while i < v.len()
        invariant
            v@ == input@,
            i <= v.len(),
            sniff_from(v@, i as int) == sniff_from(v@, 0),
        decreases v.len() - i,
    {
        let mut e = i;
        while e < v.len() && v[e] != '\n'
            invariant
                i <= e <= v.len(),
                line_end(v@, e as int) == line_end(v@, i as int),
            decreases v.len() - e,
        {
            e += 1;
        }
        let line = trim_chars(&span_vec(&v, i, e));
        if line.len() > 0 {
            return line_format_exec(&line);
        }
        proof {
            lemma_line_end(v@, i as int);
        }
        if e >= v.len() {
            return Format::Plain;
        }
        i = e + 1;
    }
    Format::Plain
}

/// Parses `line` as `fmt`: JSON lines and logfmt by their parsers, plain
/// text as one field `msg` holding the whole line.
pub fn parse_auto<F: Fn(&str) -> FloatRepr>(line: &str, fmt: Format, read_float: &F) -> (r: Result<
    Record,
    RecordError,
>)
    requires
        is_float_reader(*read_float),
    ensures
        yields(r, line@, auto_line(line@, fmt, reader_fn(*read_float))),
{
    match fmt {
        Format::JsonLines => parse_json_line(line, read_float),
        Format::Logfmt => parse_logfmt_line(line, read_float),
        Format::Plain => {
            let mut record = Record::new(line);
            record.insert(String::from_str("msg"), Value::Str(line.to_owned()));
            assert(record.view() =~= map!["msg"@ => ValueView::Str(line@)]);
            Ok(record)
        },
    }
}

} // verus!
