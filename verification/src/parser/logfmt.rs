//! One [logfmt](https://brandur.org/logfmt) line into a [`Record`].
//!
//! Pairs are `key=value`, separated by ASCII whitespace. A double-quoted
//! value may hold spaces and the escapes `\"` and `\\`. A bare value is typed
//! as `bool` (`true` / `false`), `i64`, a float, or else a string. The line
//! itself is kept as the record's raw text.

use vstd::prelude::*;
use crate::float::{FloatRepr, FloatView, is_float_reader, reader_fn, read_float};
use crate::record::{Record, RecordError, Value, ValueView};
use crate::text::{chars_of, string_of, trim_chars, is_ascii_ws, is_ascii_ws_exec, trim_unicode,
    parse_i64_text, parse_i64_chars, is_float_text, is_float_text_exec, span_is, nat_text, u64_text,
    byte_offset, byte_offset_exec, push_str, span_vec};

verus! {

/// End of the run of ASCII whitespace that starts at `i`.
pub open spec fn ascii_ws_end(s: Seq<char>, i: int) -> int
    decreases s.len() - i,
{
    if 0 <= i < s.len() && is_ascii_ws(s[i]) {
        ascii_ws_end(s, i + 1)
    } else {
        i
    }
}

/// End of the run of characters other than ASCII whitespace that starts at `i`.
pub open spec fn token_end(s: Seq<char>, i: int) -> int
    decreases s.len() - i,
{
    if 0 <= i < s.len() && !is_ascii_ws(s[i]) {
        token_end(s, i + 1)
    } else {
        i
    }
}

/// Index of the first `=` at or after `i`, or the length of `s` if there is none.
pub open spec fn eq_index(s: Seq<char>, i: int) -> int
    decreases s.len() - i,
{
    if 0 <= i < s.len() && s[i] != '=' {
        eq_index(s, i + 1)
    } else {
        i
    }
}

pub proof fn lemma_ascii_ws_end(s: Seq<char>, i: int)
    requires
        0 <= i <= s.len(),
    ensures
        i <= ascii_ws_end(s, i) <= s.len(),
        forall|k: int| i <= k < ascii_ws_end(s, i) ==> is_ascii_ws(#[trigger] s[k]),
        ascii_ws_end(s, i) < s.len() ==> !is_ascii_ws(s[ascii_ws_end(s, i)]),
    decreases s.len() - i,
{
    if i < s.len() && is_ascii_ws(s[i]) {
        lemma_ascii_ws_end(s, i + 1);
    }
}

pub proof fn lemma_token_end(s: Seq<char>, i: int)
    requires
        0 <= i <= s.len(),
    ensures
        i <= token_end(s, i) <= s.len(),
        forall|k: int| i <= k < token_end(s, i) ==> !is_ascii_ws(#[trigger] s[k]),
        token_end(s, i) < s.len() ==> is_ascii_ws(s[token_end(s, i)]),
    decreases s.len() - i,
{
    if i < s.len() && !is_ascii_ws(s[i]) {
        lemma_token_end(s, i + 1);
    }
}

pub proof fn lemma_eq_index(s: Seq<char>, i: int)
    requires
        0 <= i <= s.len(),
    ensures
        i <= eq_index(s, i) <= s.len(),
        forall|k: int| i <= k < eq_index(s, i) ==> #[trigger] s[k] != '=',
        eq_index(s, i) < s.len() ==> s[eq_index(s, i)] == '=',
    decreases s.len() - i,
{
    if i < s.len() && s[i] != '=' {
        lemma_eq_index(s, i + 1);
    }
}

pub open spec fn msg_unclosed() -> Seq<char> {
    "unclosed quoted value"@
}

pub open spec fn msg_dangling() -> Seq<char> {
    "dangling backslash in quoted value"@
}

pub open spec fn msg_bad_escape(c: char) -> Seq<char> {
    "unsupported escape sequence in quoted value: \\"@.push(c)
}

pub open spec fn msg_empty_key() -> Seq<char> {
    "empty field name"@
}

pub open spec fn msg_empty_bare() -> Seq<char> {
    "empty bare value"@
}

pub open spec fn msg_missing_eq(byte: nat) -> Seq<char> {
    "expected '=' in field starting at byte "@ + nat_text(byte)
}

/// The body of a quoted value from index `k` (just after the opening quote,
/// or after text `acc` already read): the text and the index after the
/// closing quote, or the error.
pub open spec fn quoted_text(s: Seq<char>, k: int, acc: Seq<char>) -> Result<(Seq<char>, int), Seq<char>>
    decreases s.len() - k,
{
    if k < 0 || k >= s.len() {
        Err(msg_unclosed())
    } else if s[k] == '"' {
        Ok((acc, k + 1))
    } else if s[k] == '\\' {
        if k + 1 >= s.len() {
            Err(msg_dangling())
        } else if s[k + 1] == '"' || s[k + 1] == '\\' {
            quoted_text(s, k + 2, acc.push(s[k + 1]))
        } else {
            Err(msg_bad_escape(s[k + 1]))
        }
    } else {
        quoted_text(s, k + 1, acc.push(s[k]))
    }
}

pub proof fn lemma_quoted_text(s: Seq<char>, k: int, acc: Seq<char>)
    requires
        0 <= k,
    ensures
        quoted_text(s, k, acc) matches Ok((t, n)) ==> k < n <= s.len(),
    decreases s.len() - k,
{
    if 0 <= k < s.len() && s[k] != '"' {
        if s[k] == '\\' {
            if k + 1 < s.len() && (s[k + 1] == '"' || s[k + 1] == '\\') {
                lemma_quoted_text(s, k + 2, acc.push(s[k + 1]));
            }
        } else {
            lemma_quoted_text(s, k + 1, acc.push(s[k]));
        }
    }
}

/// The type a bare value is given: `true` / `false`, an `i64`, a float (read
/// by `rd`), or else the text itself.
pub open spec fn bare_value(t: Seq<char>, rd: spec_fn(Seq<char>) -> FloatView) -> ValueView {
    if t == seq!['t', 'r', 'u', 'e'] {
        ValueView::Bool(true)
    } else if t == seq!['f', 'a', 'l', 's', 'e'] {
        ValueView::Bool(false)
    } else if parse_i64_text(t) is Some {
        ValueView::Int(parse_i64_text(t)->0)
    } else if is_float_text(t) {
        ValueView::Float(rd(t))
    } else {
        ValueView::Str(t)
    }
}

/// The value that starts at index `v` (just after `=`), with the index where
/// it ends.
pub open spec fn logfmt_value(s: Seq<char>, v: int, rd: spec_fn(Seq<char>) -> FloatView) -> Result<
    (ValueView, int),
    Seq<char>,
> {
    if 0 <= v < s.len() && s[v] == '"' {
        match quoted_text(s, v + 1, Seq::empty()) {
            Ok((t, n)) => Ok((ValueView::Str(t), n)),
            Err(e) => Err(e),
        }
    } else {
        let j = token_end(s, v);
        if j == v {
            Err(msg_empty_bare())
        } else {
            Ok((bare_value(s.subrange(v, j), rd), j))
        }
    }
}

pub proof fn lemma_logfmt_value(s: Seq<char>, v: int, rd: spec_fn(Seq<char>) -> FloatView)
    requires
        0 <= v <= s.len(),
    ensures
        logfmt_value(s, v, rd) matches Ok((x, n)) ==> v < n <= s.len(),
{
    if v < s.len() && s[v] == '"' {
        lemma_quoted_text(s, v + 1, Seq::empty());
    } else {
        lemma_token_end(s, v);
    }
}

/// The fields of the pairs from index `i` on, added to `acc` in order (a
/// later pair replaces an earlier one of the same name), or the first error.
pub open spec fn logfmt_fields(
    s: Seq<char>,
    i: int,
    acc: Map<Seq<char>, ValueView>,
    rd: spec_fn(Seq<char>) -> FloatView,
) -> Result<Map<Seq<char>, ValueView>, Seq<char>>
    decreases s.len() - i,
{
    if i < 0 || i >= s.len() {
        Ok(acc)
    } else {
        let eq = eq_index(s, i);
        if eq >= s.len() {
            Err(msg_missing_eq(byte_offset(s, i) as nat))
        } else {
            let key = trim_unicode(s.subrange(i, eq));
            if key.len() == 0 {
                Err(msg_empty_key())
            } else {
                proof {
                    lemma_eq_index(s, i);
                    lemma_logfmt_value(s, eq + 1, rd);
                }
                match logfmt_value(s, eq + 1, rd) {
                    Err(e) => Err(e),
                    Ok((val, next)) => {
                        proof {
                            lemma_ascii_ws_end(s, next);
                        }
                        logfmt_fields(s, ascii_ws_end(s, next), acc.insert(key, val), rd)
                    },
                }
            }
        }
    }
}

/// The fields of a logfmt line, or the error message.
pub open spec fn logfmt_line(s: Seq<char>, rd: spec_fn(Seq<char>) -> FloatView) -> Result<
    Map<Seq<char>, ValueView>,
    Seq<char>,
> {
    logfmt_fields(s, ascii_ws_end(s, 0), Map::empty(), rd)
}

/// Skips ASCII whitespace from `i`.
fn skip_ws(v: &Vec<char>, i: usize) -> (r: usize)
    requires
        i <= v.len(),
    ensures
        r == ascii_ws_end(v@, i as int),
        i <= r <= v.len(),
{
    let mut j = i;
    while j < v.len() && is_ascii_ws_exec(v[j])
        invariant
            i <= j <= v.len(),
            ascii_ws_end(v@, j as int) == ascii_ws_end(v@, i as int),
        decreases v.len() - j,
    {
        j += 1;
    }
    j
}

/// Index of the first `=` at or after `start`, or the length.
fn find_eq(v: &Vec<char>, start: usize) -> (r: usize)
    requires
        start <= v.len(),
    ensures
        r == eq_index(v@, start as int),
        start <= r <= v.len(),
{
    let mut j = start;
    while j < v.len() && v[j] != '='
        invariant
            start <= j <= v.len(),
            eq_index(v@, j as int) == eq_index(v@, start as int),
        decreases v.len() - j,
    {
        j += 1;
    }
    j
}

/// Types the bare token `v[from..to]`.
fn infer_bare_value<F: Fn(&str) -> FloatRepr>(v: &Vec<char>, from: usize, to: usize, read: &F) -> (r:
    Value)
    requires
        from <= to <= v.len(),
        is_float_reader(*read),
    ensures
        r@ == bare_value(v@.subrange(from as int, to as int), reader_fn(*read)),
{
    let ghost t = v@.subrange(from as int, to as int);
    if span_is(v, from, to, &['t', 'r', 'u', 'e']) {
        return Value::Bool(true);
    }
    if span_is(v, from, to, &['f', 'a', 'l', 's', 'e']) {
        return Value::Bool(false);
    }
    if let Some(n) = parse_i64_chars(v, from, to) {
        return Value::Int(n);
    }
    let text = string_of(v, from, to);
    if is_float_text_exec(v, from, to) {
        return Value::Float(read_float(read, text.as_str()));
    }
    Value::Str(text)
}

/// The bare value starting at `start`, and the index where it ends.
fn parse_bare_value<F: Fn(&str) -> FloatRepr>(v: &Vec<char>, start: usize, read: &F) -> (r: Result<
    (Value, usize),
    RecordError,
>)
    requires
        start <= v.len(),
        is_float_reader(*read),
        !(start < v.len() && v@[start as int] == '"'),
    ensures
        match logfmt_value(v@, start as int, reader_fn(*read)) {
            Ok((x, n)) => r matches Ok((y, m)) && y@ == x && m == n,
            Err(e) => r matches Err(y) && y.detail() == e,
        },
{
    let mut j = start;
    while j < v.len() && !is_ascii_ws_exec(v[j])
        invariant
            start <= j <= v.len(),
            token_end(v@, j as int) == token_end(v@, start as int),
        decreases v.len() - j,
    {
        j += 1;
    }
    if j == start {
        return Err(RecordError::Parse(String::from_str("empty bare value")));
    }
    Ok((infer_bare_value(v, start, j, read), j))
}

/// The quoted value whose opening quote is at `open_idx`, and the index after
/// its closing quote.
fn parse_double_quoted(v: &Vec<char>, open_idx: usize) -> (r: Result<(Value, usize), RecordError>)
    requires
        open_idx < v.len(),
        v@[open_idx as int] == '"',
    ensures
        match quoted_text(v@, open_idx + 1, Seq::empty()) {
            Ok((t, n)) => r matches Ok((y, m)) && y@ == ValueView::Str(t) && m == n,
            Err(e) => r matches Err(y) && y.detail() == e,
        },
{
    let mut out = String::new();
    let mut k = open_idx + 1;
    while k < v.len()
        invariant
            open_idx < k <= v.len(),
            quoted_text(v@, k as int, out@) == quoted_text(v@, open_idx + 1, Seq::empty()),
        decreases v.len() - k,
    {
        let c = v[k];
        if c == '"' {
            return Ok((Value::Str(out), k + 1));
        } else if c == '\\' {
            if k + 1 >= v.len() {
                return Err(RecordError::Parse(String::from_str("dangling backslash in quoted value")));
            }
            let d = v[k + 1];
            if d == '"' || d == '\\' {
                out.push(d);
                k = k + 2;
            } else {
                let mut msg = String::from_str("unsupported escape sequence in quoted value: \\");
                msg.push(d);
                return Err(RecordError::Parse(msg));
            }
        } else {
            out.push(c);
            k = k + 1;
        }
    }
    Err(RecordError::Parse(String::from_str("unclosed quoted value")))
}

/// Parses one logfmt line. Floats in bare values are read with `read_float`.
pub fn parse_logfmt_line<F: Fn(&str) -> FloatRepr>(s: &str, read_float: &F) -> (r: Result<
    Record,
    RecordError,
>)
    requires
        is_float_reader(*read_float),
    ensures
        match logfmt_line(s@, reader_fn(*read_float)) {
            Ok(m) => r matches Ok(rec) && rec.view() == m && rec.raw_view() == s@,
            Err(e) => r matches Err(x) && x.detail() == e,
        },
{
    let ghost rd = reader_fn(*read_float);
    let v = chars_of(s);
    let mut record = Record::new(s);
    let mut i = skip_ws(&v, 0);
    while i < v.len()
        invariant
            v@ == s@,
            i <= v.len(),
            is_float_reader(*read_float),
            rd == reader_fn(*read_float),
            record.raw_view() == s@,
            logfmt_fields(s@, i as int, record.view(), rd) == logfmt_line(s@, rd),
        decreases v.len() - i,
    {
        let eq = find_eq(&v, i);
        if eq >= v.len() {
            let off = byte_offset_exec(s, &v, i);
            let mut msg = String::from_str("expected '=' in field starting at byte ");
            let num = u64_text(off as u64);
            push_str(&mut msg, num.as_str());
            return Err(RecordError::Parse(msg));
        }
        let key_span = span_vec(&v, i, eq);
        let key = trim_chars(&key_span);
        if key.len() == 0 {
            return Err(RecordError::Parse(String::from_str("empty field name")));
        }
        proof {
            lemma_eq_index(s@, i as int);
            lemma_logfmt_value(s@, eq + 1, rd);
        }
        let item = if eq + 1 < v.len() && v[eq + 1] == '"' {
            parse_double_quoted(&v, eq + 1)
        } else {
            parse_bare_value(&v, eq + 1, read_float)
        };
        match item {
            Err(e) => {
                return Err(e);
            },
            Ok((value, next)) => {
                let name = string_of(&key, 0, key.len());
                assert(key@.subrange(0, key.len() as int) =~= key@);
                record.insert(name, value);
                proof {
                    lemma_ascii_ws_end(s@, next as int);
                }
                i = skip_ws(&v, next);
            },
        }
    }
    Ok(record)
}

} // verus!
