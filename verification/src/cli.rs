//! The decisions of the command line: which output a run produces, how its
//! lines are parsed, which fields are projected, and how a record becomes a
//! table row. Reading files and writing output are the program's.

use vstd::prelude::*;
use crate::diagnostics::DiagnosticsSink;
use crate::float::{FloatRepr, is_float_reader, reader_fn};
use crate::follow::{FollowParseSpec, line_outcome};
use crate::output::color::{ColorWriter, colorized};
use crate::output::row::Row;
use crate::output::table::{scalar_display, record_scalar_display};
use crate::parser::detect::{Format, line_end, lemma_line_end};
use crate::parser::resilience::{CliInputHint, ParsedCliLine, parse_cli_line};
use crate::keyed::{entries_map, keys_strictly_sorted, lemma_insert_map};
use crate::query::ast::Expr;
use crate::record::{Record, Value, ValueView};
use crate::text::{chars_of, string_of, trim_chars, trim_unicode, span_is, span_vec};

verus! {

/// The `--format` option.
#[derive(Clone, Copy, Debug, PartialEq, Eq, Structural)]
pub enum OutputFormat {
    /// A table on a terminal, JSON otherwise.
    Auto,
    Json,
    Table,
    Count,
}

/// The `--input` option.
#[derive(Clone, Copy, Debug, PartialEq, Eq, Structural)]
pub enum InputHint {
    Auto,
    Json,
    Logfmt,
    Plain,
}

/// The output a run produces.
#[derive(Clone, Copy, Debug, PartialEq, Eq, Structural)]
pub enum EffectiveOutput {
    Json,
    Table,
    Count,
}

pub open spec fn resolved(sel: OutputFormat, stdout_tty: bool) -> EffectiveOutput {
    match sel {
        OutputFormat::Json => EffectiveOutput::Json,
        OutputFormat::Table => EffectiveOutput::Table,
        OutputFormat::Count => EffectiveOutput::Count,
        OutputFormat::Auto => if stdout_tty {
            EffectiveOutput::Table
        } else {
            EffectiveOutput::Json
        },
    }
}

/// The output for `--format sel`: `auto` is a table on a terminal and JSON
/// otherwise.
pub fn resolve_output(sel: OutputFormat, stdout_tty: bool) -> (r: EffectiveOutput)
    ensures
        r == resolved(sel, stdout_tty),
{
    match sel {
        OutputFormat::Json => EffectiveOutput::Json,
        OutputFormat::Table => EffectiveOutput::Table,
        OutputFormat::Count => EffectiveOutput::Count,
        OutputFormat::Auto => {
            if stdout_tty {
                EffectiveOutput::Table
            } else {
                EffectiveOutput::Json
            }
        },
    }
}

/// The line-parsing hint of `--input`.
pub fn cli_input_hint(h: InputHint) -> (r: CliInputHint)
    ensures
        r == match h {
            InputHint::Auto => CliInputHint::Auto,
            InputHint::Json => CliInputHint::Json,
            InputHint::Logfmt => CliInputHint::Logfmt,
            InputHint::Plain => CliInputHint::Plain,
        },
{
    match h {
        InputHint::Auto => CliInputHint::Auto,
        InputHint::Json => CliInputHint::Json,
        InputHint::Logfmt => CliInputHint::Logfmt,
        InputHint::Plain => CliInputHint::Plain,
    }
}

/// How `--follow` parses lines under `--input`.
pub fn follow_parse_spec(h: InputHint) -> (r: FollowParseSpec)
    ensures
        r == match h {
            InputHint::Auto => FollowParseSpec::AutoPerLine,
            InputHint::Json => FollowParseSpec::Fixed(Format::JsonLines),
            InputHint::Logfmt => FollowParseSpec::Fixed(Format::Logfmt),
            InputHint::Plain => FollowParseSpec::Fixed(Format::Plain),
        },
{
    match h {
        InputHint::Auto => FollowParseSpec::AutoPerLine,
        InputHint::Json => FollowParseSpec::Fixed(Format::JsonLines),
        InputHint::Logfmt => FollowParseSpec::Fixed(Format::Logfmt),
        InputHint::Plain => FollowParseSpec::Fixed(Format::Plain),
    }
}

/// Index of the next `,` at or after `i`, or the length.
pub open spec fn comma_end(s: Seq<char>, i: int) -> int
    decreases s.len() - i,
{
    if 0 <= i < s.len() && s[i] != ',' {
        comma_end(s, i + 1)
    } else {
        i
    }
}

pub proof fn lemma_comma_end(s: Seq<char>, i: int)
    requires
        0 <= i <= s.len(),
    ensures
        i <= comma_end(s, i) <= s.len(),
        comma_end(s, i) < s.len() ==> s[comma_end(s, i)] == ',',
    decreases s.len() - i,
{
    if i < s.len() && s[i] != ',' {
        lemma_comma_end(s, i + 1);
    }
}

/// The comma-separated names from index `i` on, trimmed, without empty ones.
pub open spec fn field_list(s: Seq<char>, i: int) -> Seq<Seq<char>>
    decreases s.len() - i,
{
    if i < 0 || i > s.len() {
        Seq::empty()
    } else {
        let e = comma_end(s, i);
        proof {
            lemma_comma_end(s, i);
        }
        let piece = trim_unicode(s.subrange(i, e));
        let rest = if e < s.len() {
            field_list(s, e + 1)
        } else {
            Seq::<Seq<char>>::empty()
        };
        if piece.len() > 0 {
            seq![piece] + rest
        } else {
            rest
        }
    }
}

/// The `--field` projection: the comma-separated names of `sel`, trimmed,
/// empty ones dropped; `None` when there is no option or no name.
pub fn parsed_fields(sel: Option<&String>) -> (r: Option<Vec<String>>)
    ensures
        match sel {
            None => r is None,
            Some(s) => {
                let names = field_list(s@, 0);
                if names.len() == 0 {
                    r is None
                } else {
                    r matches Some(v) && v@.map_values(|n: String| n@) == names
                }
            },
        },
{
    let inner = match sel {
        None => {
            return None;
        },
        Some(s) => s,
    };
    let v = chars_of(inner.as_str());
    let ghost s = v@;
    let mut out: Vec<String> = Vec::new();
    let mut i: usize = 0;
    loop
        invariant_except_break
            i <= v.len(),
            out@.map_values(|n: String| n@) + field_list(s, i as int) == field_list(s, 0),
        invariant
            s == v@,
            s == inner@,
        ensures
            out@.map_values(|n: String| n@) == field_list(s, 0),
        decreases v.len() - i,
    {
        let mut e = i;
        while e < v.len() && v[e] != ','
            invariant
                i <= e <= v.len(),
                comma_end(s, e as int) == comma_end(s, i as int),
                s == v@,
            decreases v.len() - e,
        {
            e += 1;
        }
        proof {
            lemma_comma_end(s, i as int);
        }
        let piece = trim_chars(&span_vec(&v, i, e));
        let ghost before = out@.map_values(|n: String| n@);
        if piece.len() > 0 {
            let name = string_of(&piece, 0, piece.len());
            assert(piece@.subrange(0, piece.len() as int) =~= piece@);
            out.push(name);
            assert(out@.map_values(|n: String| n@) =~= before.push(piece@));
        }
        if e >= v.len() {
            proof {
                let rest = field_list(s, i as int);
                if piece.len() > 0 {
                    assert(rest =~= seq![piece@]);
                } else {
                    assert(rest =~= Seq::<Seq<char>>::empty());
                }
                assert(out@.map_values(|n: String| n@) =~= before + rest);
            }
            break;
        }
        proof {
            let rest = field_list(s, (e + 1) as int);
            if piece.len() > 0 {
                assert(field_list(s, i as int) == seq![piece@] + rest);
                assert(before.push(piece@) + rest =~= before + (seq![piece@] + rest));
            }
        }
        i = e + 1;
    }
    let ghost names = field_list(s, 0);
    assert(out@.map_values(|n: String| n@) == names);
    if out.len() == 0 {
        None
    } else {
        Some(out)
    }
}

/// The fields of `fields` restricted to the names listed.
pub open spec fn projection(fields: Map<Seq<char>, ValueView>, names: Seq<Seq<char>>) -> Map<
    Seq<char>,
    ValueView,
> {
    fields.restrict(names.to_set())
}

/// A record with the raw input line and only the listed fields it has.
pub fn projected_record(r: &Record, fields: &Vec<String>) -> (out: Record)
    ensures
        out.view() == projection(r.view(), fields@.map_values(|n: String| n@)),
        out.raw_view() == r.raw_view(),
{
    let ghost names = fields@.map_values(|n: String| n@);
    let mut out = Record::new(r.raw());
    let mut i: usize = 0;
    assert(r.view().restrict(names.take(0).to_set()) =~= Map::<Seq<char>, ValueView>::empty());
    while i < fields.len()
        invariant
            i <= fields.len(),
            names == fields@.map_values(|n: String| n@),
            out.raw_view() == r.raw_view(),
            out.view() == r.view().restrict(names.take(i as int).to_set()),
        decreases fields.len() - i,
    {
        let name = &fields[i];
        proof {
            let t1 = names.take(i + 1);
            let t0 = names.take(i as int);
            assert(t1 =~= t0.push(name@));
            assert forall|k: Seq<char>| t1.contains(k) <==> (t0.contains(k) || k == name@) by {
                if t1.contains(k) {
                    let j = choose|j: int| 0 <= j < t1.len() && #[trigger] t1[j] == k;
                    if j < i {
                        assert(t0[j] == k);
                    }
                }
                if t0.contains(k) {
                    let j = choose|j: int| 0 <= j < t0.len() && #[trigger] t0[j] == k;
                    assert(t1[j] == k);
                }
                if k == name@ {
                    assert(t1[i as int] == k);
                }
            }
            assert(t1.to_set() =~= t0.to_set().insert(name@));
        }
        match r.get(name.as_str()) {
            Some(v) => {
                out.insert(name.clone(), v.duplicate());
                assert(out.view() =~= r.view().restrict(names.take(i + 1).to_set()));
            },
            None => {
                assert(out.view() =~= r.view().restrict(names.take(i + 1).to_set()));
            },
        }
        i += 1;
    }
    assert(names.take(fields.len() as int) =~= names);
    out
}

/// The text a table shows for field `name`: the level is colored when
/// `color` is on.
pub open spec fn shown(name: Seq<char>, v: ValueView, color: bool) -> Seq<char> {
    if name == seq!['l', 'e', 'v', 'e', 'l'] {
        colorized(scalar_display(v), color)
    } else {
        scalar_display(v)
    }
}

/// The row of a record: with a projection, a cell per listed name (the raw
/// line for `_raw`, empty where the record lacks the field); without, a cell
/// per field and `_raw`.
pub open spec fn row_of(
    fields: Map<Seq<char>, ValueView>,
    raw: Seq<char>,
    color: bool,
    names: Option<Seq<Seq<char>>>,
) -> Map<Seq<char>, Seq<char>> {
    match names {
        Some(ns) => Map::new(|k: Seq<char>| ns.contains(k), |k: Seq<char>| listed_cell(fields, raw, color, k)),
        None => Map::new(|k: Seq<char>| fields.contains_key(k), |k: Seq<char>| shown(k, fields[k], color)).insert(
            "_raw"@,
            raw,
        ),
    }
}

/// The cell of listed column `k`: the raw line for `_raw`, else the field's
/// text, or empty where the record lacks the field.
pub open spec fn listed_cell(
    fields: Map<Seq<char>, ValueView>,
    raw: Seq<char>,
    color: bool,
    k: Seq<char>,
) -> Seq<char> {
    if k == "_raw"@ {
        raw
    } else if fields.contains_key(k) {
        shown(k, fields[k], color)
    } else {
        Seq::empty()
    }
}

/// Whether `name` is `_raw`.
fn is_raw_name(name: &str) -> (r: bool)
    ensures
        r == (name@ == "_raw"@),
{
    let v = chars_of(name);
    assert(v@.subrange(0, v.len() as int) =~= v@);
    proof {
        reveal_strlit("_raw");
        assert("_raw"@ =~= seq!['_', 'r', 'a', 'w']);
    }
    span_is(&v, 0, v.len(), &['_', 'r', 'a', 'w'])
}

/// Whether the output shows the raw line: always without a projection, and
/// with one only when it lists `_raw`.
pub open spec fn shows_raw(names: Option<Seq<Seq<char>>>) -> bool {
    match names {
        None => true,
        Some(ns) => ns.contains("_raw"@),
    }
}

/// Whether a run with this field projection shows the raw line.
pub fn raw_shown(projection: Option<&Vec<String>>) -> (r: bool)
    ensures
        r == shows_raw(
            match projection {
                Some(p) => Some(p@.map_values(|n: String| n@)),
                None => None,
            },
        ),
{
    match projection {
        None => true,
        Some(p) => {
            let ghost ns = p@.map_values(|n: String| n@);
            let mut found = false;
            let mut i: usize = 0;
            while i < p.len()
                invariant
                    i <= p.len(),
                    ns == p@.map_values(|n: String| n@),
                    found == ns.take(i as int).contains("_raw"@),
                decreases p.len() - i,
            {
                let is_raw = is_raw_name(p[i].as_str());
                proof {
                    assert(ns[i as int] == p@[i as int]@);
                    assert(ns.take(i + 1) =~= ns.take(i as int).push(ns[i as int]));
                    let t1 = ns.take(i + 1);
                    let t0 = ns.take(i as int);
                    if t1.contains("_raw"@) {
                        let j = choose|j: int| 0 <= j < t1.len() && #[trigger] t1[j] == "_raw"@;
                        if j < i {
                            assert(ns.take(i as int)[j] == "_raw"@);
                        }
                    }
                    if t0.contains("_raw"@) {
                        let j = choose|j: int| 0 <= j < t0.len() && #[trigger] t0[j] == "_raw"@;
                        assert(ns.take(i + 1)[j] == "_raw"@);
                    }
                    if is_raw {
                        assert(ns.take(i + 1)[i as int] == "_raw"@);
                    }
                }
                found = found || is_raw;
                i += 1;
            }
            assert(ns.take(p.len() as int) =~= ns);
            found
        },
    }
}

/// Whether `name` is `level`.
fn is_level(name: &str) -> (r: bool)
    ensures
        r == (name@ == seq!['l', 'e', 'v', 'e', 'l']),
{
    let v = chars_of(name);
    assert(v@.subrange(0, v.len() as int) =~= v@);
    span_is(&v, 0, v.len(), &['l', 'e', 'v', 'e', 'l'])
}

/// The table cell of field `name`.
fn shown_exec(styler: &ColorWriter<()>, name: &str, v: &Value) -> (r: String)
    ensures
        r@ == shown(name@, v@, styler.enabled()),
{
    let scalar = record_scalar_display(v);
    if is_level(name) {
        styler.colorize_level(scalar.as_str())
    } else {
        scalar
    }
}

/// The table row of a record.
pub fn record_to_row(r: &Record, color_stdout: bool, projection: Option<&Vec<String>>) -> (row: Row)
    ensures
        row@ == row_of(
            r.view(),
            r.raw_view(),
            color_stdout,
            match projection {
                Some(p) => Some(p@.map_values(|n: String| n@)),
                None => None,
            },
        ),
{
    let styler = ColorWriter::with_enabled((), color_stdout);
    let mut row = Row::new();
    match projection {
        Some(proj) => {
            let ghost ns = proj@.map_values(|n: String| n@);
            let mut i: usize = 0;
            assert(row@ =~= Map::new(
                |k: Seq<char>| ns.take(0).contains(k),
                |k: Seq<char>| listed_cell(r.view(), r.raw_view(), color_stdout, k),
            ));
            while i < proj.len()
                invariant
                    i <= proj.len(),
                    ns == proj@.map_values(|n: String| n@),
                    styler.enabled() == color_stdout,
                    row@ == Map::new(
                        |k: Seq<char>| ns.take(i as int).contains(k),
                        |k: Seq<char>| listed_cell(r.view(), r.raw_view(), color_stdout, k),
                    ),
                decreases proj.len() - i,
            {
                let name = &proj[i];
                let cell = if is_raw_name(name.as_str()) {
                    r.raw().to_owned()
                } else {
                    match r.get(name.as_str()) {
                        None => String::new(),
                        Some(v) => shown_exec(&styler, name.as_str(), v),
                    }
                };
                row.insert(name.clone(), cell);
                proof {
                    assert(ns.take(i + 1) =~= ns.take(i as int).push(name@));
                    let t1 = ns.take(i + 1);
                    let t0 = ns.take(i as int);
                    assert forall|k: Seq<char>| t1.contains(k) <==> (t0.contains(k) || k == name@) by {
                        if t1.contains(k) {
                            let j = choose|j: int| 0 <= j < t1.len() && #[trigger] t1[j] == k;
                            if j < i {
                                assert(t0[j] == k);
                            }
                        }
                        if t0.contains(k) {
                            let j = choose|j: int| 0 <= j < t0.len() && #[trigger] t0[j] == k;
                            assert(t1[j] == k);
                        }
                        if k == name@ {
                            assert(t1[i as int] == k);
                        }
                    }
                }
                assert(row@ =~= Map::new(
                    |k: Seq<char>| ns.take(i + 1).contains(k),
                    |k: Seq<char>| listed_cell(r.view(), r.raw_view(), color_stdout, k),
                ));
                i += 1;
            }
            assert(ns.take(proj.len() as int) =~= ns);
        },
        None => {
            let fields = r.iter();
            let ghost e = r.entries();
            let mut i: usize = 0;
            assert(entries_map(e.take(0)) =~= Map::<Seq<char>, ValueView>::empty());
            assert(row@ =~= Map::new(
                |k: Seq<char>| entries_map(e.take(0)).contains_key(k),
                |k: Seq<char>| shown(k, entries_map(e.take(0))[k], color_stdout),
            ));
            while i < fields.len()
                invariant
                    i <= fields.len(),
                    fields.len() == e.len(),
                    e == r.entries(),
                    keys_strictly_sorted(e),
                    styler.enabled() == color_stdout,
                    forall|k: int|
                        0 <= k < fields.len() ==> (#[trigger] fields[k]).name@ == e[k].0
                            && fields[k].value@ == e[k].1,
                    row@ == Map::new(
                        |k: Seq<char>| entries_map(e.take(i as int)).contains_key(k),
                        |k: Seq<char>| shown(k, entries_map(e.take(i as int))[k], color_stdout),
                    ),
                decreases fields.len() - i,
            {
                let f = fields[i];
                let cell = shown_exec(&styler, f.name, f.value);
                row.insert(f.name.to_owned(), cell);
                proof {
                    let k = e[i as int].0;
                    let v = e[i as int].1;
                    let t = e.take(i as int);
                    assert(t.insert(i as int, (k, v)) =~= e.take(i + 1));
                    lemma_insert_map(t, i as int, k, v);
                }
                assert(row@ =~= Map::new(
                    |k: Seq<char>| entries_map(e.take(i + 1)).contains_key(k),
                    |k: Seq<char>| shown(k, entries_map(e.take(i + 1))[k], color_stdout),
                ));
                i += 1;
            }
            assert(e.take(e.len() as int) =~= e);
            row.insert(String::from_str("_raw"), r.raw().to_owned());
        },
    }
    row
}

/// The lines of a text as `str::lines` gives them, from index `i` on: split
/// at `\n`, a `\r` before it dropped, no empty line after a final `\n`.
pub open spec fn lines_from(s: Seq<char>, i: int) -> Seq<Seq<char>>
    decreases s.len() - i,
{
    if i < 0 || i >= s.len() {
        Seq::empty()
    } else {
        let e = line_end(s, i);
        proof {
            lemma_line_end(s, i);
        }
        let raw = s.subrange(i, e);
        if e < s.len() {
            let line = if raw.len() > 0 && raw.last() == '\r' {
                raw.drop_last()
            } else {
                raw
            };
            seq![line] + lines_from(s, e + 1)
        } else {
            seq![raw]
        }
    }
}

/// The lines of `body`.
pub fn body_lines(body: &str) -> (r: Vec<String>)
    ensures
        r@.map_values(|l: String| l@) == lines_from(body@, 0),
{
    let v = chars_of(body);
    let ghost s = v@;
    let mut out: Vec<String> = Vec::new();
    let mut i: usize = 0;
    if v.len() == 0 {
        assert(out@.map_values(|l: String| l@) =~= lines_from(s, 0));
        return out;
    }
    loop
        invariant_except_break
            i < v.len(),
            out@.map_values(|l: String| l@) + lines_from(s, i as int) == lines_from(s, 0),
        invariant
            s == v@,
            s == body@,
        ensures
            out@.map_values(|l: String| l@) == lines_from(s, 0),
        decreases v.len() - i,
    {
        let mut e = i;
        while e < v.len() && v[e] != '\n'
            invariant
                i <= e <= v.len(),
                line_end(s, e as int) == line_end(s, i as int),
                s == v@,
            decreases v.len() - e,
        {
            e += 1;
        }
        proof {
            lemma_line_end(s, i as int);
        }
        let ghost before = out@.map_values(|l: String| l@);
        let end = if e < v.len() && e > i && v[e - 1] == '\r' {
            e - 1
        } else {
            e
        };
        let line = string_of(&v, i, end);
        out.push(line);
        proof {
            assert(out@.map_values(|l: String| l@) =~= before.push(s.subrange(i as int, end as int)));
            let raw = s.subrange(i as int, e as int);
            if e < s.len() && raw.len() > 0 && raw.last() == '\r' {
                assert(raw.drop_last() =~= s.subrange(i as int, end as int));
            }
            if e < s.len() {
                assert(before.push(s.subrange(i as int, end as int)) + lines_from(s, e + 1) =~= before + (
                seq![s.subrange(i as int, end as int)] + lines_from(s, e + 1)));
            } else {
                assert(before.push(s.subrange(i as int, end as int)) =~= before + seq![
                    s.subrange(i as int, end as int),
                ]);
            }
        }
        if e >= v.len() - 1 {
            proof {
                if e < s.len() {
                    assert(lines_from(s, e + 1) =~= Seq::<Seq<char>>::empty());
                    assert(out@.map_values(|l: String| l@) =~= before + lines_from(s, i as int));
                }
            }
            break;
        }
        i = e + 1;
    }
    out
}

/// One line of a batch run (numbered `line_num`): parsed under `hint`, and
/// returned when it matches `expr`. A parse failure aborts a strict run and
/// is otherwise reported to `diag` as skipped.
pub fn batch_line<F: Fn(&str) -> FloatRepr, W: std::io::Write>(
    line: &str,
    line_num: u64,
    expr: &Expr,
    hint: CliInputHint,
    strict: bool,
    diag: &mut DiagnosticsSink<W>,
    read_float: &F,
) -> (r: Result<Option<Record>, String>)
    requires
        is_float_reader(*read_float),
        !strict ==> old(diag).skipped() < u64::MAX,
    ensures
        line_outcome(
            r,
            line@,
            line_num,
            expr@,
            hint,
            strict,
            *old(diag),
            *final(diag),
            reader_fn(*read_float),
        ),
{
    match parse_cli_line(line, line_num, hint, strict, diag, read_float) {
        Err(e) => Err(e),
        Ok(ParsedCliLine::Ignored) => Ok(None),
        Ok(ParsedCliLine::Record(rec)) => {
            if expr.eval(&rec) {
                Ok(Some(rec))
            } else {
                Ok(None)
            }
        },
    }
}

/// The output of a run, with its settings.
#[derive(Clone, Copy, Debug, PartialEq, Eq, Structural)]
pub enum OutputPlan {
    /// JSON objects, as NDJSON flushed per line when `jsonl`, carrying
    /// `_raw` unless fields are projected without listing it.
    Json { jsonl: bool, attach_raw: bool },
    /// A count, or counts per group when `grouped`.
    Count { grouped: bool },
    /// A table, coloring levels when `color`.
    Table { color: bool },
}

pub open spec fn planned_output(
    eff: EffectiveOutput,
    jsonl: bool,
    raw_shown: bool,
    grouped: bool,
    stdout_tty: bool,
    no_color: bool,
) -> OutputPlan {
    match eff {
        EffectiveOutput::Json => OutputPlan::Json { jsonl, attach_raw: raw_shown },
        EffectiveOutput::Count => OutputPlan::Count { grouped },
        EffectiveOutput::Table => OutputPlan::Table { color: stdout_tty && !no_color },
    }
}

/// The output a run produces from its options and field projection.
pub fn plan_output(
    format: OutputFormat,
    jsonl: bool,
    projection: Option<&Vec<String>>,
    grouped: bool,
    stdout_tty: bool,
    no_color: bool,
) -> (r: OutputPlan)
    ensures
        r == planned_output(
            resolved(format, stdout_tty),
            jsonl,
            shows_raw(
                match projection {
                    Some(p) => Some(p@.map_values(|n: String| n@)),
                    None => None,
                },
            ),
            grouped,
            stdout_tty,
            no_color,
        ),
{
    let raw = raw_shown(projection);
    match resolve_output(format, stdout_tty) {
        EffectiveOutput::Json => OutputPlan::Json { jsonl, attach_raw: raw },
        EffectiveOutput::Count => OutputPlan::Count { grouped },
        EffectiveOutput::Table => OutputPlan::Table { color: stdout_tty && !no_color },
    }
}

/// Whether lines that fail to parse abort the run.
pub fn strict_parse(strict: bool, no_strict: bool) -> (r: bool)
    ensures
        r == (strict && !no_strict),
{
    strict && !no_strict
}

/// The checks of `--follow`: exactly one file, not standard input, and no
/// grouped count.
pub fn check_follow(n_files: usize, first_is_stdin: bool, plan: OutputPlan) -> (r: Result<(), String>)
    ensures
        n_files != 1 ==> (r matches Err(e) && e@ == "--follow requires exactly one file path (not stdin)"@),
        n_files == 1 && first_is_stdin ==> (r matches Err(e) && e@
            == "--follow does not support stdin; pass a file path"@),
        n_files == 1 && !first_is_stdin && plan == (OutputPlan::Count { grouped: true }) ==> (r matches Err(e)
            && e@ == "--group-by is not supported with --follow"@),
        n_files == 1 && !first_is_stdin && plan != (OutputPlan::Count { grouped: true }) ==> r is Ok,
{
    if n_files != 1 {
        return Err(String::from_str("--follow requires exactly one file path (not stdin)"));
    }
    if first_is_stdin {
        return Err(String::from_str("--follow does not support stdin; pass a file path"));
    }
    if plan == (OutputPlan::Count { grouped: true }) {
        return Err(String::from_str("--group-by is not supported with --follow"));
    }
    Ok(())
}

} // verus!
