//! Properties that relate several operations of the library, proved over
//! the specifications that the operations' contracts use.

use vstd::prelude::*;
use crate::exit_codes::{ExitCode, exit_status, outcome_of};
use crate::float::{Cmp3, float_compare, int_to_float_bits};
use crate::group::tally;
use crate::parser::detect::{Format, sniff_from, sniff_text, line_end, lemma_line_end};
use crate::query::ast::{ExprView, LiteralView, Op};
use crate::query::eval::{holds, pred_holds, eq_value_literal, lemma_all_hold, lemma_any_holds};
use crate::record::ValueView;
use crate::float::FloatView;
use crate::text::{is_unicode_ws, trim_unicode, trim_start_index, lemma_seq_less_transitive, lemma_seq_less_irreflexive,
    lemma_seq_less_trichotomy};
use crate::value_order::{value_compare, value_equal, seq_compare};
use crate::output::table::{padded, padded_cells, scalar_display};
use crate::output::json::scalar_json;
use crate::group::{group_key, record_group_key};
use crate::parser::json::flatten_members;
use crate::text::{parse_i64_text, lemma_int_text_parses_back};
use crate::output::json::{object_text, record_json_map, record_line_events};
use crate::output::jsonl::flushed_line_events;
use crate::json_doc::{JsonView, json_compact};
use crate::keyed::{keys_strictly_sorted, entries_map, lemma_sorted_listing};
use crate::sink::{WriteEvent, written_text, lemma_written_text_append};

verus! {

/// The comparison seen from the other side.
pub open spec fn flipped(c: Option<Cmp3>) -> Option<Cmp3> {
    match c {
        Some(Cmp3::Less) => Some(Cmp3::Greater),
        Some(Cmp3::Greater) => Some(Cmp3::Less),
        other => other,
    }
}

/// After a record's field `k` is set to `v` (what `Record::insert` does to
/// its fields), reading `k` (what `Record::get` gives) yields `v`, and every
/// other field reads as before.
pub proof fn law_get_after_insert(
    before: Map<Seq<char>, ValueView>,
    after: Map<Seq<char>, ValueView>,
    k: Seq<char>,
    v: ValueView,
)
    requires
        after == before.insert(k, v),
    ensures
        after.contains_key(k),
        after[k] == v,
        forall|j: Seq<char>|
            j != k ==> (#[trigger] after.contains_key(j) <==> before.contains_key(j)) && (
            before.contains_key(j) ==> after[j] == before[j]),
{
}

/// An `AND` holds exactly when each of its operands holds.
pub proof fn law_and_holds_iff_all(es: Seq<ExprView>, r: Map<Seq<char>, ValueView>)
    ensures
        holds(ExprView::And(es), r) <==> forall|i: int| 0 <= i < es.len() ==> holds(#[trigger] es[i], r),
{
    lemma_all_hold(es, r);
}

/// An `OR` holds exactly when some operand holds.
pub proof fn law_or_holds_iff_any(es: Seq<ExprView>, r: Map<Seq<char>, ValueView>)
    ensures
        holds(ExprView::Or(es), r) <==> exists|i: int| 0 <= i < es.len() && holds(#[trigger] es[i], r),
{
    lemma_any_holds(es, r);
}

/// `NOT` inverts the truth of its operand.
pub proof fn law_not_inverts(e: ExprView, r: Map<Seq<char>, ValueView>)
    ensures
        holds(ExprView::Not(Box::new(e)), r) == !holds(e, r),
{
}

/// A predicate on a field the record lacks never holds, whatever its
/// operator and literal.
pub proof fn law_missing_field_never_matches(
    field: Seq<char>,
    op: Op,
    rhs: LiteralView,
    r: Map<Seq<char>, ValueView>,
)
    requires
        !r.contains_key(field),
    ensures
        !holds(ExprView::Pred { field, op, rhs }, r),
{
}

/// `=` and `!=` never both hold of a value, and neither holds when the
/// value and the literal are of kinds that do not compare.
pub proof fn law_eq_ne_exclusive(v: ValueView, rhs: LiteralView)
    ensures
        !(pred_holds(v, Op::Eq, rhs) && pred_holds(v, Op::Ne, rhs)),
        eq_value_literal(v, rhs) is None ==> !pred_holds(v, Op::Eq, rhs) && !pred_holds(v, Op::Ne, rhs),
{
}

proof fn lemma_seq_compare_flip(a: Seq<char>, b: Seq<char>)
    ensures
        Some(seq_compare(a, b)) == flipped(Some(seq_compare(b, a))),
{
    lemma_seq_less_trichotomy(a, b);
    lemma_seq_less_irreflexive(a);
}

proof fn lemma_float_compare_flip(x: u64, y: u64)
    ensures
        float_compare(x, y) == flipped(float_compare(y, x)),
{
}

/// Comparing two values the other way round gives the opposite outcome:
/// `a < b` exactly when `b > a`, `a == b` exactly when `b == a`, and the
/// two are incomparable together.
pub proof fn law_value_compare_dual(a: ValueView, b: ValueView)
    ensures
        value_compare(a, b) == flipped(value_compare(b, a)),
{
    match (a, b) {
        (ValueView::Str(x), ValueView::Str(y)) => lemma_seq_compare_flip(x, y),
        (ValueView::Float(x), ValueView::Float(y)) => lemma_float_compare_flip(x.bits, y.bits),
        (ValueView::Int(x), ValueView::Float(y)) => lemma_float_compare_flip(int_to_float_bits(x), y.bits),
        (ValueView::Float(x), ValueView::Int(y)) => lemma_float_compare_flip(x.bits, int_to_float_bits(y)),
        _ => {},
    }
}

/// `==` on values agrees with the order's `Equal`, except between an
/// integer and a float, which are never `==` but may compare `Equal`.
pub proof fn law_value_eq_agrees_with_compare(a: ValueView, b: ValueView)
    requires
        !(a is Int && b is Float),
        !(a is Float && b is Int),
    ensures
        value_equal(a, b) <==> value_compare(a, b) == Some(Cmp3::Equal),
{
    match (a, b) {
        (ValueView::Str(x), ValueView::Str(y)) => {
            lemma_seq_less_irreflexive(x);
        },
        _ => {},
    }
}

proof fn lemma_trim_all_ws(t: Seq<char>, i: int)
    requires
        0 <= i <= t.len(),
        forall|k: int| 0 <= k < t.len() ==> is_unicode_ws(#[trigger] t[k]),
    ensures
        trim_start_index(t, i) == t.len(),
    decreases t.len() - i,
{
    if i < t.len() {
        lemma_trim_all_ws(t, i + 1);
    }
}

/// Input made only of whitespace (or empty) is plain text to `sniff`.
pub proof fn law_sniff_whitespace_is_plain(s: Seq<char>)
    requires
        forall|k: int| 0 <= k < s.len() ==> is_unicode_ws(#[trigger] s[k]),
    ensures
        sniff_text(s) == Format::Plain,
{
    lemma_sniff_from_whitespace(s, 0);
}

proof fn lemma_sniff_from_whitespace(s: Seq<char>, i: int)
    requires
        0 <= i,
        forall|k: int| 0 <= k < s.len() ==> is_unicode_ws(#[trigger] s[k]),
    ensures
        sniff_from(s, i) == Format::Plain,
    decreases s.len() - i,
{
    if i < s.len() {
        let e = line_end(s, i);
        lemma_line_end(s, i);
        let t = s.subrange(i, e);
        assert forall|k: int| 0 <= k < t.len() implies is_unicode_ws(#[trigger] t[k]) by {
            assert(t[k] == s[i + k]);
        }
        lemma_trim_all_ws(t, 0);
        crate::text::lemma_trim_end_bounds(t, t.len() as int);
        assert(trim_unicode(t).len() == 0);
        if e < s.len() {
            lemma_sniff_from_whitespace(s, e + 1);
        }
    }
}

/// How many times `k` occurs in `keys`.
pub open spec fn occurrences(keys: Seq<Seq<char>>, k: Seq<char>) -> nat
    decreases keys.len(),
{
    if keys.len() == 0 {
        0
    } else {
        occurrences(keys.drop_last(), k) + if keys.last() == k {
            1nat
        } else {
            0nat
        }
    }
}

/// Group counting counts each key exactly as often as it occurs, and knows
/// no key that does not occur.
pub proof fn law_group_count_counts_occurrences(keys: Seq<Seq<char>>, k: Seq<char>)
    ensures
        tally(keys).contains_key(k) <==> occurrences(keys, k) > 0,
        tally(keys).contains_key(k) ==> tally(keys)[k] == occurrences(keys, k),
    decreases keys.len(),
{
    if keys.len() > 0 {
        law_group_count_counts_occurrences(keys.drop_last(), k);
    }
}

/// A run that finished exits with 0 when a line matched and 1 when none did;
/// both differ from the status of an error.
pub proof fn law_exit_status_of_outcome(any_match: bool)
    ensures
        exit_status(outcome_of(any_match)) == (if any_match {
            0i32
        } else {
            1i32
        }),
        exit_status(outcome_of(any_match)) != exit_status(ExitCode::Error),
{
}

/// A cell fitted to a column is exactly as wide as the column, whether it
/// is padded or cut (a column of width 0 fits only the empty cell).
pub proof fn law_padded_cell_width(cell: Seq<char>, w: nat)
    requires
        w >= 1 || cell.len() == 0,
    ensures
        padded(cell, w).len() == w,
{
}

/// Two table lines with the same column widths have the same length, so
/// the columns of a table line up: each cell takes its column's width and
/// the separators are the same.
pub proof fn law_table_lines_align(a: Seq<Seq<char>>, b: Seq<Seq<char>>, widths: Seq<nat>)
    requires
        a.len() == b.len(),
        a.len() <= widths.len(),
        forall|i: int| 0 <= i < a.len() ==> widths[i] >= 1 || (#[trigger] a[i]).len() == 0,
        forall|i: int| 0 <= i < b.len() ==> widths[i] >= 1 || (#[trigger] b[i]).len() == 0,
    ensures
        padded_cells(a, widths).len() == padded_cells(b, widths).len(),
    decreases a.len(),
{
    if a.len() > 0 {
        let n = a.len() - 1;
        law_table_lines_align(a.drop_last(), b.drop_last(), widths);
        law_padded_cell_width(a[n], widths[n]);
        law_padded_cell_width(b[n], widths[n]);
    }
}

/// Values of one kind: both strings, both integers, both floats, both
/// booleans, or both null.
pub open spec fn same_kind(a: ValueView, b: ValueView) -> bool {
    ||| (a is Str && b is Str)
    ||| (a is Int && b is Int)
    ||| (a is Float && b is Float)
    ||| (a is Bool && b is Bool)
    ||| (a is Null && b is Null)
}

/// Among values of one kind, "less than" is transitive.
pub proof fn law_value_order_transitive(a: ValueView, b: ValueView, c: ValueView)
    requires
        same_kind(a, b),
        same_kind(b, c),
        value_compare(a, b) == Some(Cmp3::Less),
        value_compare(b, c) == Some(Cmp3::Less),
    ensures
        value_compare(a, c) == Some(Cmp3::Less),
{
    match (a, b, c) {
        (ValueView::Str(x), ValueView::Str(y), ValueView::Str(z)) => {
            lemma_seq_less_transitive(x, y, z);
        },
        _ => {},
    }
}

/// A JSON object is printed with its members in increasing key order: the
/// text for the map that a strictly sorted listing denotes is the compact
/// text of that very listing.
pub proof fn law_object_text_lists_keys_in_order(e: Seq<(Seq<char>, JsonView)>)
    requires
        keys_strictly_sorted(e),
    ensures
        object_text(entries_map(e)) == json_compact(JsonView::Object(e)),
{
    lemma_sorted_listing(e);
}

/// For the same record, the NDJSON formatter asks of its writer exactly what
/// the JSON formatter does (the same object text and newline), then a flush.
pub proof fn law_ndjson_line_is_json_line_then_flush(
    fields: Map<Seq<char>, ValueView>,
    raw: Seq<char>,
    attach_raw: bool,
)
    ensures
        flushed_line_events(object_text(record_json_map(fields, raw, attach_raw)))
            == record_line_events(object_text(record_json_map(fields, raw, attach_raw))).push(
            WriteEvent::Flush,
        ),
{
}

/// What the JSON formatter asks of its writer for a run of records whose
/// object texts are `ts`, written in order.
pub open spec fn json_run_events(ts: Seq<Seq<char>>) -> Seq<WriteEvent>
    decreases ts.len(),
{
    if ts.len() == 0 {
        Seq::empty()
    } else {
        json_run_events(ts.drop_last()) + record_line_events(ts.last())
    }
}

/// What the NDJSON formatter asks of its writer for the same run.
pub open spec fn jsonl_run_events(ts: Seq<Seq<char>>) -> Seq<WriteEvent>
    decreases ts.len(),
{
    if ts.len() == 0 {
        Seq::empty()
    } else {
        jsonl_run_events(ts.drop_last()) + flushed_line_events(ts.last())
    }
}

/// Written to a JSON formatter and to an NDJSON formatter in the same order,
/// the same records give the same bytes: each object text and a newline;
/// the NDJSON formatter only adds a flush after each line.
pub proof fn law_json_and_jsonl_write_same_text(ts: Seq<Seq<char>>)
    ensures
        written_text(json_run_events(ts)) == written_text(jsonl_run_events(ts)),
    decreases ts.len(),
{
    if ts.len() > 0 {
        law_json_and_jsonl_write_same_text(ts.drop_last());
        let t = ts.last();
        lemma_written_text_append(json_run_events(ts.drop_last()), record_line_events(t));
        lemma_written_text_append(jsonl_run_events(ts.drop_last()), flushed_line_events(t));
        let r = record_line_events(t);
        let f = flushed_line_events(t);
        assert(f.drop_last() =~= r);
        assert(written_text(f) == written_text(r) + Seq::<char>::empty());
        assert(written_text(r) + Seq::<char>::empty() =~= written_text(r));
    }
}

/// `<=` holds exactly when `<` or `=` does, and `>=` exactly when `>` or
/// `=` does, for every field value and literal; `<`, `=` and `>` exclude one
/// another.
pub proof fn law_le_ge_are_lt_gt_or_eq(v: ValueView, l: LiteralView)
    ensures
        pred_holds(v, Op::Le, l) <==> (pred_holds(v, Op::Lt, l) || pred_holds(v, Op::Eq, l)),
        pred_holds(v, Op::Ge, l) <==> (pred_holds(v, Op::Gt, l) || pred_holds(v, Op::Eq, l)),
        !(pred_holds(v, Op::Lt, l) && pred_holds(v, Op::Eq, l)),
        !(pred_holds(v, Op::Gt, l) && pred_holds(v, Op::Eq, l)),
        !(pred_holds(v, Op::Lt, l) && pred_holds(v, Op::Gt, l)),
{
    match (v, l) {
        (ValueView::Str(a), LiteralView::Str(b)) => {
            lemma_seq_less_irreflexive(a);
        },
        _ => {},
    }
}

/// On integers, each comparison operator means the comparison of the two
/// numbers.
pub proof fn law_integer_comparisons(a: i64, b: i64)
    ensures
        pred_holds(ValueView::Int(a), Op::Eq, LiteralView::Int(b)) <==> a == b,
        pred_holds(ValueView::Int(a), Op::Ne, LiteralView::Int(b)) <==> a != b,
        pred_holds(ValueView::Int(a), Op::Lt, LiteralView::Int(b)) <==> a < b,
        pred_holds(ValueView::Int(a), Op::Le, LiteralView::Int(b)) <==> a <= b,
        pred_holds(ValueView::Int(a), Op::Gt, LiteralView::Int(b)) <==> a > b,
        pred_holds(ValueView::Int(a), Op::Ge, LiteralView::Int(b)) <==> a >= b,
{
}

/// A table cell of an integer field reads back as that integer (so it is
/// never empty, and distinct integers show distinct cells); booleans show
/// as `true` / `false`; only null and the empty string show as nothing.
pub proof fn law_table_cells_show_values(i: i64, j: i64, b: bool, v: ValueView)
    ensures
        parse_i64_text(scalar_display(ValueView::Int(i))) == Some(i),
        scalar_display(ValueView::Int(i)) == scalar_display(ValueView::Int(j)) ==> i == j,
        parse_i64_text(scalar_display(ValueView::Bool(b))) is None,
        scalar_display(ValueView::Bool(b)).len() > 0,
        scalar_display(v).len() == 0 ==> (v is Null || v == ValueView::Str(Seq::empty()) || (
        v is Float && v->Float_0.text.len() == 0)),
{
    lemma_int_text_parses_back(i);
    lemma_int_text_parses_back(j);
    if let ValueView::Int(n) = v {
        lemma_int_text_parses_back(n);
    }
    if let ValueView::Str(t) = v {
        if t.len() == 0 {
            assert(t =~= Seq::<char>::empty());
        }
    }
    let t = scalar_display(ValueView::Bool(b));
    assert(!crate::text::is_digit(t[0]));
}

/// A record's scalar field written as JSON reads back, through the JSON
/// line parser, as the same field value: strings, integers, booleans and
/// null keep their kind and value.
pub proof fn law_json_scalar_reads_back(
    k: Seq<char>,
    v: ValueView,
    acc: Map<Seq<char>, ValueView>,
    rd: spec_fn(Seq<char>) -> FloatView,
)
    requires
        !(v is Float),
    ensures
        flatten_members(Seq::empty(), seq![(k, scalar_json(v))], acc, rd) == Ok::<
            Map<Seq<char>, ValueView>,
            Seq<char>,
        >(acc.insert(k, v)),
{
    let ms = seq![(k, scalar_json(v))];
    let rest = ms.subrange(1, ms.len() as int);
    assert(rest =~= Seq::<(Seq<char>, JsonView)>::empty());
    assert(flatten_members(Seq::empty(), rest, acc.insert(k, v), rd) == Ok::<
        Map<Seq<char>, ValueView>,
        Seq<char>,
    >(acc.insert(k, v)));
    assert(crate::parser::json::member_path(Seq::empty(), k) == k);
    if let ValueView::Int(i) = v {
        assert(i >= 0 ==> (i as u64) as i64 == i);
    }
}

/// The group key of an integer is text that reads back as that integer:
/// distinct integers fall in distinct groups, and an integer never groups
/// with a missing field or a null (whose key is empty).
pub proof fn law_integer_group_keys(i: i64, j: i64, fields: Map<Seq<char>, ValueView>, name: Seq<char>)
    ensures
        parse_i64_text(group_key(ValueView::Int(i))) == Some(i),
        group_key(ValueView::Int(i)) == group_key(ValueView::Int(j)) ==> i == j,
        group_key(ValueView::Int(i)) != group_key(ValueView::Null),
        !fields.contains_key(name) ==> record_group_key(fields, name) != group_key(ValueView::Int(i)),
{
    lemma_int_text_parses_back(i);
    lemma_int_text_parses_back(j);
}

/// On strings, `=` and `!=` compare the texts, and `<` / `>` are the order
/// of code points; on booleans, `false` comes before `true`.
pub proof fn law_string_and_bool_comparisons(a: Seq<char>, b: Seq<char>, x: bool, y: bool)
    ensures
        pred_holds(ValueView::Str(a), Op::Eq, LiteralView::Str(b)) <==> a == b,
        pred_holds(ValueView::Str(a), Op::Ne, LiteralView::Str(b)) <==> a != b,
        pred_holds(ValueView::Str(a), Op::Lt, LiteralView::Str(b)) <==> crate::text::seq_less(a, b),
        pred_holds(ValueView::Str(a), Op::Gt, LiteralView::Str(b)) <==> crate::text::seq_less(b, a),
        pred_holds(ValueView::Bool(x), Op::Eq, LiteralView::Bool(y)) <==> x == y,
        pred_holds(ValueView::Bool(x), Op::Lt, LiteralView::Bool(y)) <==> (!x && y),
        pred_holds(ValueView::Bool(x), Op::Gt, LiteralView::Bool(y)) <==> (x && !y),
{
    lemma_seq_less_irreflexive(a);
    lemma_seq_less_trichotomy(a, b);
}

/// Distinct strings show distinct table cells and fall in distinct groups,
/// and the two booleans show and group apart.
pub proof fn law_strings_and_bools_stay_apart(a: Seq<char>, b: Seq<char>)
    ensures
        scalar_display(ValueView::Str(a)) == scalar_display(ValueView::Str(b)) <==> a == b,
        group_key(ValueView::Str(a)) == group_key(ValueView::Str(b)) <==> a == b,
        scalar_display(ValueView::Bool(true)) != scalar_display(ValueView::Bool(false)),
        group_key(ValueView::Bool(true)) != group_key(ValueView::Bool(false)),
        group_key(ValueView::Bool(true)) != group_key(ValueView::Null),
        group_key(ValueView::Bool(false)) != group_key(ValueView::Null),
{
    assert(scalar_display(ValueView::Bool(true)).len() != scalar_display(ValueView::Bool(false)).len());
    assert(group_key(ValueView::Bool(true)).len() != group_key(ValueView::Bool(false)).len());
    assert(group_key(ValueView::Bool(true)).len() != group_key(ValueView::Null).len());
    assert(group_key(ValueView::Bool(false)).len() != group_key(ValueView::Null).len());
}

} // verus!
