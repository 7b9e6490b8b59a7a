//! Tables of matched records.
//!
//! Rows are buffered until [`TableFormatter::flush`], or until
//! `max_buffer` rows are held. Then column widths are fixed from the column
//! names and the buffered cells, the header and the buffered rows are
//! written, and every later row streams out at once with those widths; a
//! cell wider than its column is cut and ends with `…`.

use vstd::prelude::*;
use crate::float::Cmp3;
use crate::output::row::Row;
use crate::record::{Record, Value, ValueView};
use crate::sink::{LoggedWriter, WriteEvent, wrote, lemma_prefix_of_extension};
use crate::keyed::lemma_sorted_keys_unique;
use crate::text::{chars_of, compare_str, seq_less, lemma_seq_less_trichotomy,
    lemma_seq_less_transitive, int_text, i64_text, push_str};

verus! {

/// The buffer size of [`TableFormatter::with_default_max_buffer`].
pub const DEFAULT_MAX_BUFFER: usize = 1000;

/// Column names in strictly increasing order.
pub open spec fn names_sorted(s: Seq<Seq<char>>) -> bool {
    forall|i: int, j: int| 0 <= i < j < s.len() ==> seq_less(#[trigger] s[i], #[trigger] s[j])
}

/// Some row of `rows` has a cell in column `x`.
pub open spec fn rows_have_key(rows: Seq<Map<Seq<char>, Seq<char>>>, x: Seq<char>) -> bool {
    exists|i: int| 0 <= i < rows.len() && #[trigger] rows[i].contains_key(x)
}

/// Two strictly sorted lists of column names with the same members are the
/// same list: the columns of a table are fixed by the set of names alone.
pub proof fn lemma_sorted_names_unique(a: Seq<Seq<char>>, b: Seq<Seq<char>>)
    requires
        names_sorted(a),
        names_sorted(b),
        forall|x: Seq<char>| a.contains(x) <==> b.contains(x),
    ensures
        a == b,
{
    lemma_sorted_keys_unique(a, b);
}

/// The width of column `col`: the widest of its name and of its cells in
/// `rows`, in characters.
pub open spec fn column_width(col: Seq<char>, rows: Seq<Map<Seq<char>, Seq<char>>>) -> nat
    decreases rows.len(),
{
    if rows.len() == 0 {
        col.len()
    } else {
        let w = column_width(col, rows.drop_last());
        let r = rows.last();
        if r.contains_key(col) && r[col].len() > w {
            r[col].len()
        } else {
            w
        }
    }
}

/// The width of every column.
pub open spec fn column_widths(cols: Seq<Seq<char>>, rows: Seq<Map<Seq<char>, Seq<char>>>) -> Seq<nat> {
    Seq::new(cols.len(), |i: int| column_width(cols[i], rows))
}

pub open spec fn repeated(c: char, n: nat) -> Seq<char> {
    Seq::new(n, |i: int| c)
}

/// A cell fitted to `w` characters: padded with spaces, or cut to `w - 1`
/// characters followed by `…` when it is wider.
pub open spec fn padded(cell: Seq<char>, w: nat) -> Seq<char> {
    if cell.len() > w {
        cell.take(if w >= 1 {
            w - 1
        } else {
            0
        }) + seq!['\u{2026}']
    } else {
        cell + repeated(' ', (w - cell.len()) as nat)
    }
}

/// Cells fitted to their widths and joined by ` | `.
pub open spec fn padded_cells(cells: Seq<Seq<char>>, widths: Seq<nat>) -> Seq<char>
    decreases cells.len(),
{
    if cells.len() == 0 {
        Seq::empty()
    } else {
        let n = cells.len() - 1;
        padded_cells(cells.drop_last(), widths) + (if n > 0 {
            seq![' ', '|', ' ']
        } else {
            Seq::empty()
        }) + padded(cells[n], widths[n])
    }
}

/// The cells of a row under the columns `cols` (empty where it has none).
pub open spec fn row_cells(cols: Seq<Seq<char>>, row: Map<Seq<char>, Seq<char>>) -> Seq<Seq<char>> {
    Seq::new(
        cols.len(),
        |i: int|
            if row.contains_key(cols[i]) {
                row[cols[i]]
            } else {
                Seq::empty()
            },
    )
}

/// One table line for `row`.
pub open spec fn row_line(cols: Seq<Seq<char>>, widths: Seq<nat>, row: Map<Seq<char>, Seq<char>>) -> Seq<char> {
    padded_cells(row_cells(cols, row), widths) + seq!['\n']
}

/// The rule under the header: a run of `-` per column, joined by `-+-`.
pub open spec fn rule(widths: Seq<nat>) -> Seq<char>
    decreases widths.len(),
{
    if widths.len() == 0 {
        Seq::empty()
    } else {
        let n = widths.len() - 1;
        rule(widths.drop_last()) + (if n > 0 {
            seq!['-', '+', '-']
        } else {
            Seq::empty()
        }) + repeated('-', widths[n])
    }
}

/// The header: the column names, then the rule.
pub open spec fn header_text(cols: Seq<Seq<char>>, widths: Seq<nat>) -> Seq<char> {
    padded_cells(cols, widths) + seq!['\n'] + rule(widths) + seq!['\n']
}

/// What emitting buffered `rows` asks of the writer: the header unless it
/// was written before, then a line per row, all with the widths fixed now.
pub open spec fn emit_events(
    cols: Seq<Seq<char>>,
    rows: Seq<Map<Seq<char>, Seq<char>>>,
    header_done: bool,
) -> Seq<WriteEvent> {
    let ws = column_widths(cols, rows);
    (if header_done {
        Seq::empty()
    } else {
        seq![WriteEvent::Text(header_text(cols, ws))]
    }) + Seq::new(rows.len(), |i: int| WriteEvent::Text(row_line(cols, ws, rows[i])))
}

/// The text a table shows for a field value.
pub open spec fn scalar_display(v: ValueView) -> Seq<char> {
    match v {
        ValueView::Str(s) => s,
        ValueView::Bool(b) => if b {
            seq!['t', 'r', 'u', 'e']
        } else {
            seq!['f', 'a', 'l', 's', 'e']
        },
        ValueView::Int(n) => int_text(n as int),
        ValueView::Float(f) => f.text,
        ValueView::Null => Seq::empty(),
    }
}

/// The row a record gives: each field's text, and `_raw` holding the line.
pub open spec fn record_row(fields: Map<Seq<char>, ValueView>, raw: Seq<char>) -> Map<Seq<char>, Seq<char>> {
    fields.map_values(|v: ValueView| scalar_display(v)).insert("_raw"@, raw)
}

/// Widths as natural numbers.
pub open spec fn nats(ws: Seq<usize>) -> Seq<nat> {
    ws.map_values(|w: usize| w as nat)
}

/// The views of a list of strings.
pub open spec fn texts_of(v: Seq<String>) -> Seq<Seq<char>> {
    v.map_values(|c: String| c@)
}

/// Width of a text in characters.
pub fn display_width(text: &str) -> (r: usize)
    ensures
        r == text@.len(),
{
    chars_of(text).len()
}

/// Appends `cell` fitted to `width` characters.
pub fn pad_field(out: &mut String, cell: &str, width_chars: usize)
    ensures
        final(out)@ == old(out)@ + padded(cell@, width_chars as nat),
{
    let chars = chars_of(cell);
    let count = chars.len();
    assert(cell@.take(0) =~= Seq::<char>::empty());
    if count > width_chars {
        let visible = if width_chars >= 1 {
            width_chars - 1
        } else {
            0
        };
        let mut i: usize = 0;
        while i < visible
            invariant
                i <= visible < count,
                count == chars.len(),
                chars@ == cell@,
                out@ == old(out)@ + cell@.take(i as int),
            decreases visible - i,
        {
            out.push(chars[i]);
            proof {
                assert(cell@.take(i + 1) =~= cell@.take(i as int).push(chars@[i as int]));
            }
            i += 1;
        }
        out.push('\u{2026}');
        assert(final(out)@ =~= old(out)@ + padded(cell@, width_chars as nat));
        return ;
    }
    push_str(out, cell);
    let pad = width_chars - count;
    assert(repeated(' ', 0) =~= Seq::<char>::empty());
    let mut j: usize = 0;
    while j < pad
        invariant
            j <= pad,
            pad == width_chars - count,
            count == cell@.len(),
            out@ == old(out)@ + cell@ + repeated(' ', j as nat),
        decreases pad - j,
    {
        out.push(' ');
        proof {
            assert(repeated(' ', (j + 1) as nat) =~= repeated(' ', j as nat).push(' '));
        }
        j += 1;
    }
    assert(final(out)@ =~= old(out)@ + padded(cell@, width_chars as nat));
}

/// Appends the cells fitted to their widths, joined by ` | `.
pub fn write_padded_row(out: &mut String, cells: &Vec<&str>, col_widths: &Vec<usize>)
    requires
        cells.len() == col_widths.len(),
    ensures
        final(out)@ == old(out)@ + padded_cells(cells@.map_values(|c: &str| c@), nats(col_widths@)),
{
    let ghost cv = cells@.map_values(|c: &str| c@);
    let ghost ws = nats(col_widths@);
    let mut i: usize = 0;
    assert(cv.take(0) =~= Seq::<Seq<char>>::empty());
    while i < cells.len()
        invariant
            i <= cells.len() == col_widths.len(),
            cv == cells@.map_values(|c: &str| c@),
            ws == nats(col_widths@),
            out@ == old(out)@ + padded_cells(cv.take(i as int), ws),
        decreases cells.len() - i,
    {
        if i > 0 {
            push_str(out, " | ");
            proof {
                reveal_strlit(" | ");
            }
        }
        pad_field(out, cells[i], col_widths[i]);
        proof {
            let t = cv.take(i + 1);
            assert(t.drop_last() =~= cv.take(i as int));
            assert(t[i as int] == cells@[i as int]@);
            assert(ws[i as int] == col_widths@[i as int] as nat);
        }
        i += 1;
    }
    assert(cv.take(cells.len() as int) =~= cv);
}

/// Appends the rule: a run of `-` per column, joined by `-+-`.
fn write_rule(out: &mut String, col_widths: &Vec<usize>)
    ensures
        final(out)@ == old(out)@ + rule(nats(col_widths@)),
{
    let ghost ws = nats(col_widths@);
    let mut i: usize = 0;
    assert(ws.take(0) =~= Seq::<nat>::empty());
    while i < col_widths.len()
        invariant
            i <= col_widths.len(),
            ws == nats(col_widths@),
            out@ == old(out)@ + rule(ws.take(i as int)),
        decreases col_widths.len() - i,
    {
        if i > 0 {
            push_str(out, "-+-");
            proof {
                reveal_strlit("-+-");
            }
        }
        let ghost mid = out@;
        let w = col_widths[i];
        let mut j: usize = 0;
        while j < w
            invariant
                j <= w,
                out@ == mid + repeated('-', j as nat),
            decreases w - j,
        {
            out.push('-');
            proof {
                assert(repeated('-', (j + 1) as nat) =~= repeated('-', j as nat).push('-'));
            }
            j += 1;
        }
        proof {
            let t = ws.take(i + 1);
            assert(t.drop_last() =~= ws.take(i as int));
            assert(t[i as int] == w as nat);
        }
        i += 1;
    }
    assert(ws.take(col_widths.len() as int) =~= ws);
}

/// Writes the header: the column names, then the rule.
fn write_header_lines<W: std::io::Write>(
    writer: &mut LoggedWriter<W>,
    cols: &Vec<String>,
    col_widths: &Vec<usize>,
) -> (r: Result<(), std::io::Error>)
    requires
        cols.len() == col_widths.len(),
    ensures
        final(writer).events() == old(writer).events().push(
            WriteEvent::Text(header_text(texts_of(cols@), nats(col_widths@))),
        ),
{
    let mut names: Vec<&str> = Vec::new();
    let mut i: usize = 0;
    while i < cols.len()
        invariant
            i <= cols.len(),
            names.len() == i,
            forall|k: int| 0 <= k < i ==> (#[trigger] names@[k])@ == cols@[k]@,
        decreases cols.len() - i,
    {
        names.push(cols[i].as_str());
        i += 1;
    }
    assert(names@.map_values(|c: &str| c@) =~= texts_of(cols@));
    let mut out = String::new();
    write_padded_row(&mut out, &names, col_widths);
    out.push('\n');
    write_rule(&mut out, col_widths);
    out.push('\n');
    assert(out@ =~= header_text(texts_of(cols@), nats(col_widths@)));
    writer.write_str(out.as_str())
}

/// Writes one row with the given columns and widths.
fn write_streaming_row_internal<W: std::io::Write>(
    writer: &mut LoggedWriter<W>,
    cols: &Vec<String>,
    col_widths: &Vec<usize>,
    row: &Row,
) -> (r: Result<(), std::io::Error>)
    requires
        cols.len() == col_widths.len(),
    ensures
        final(writer).events() == old(writer).events().push(
            WriteEvent::Text(row_line(texts_of(cols@), nats(col_widths@), row@)),
        ),
{
    let mut cells: Vec<&str> = Vec::new();
    let mut i: usize = 0;
    while i < cols.len()
        invariant
            i <= cols.len(),
            cells.len() == i,
            forall|k: int|
                0 <= k < i ==> (#[trigger] cells@[k])@ == row_cells(texts_of(cols@), row@)[k],
        decreases cols.len() - i,
    {
        match row.get(cols[i].as_str()) {
            Some(v) => cells.push(v.as_str()),
            None => cells.push(""),
        }
        proof {
            reveal_strlit("");
        }
        i += 1;
    }
    assert(cells@.map_values(|c: &str| c@) =~= row_cells(texts_of(cols@), row@));
    let mut out = String::new();
    write_padded_row(&mut out, &cells, col_widths);
    out.push('\n');
    assert(out@ =~= row_line(texts_of(cols@), nats(col_widths@), row@));
    writer.write_str(out.as_str())
}

/// The maps of a list of rows.
pub open spec fn row_views(rows: Seq<Row>) -> Seq<Map<Seq<char>, Seq<char>>> {
    rows.map_values(|r: Row| r@)
}

proof fn lemma_names_insert(s: Seq<Seq<char>>, i: int, k: Seq<char>)
    requires
        names_sorted(s),
        0 <= i <= s.len(),
        forall|j: int| 0 <= j < i ==> seq_less(#[trigger] s[j], k),
        i < s.len() ==> seq_less(k, s[i]),
    ensures
        names_sorted(s.insert(i, k)),
        forall|x: Seq<char>| #[trigger] s.insert(i, k).contains(x) <==> s.contains(x) || x == k,
{
    let n = s.insert(i, k);
    assert forall|a: int, b: int| 0 <= a < b < n.len() implies seq_less(#[trigger] n[a], #[trigger] n[b]) by {
        if a < i && b < i {
            assert(n[a] == s[a] && n[b] == s[b]);
        } else if a < i && b == i {
            assert(n[a] == s[a]);
        } else if a < i && b > i {
            assert(n[a] == s[a] && n[b] == s[b - 1]);
            if b - 1 > i {
                assert(seq_less(s[i], s[b - 1]));
                lemma_seq_less_transitive(k, s[i], s[b - 1]);
            }
            lemma_seq_less_transitive(s[a], k, s[b - 1]);
        } else if a == i {
            assert(n[b] == s[b - 1]);
            if b - 1 > i {
                assert(seq_less(s[i], s[b - 1]));
                lemma_seq_less_transitive(k, s[i], s[b - 1]);
            }
        } else {
            assert(n[a] == s[a - 1] && n[b] == s[b - 1]);
        }
    }
    assert forall|x: Seq<char>| #[trigger] n.contains(x) <==> s.contains(x) || x == k by {
        if n.contains(x) {
            let j = choose|j: int| 0 <= j < n.len() && n[j] == x;
            if j < i {
                assert(s[j] == x);
            } else if j > i {
                assert(s[j - 1] == x);
            }
        }
        if s.contains(x) {
            let j = choose|j: int| 0 <= j < s.len() && s[j] == x;
            if j < i {
                assert(n[j] == x);
            } else {
                assert(n[j + 1] == x);
            }
        }
        if x == k {
            assert(n[i] == x);
        }
    }
}

/// Adds `k` to the sorted column names unless it is there.
fn insert_name(cols: &mut Vec<String>, k: &String)
    requires
        names_sorted(texts_of(old(cols)@)),
    ensures
        names_sorted(texts_of(final(cols)@)),
        forall|x: Seq<char>| #[trigger] texts_of(final(cols)@).contains(x) <==> texts_of(
            old(cols)@,
        ).contains(x) || x == k@,
{
    let ghost s = texts_of(cols@);
    let mut i: usize = 0;
    while i < cols.len() && compare_str(cols[i].as_str(), k.as_str()) == Cmp3::Less
        invariant
            i <= cols.len(),
            s == texts_of(cols@),
            s == texts_of(old(cols)@),
            names_sorted(s),
            forall|j: int| 0 <= j < i ==> seq_less(#[trigger] s[j], k@),
        decreases cols.len() - i,
    {
        assert(s[i as int] == cols@[i as int]@);
        i += 1;
    }
    if i < cols.len() {
        assert(s[i as int] == cols@[i as int]@);
        if compare_str(cols[i].as_str(), k.as_str()) == Cmp3::Equal {
            proof {
                assert forall|x: Seq<char>| #[trigger] s.contains(x) <==> s.contains(x) || x == k@ by {
                    if x == k@ {
                        assert(s[i as int] == x);
                    }
                }
            }
            return ;
        }
        proof {
            lemma_seq_less_trichotomy(s[i as int], k@);
        }
    }
    proof {
        lemma_names_insert(s, i as int, k@);
    }
    cols.insert(i, k.clone());
    assert(texts_of(cols@) =~= s.insert(i as int, k@));
}

/// Adds the row's keys to the sorted column names.
pub fn merge_cols_from_row(cols: &mut Vec<String>, row: &Row)
    requires
        names_sorted(texts_of(old(cols)@)),
    ensures
        names_sorted(texts_of(final(cols)@)),
        forall|x: Seq<char>| #[trigger] texts_of(final(cols)@).contains(x) <==> texts_of(
            old(cols)@,
        ).contains(x) || row@.contains_key(x),
{
    let keys = row.keys();
    let mut i: usize = 0;
    while i < keys.len()
        invariant
            i <= keys.len(),
            keys.len() == row.entries().len(),
            forall|j: int| 0 <= j < keys.len() ==> (#[trigger] keys[j])@ == row.entries()[j].0,
            forall|x: Seq<char>| #[trigger] row@.contains_key(x) <==> exists|j: int|
                0 <= j < keys.len() && keys[j]@ == x,
            names_sorted(texts_of(cols@)),
            forall|x: Seq<char>| #[trigger] texts_of(cols@).contains(x) <==> texts_of(
                old(cols)@,
            ).contains(x) || exists|j: int| 0 <= j < i && keys[j]@ == x,
        decreases keys.len() - i,
    {
        let ghost before = texts_of(cols@);
        insert_name(cols, keys[i]);
        proof {
            assert forall|x: Seq<char>| #[trigger] texts_of(cols@).contains(x) <==> texts_of(
                old(cols)@,
            ).contains(x) || exists|j: int| 0 <= j < i + 1 && keys[j]@ == x by {
                if x == keys[i as int]@ {
                    assert(exists|j: int| 0 <= j < i + 1 && keys[j]@ == x);
                }
                if exists|j: int| 0 <= j < i + 1 && keys[j]@ == x {
                    let j = choose|j: int| 0 <= j < i + 1 && keys[j]@ == x;
                    if j < i {
                        assert(exists|j: int| 0 <= j < i && keys[j]@ == x);
                    }
                }
                if before.contains(x) {
                    if !texts_of(old(cols)@).contains(x) {
                        let j = choose|j: int| 0 <= j < i && keys[j]@ == x;
                        assert(0 <= j < i + 1 && keys[j]@ == x);
                    }
                }
            }
        }
        i += 1;
    }
}

/// The width of every column over the rows.
fn compute_widths(cols: &Vec<String>, rows: &Vec<Row>) -> (r: Vec<usize>)
    ensures
        r.len() == cols.len(),
        nats(r@) == column_widths(texts_of(cols@), row_views(rows@)),
{
    let ghost rv = row_views(rows@);
    let mut out: Vec<usize> = Vec::new();
    let mut c: usize = 0;
    while c < cols.len()
        invariant
            c <= cols.len(),
            out.len() == c,
            rv == row_views(rows@),
            forall|k: int| 0 <= k < c ==> (#[trigger] out@[k]) as nat == column_width(cols@[k]@, rv),
        decreases cols.len() - c,
    {
        let name = cols[c].as_str();
        let mut w = display_width(name);
        let mut j: usize = 0;
        assert(rv.take(0) =~= Seq::<Map<Seq<char>, Seq<char>>>::empty());
        while j < rows.len()
            invariant
                j <= rows.len(),
                rv == row_views(rows@),
                w as nat == column_width(name@, rv.take(j as int)),
            decreases rows.len() - j,
        {
            let cell = rows[j].get(name);
            proof {
                let t = rv.take(j + 1);
                assert(t.drop_last() =~= rv.take(j as int));
                assert(t.last() == rows@[j as int]@);
            }
            match cell {
                Some(v) => {
                    let vw = display_width(v.as_str());
                    if vw > w {
                        w = vw;
                    }
                },
                None => {},
            }
            j += 1;
        }
        assert(rv.take(rows.len() as int) =~= rv);
        out.push(w);
        c += 1;
    }
    assert(nats(out@) =~= column_widths(texts_of(cols@), rv));
    out
}

/// The text a table shows for a field value.
pub fn record_scalar_display(v: &Value) -> (r: String)
    ensures
        r@ == scalar_display(v@),
{
    match v {
        Value::Str(s) => s.clone(),
        Value::Bool(b) => {
            proof {
                reveal_strlit("true");
                reveal_strlit("false");
            }
            if *b {
                String::from_str("true")
            } else {
                String::from_str("false")
            }
        },
        Value::Int(n) => i64_text(*n),
        Value::Float(x) => x.text.clone(),
        Value::Null => String::new(),
    }
}

/// Buffers rows, then writes them as a table with locked column widths.
pub struct TableFormatter<W> {
    pub cols: Vec<String>,
    pub buffered_rows: Vec<Row>,
    pub max_buffer: usize,
    writer: LoggedWriter<W>,
    col_widths: Vec<usize>,
    streaming: bool,
    header_written: bool,
}

impl<W: std::io::Write> TableFormatter<W> {
    /// The column names.
    pub closed spec fn cols_view(&self) -> Seq<Seq<char>> {
        self.cols@.map_values(|c: String| c@)
    }

    /// The buffered rows.
    pub closed spec fn rows_view(&self) -> Seq<Map<Seq<char>, Seq<char>>> {
        self.buffered_rows@.map_values(|r: Row| r@)
    }

    /// How many rows are buffered before the widths lock.
    pub closed spec fn buffer_limit(&self) -> usize {
        self.max_buffer
    }

    /// The locked column widths (meaningful once streaming).
    pub closed spec fn widths(&self) -> Seq<nat> {
        self.col_widths@.map_values(|w: usize| w as nat)
    }

    pub closed spec fn is_streaming(&self) -> bool {
        self.streaming
    }

    pub closed spec fn header_done(&self) -> bool {
        self.header_written
    }

    /// What was asked of the writer so far.
    pub closed spec fn events(&self) -> Seq<WriteEvent> {
        self.writer.events()
    }

    /// The columns are sorted (the merging of new column names searches
    /// them), and once streaming there is a locked width per column.
    pub closed spec fn wf(&self) -> bool {
        &&& names_sorted(self.cols_view())
        &&& self.streaming ==> self.col_widths@.len() == self.cols@.len() && self.header_written
    }

    /// A table that buffers up to `max_buffer` rows (at least one).
    pub fn new(writer: W, max_buffer: usize) -> (r: Self)
        ensures
            r.wf(),
            names_sorted(r.cols_view()),
            r.cols_view() == Seq::<Seq<char>>::empty(),
            r.rows_view() == Seq::<Map<Seq<char>, Seq<char>>>::empty(),
            r.buffer_limit() == if max_buffer >= 1 {
                max_buffer
            } else {
                1
            },
            !r.is_streaming(),
            !r.header_done(),
            r.events() == Seq::<WriteEvent>::empty(),
    {
        let r = TableFormatter {
            cols: Vec::new(),
            buffered_rows: Vec::new(),
            max_buffer: if max_buffer >= 1 {
                max_buffer
            } else {
                1
            },
            writer: LoggedWriter::new(writer),
            col_widths: Vec::new(),
            streaming: false,
            header_written: false,
        };
        assert(r.cols_view() =~= Seq::<Seq<char>>::empty());
        assert(r.rows_view() =~= Seq::<Map<Seq<char>, Seq<char>>>::empty());
        r
    }

    /// A table that buffers up to [`DEFAULT_MAX_BUFFER`] rows.
    pub fn with_default_max_buffer(writer: W) -> (r: Self)
        ensures
            r.wf(),
            r.cols_view() == Seq::<Seq<char>>::empty(),
            r.rows_view() == Seq::<Map<Seq<char>, Seq<char>>>::empty(),
            r.buffer_limit() == DEFAULT_MAX_BUFFER,
            !r.is_streaming(),
            !r.header_done(),
            r.events() == Seq::<WriteEvent>::empty(),
    {
        Self::new(writer, DEFAULT_MAX_BUFFER)
    }

    /// Whether widths are locked and rows stream out as they come.
    pub fn streaming(&self) -> (r: bool)
        ensures
            r == self.is_streaming(),
    {
        self.streaming
    }

    /// What `push_row` owes, from state `old` to `self`, for a row with
    /// cells `row`: once streaming, the row is written at once with the
    /// locked widths; before, its keys join the columns and it is buffered,
    /// and when the buffer reaches its limit, the header (the first time)
    /// and the buffered rows are written with widths fixed from them.
    pub open spec fn pushed(&self, old: Self, row: Map<Seq<char>, Seq<char>>, ok: bool) -> bool {
        &&& self.wf()
        &&& names_sorted(self.cols_view())
        &&& self.buffer_limit() == old.buffer_limit()
        &&& old.is_streaming() ==> {
            &&& self.cols_view() == old.cols_view()
            &&& self.widths() == old.widths()
            &&& self.rows_view() == old.rows_view()
            &&& self.is_streaming()
            &&& self.header_done()
            &&& self.events() == old.events().push(
                WriteEvent::Text(row_line(old.cols_view(), old.widths(), row)),
            )
        }
        &&& !old.is_streaming() ==> {
            let rows = old.rows_view().push(row);
            &&& rows.len() < old.buffer_limit() ==> {
                &&& forall|x: Seq<char>| #[trigger] self.cols_view().contains(x) <==> old.cols_view().contains(x)
                    || row.contains_key(x)
                &&& self.rows_view() == rows
                &&& !self.is_streaming()
                &&& self.header_done() == old.header_done()
                &&& self.events() == old.events()
            }
            &&& rows.len() >= old.buffer_limit() ==> {
                &&& forall|x: Seq<char>| #[trigger] self.cols_view().contains(x) <==> old.cols_view().contains(x)
                    || rows_have_key(rows, x)
                &&& wrote(old.events(), self.events(), emit_events(self.cols_view(), rows, old.header_done()), ok)
                &&& ok ==> {
                    &&& self.is_streaming()
                    &&& self.header_done()
                    &&& self.rows_view() == Seq::<Map<Seq<char>, Seq<char>>>::empty()
                    &&& self.widths() == column_widths(self.cols_view(), rows)
                }
            }
        }
    }

    /// Fixes the widths from the buffered rows, writes the header if not yet
    /// written, then the buffered rows, and starts streaming.
    fn emit_locked_width_flush(&mut self) -> (res: Result<(), std::io::Error>)
        requires
            old(self).wf(),
            !old(self).is_streaming(),
        ensures
            final(self).wf(),
            names_sorted(final(self).cols_view()),
            final(self).buffer_limit() == old(self).buffer_limit(),
            forall|x: Seq<char>| #[trigger] final(self).cols_view().contains(x) <==> old(self).cols_view().contains(x)
                || rows_have_key(old(self).rows_view(), x),
            old(self).rows_view().len() == 0 ==> *final(self) == *old(self),
            old(self).rows_view().len() > 0 ==> {
                &&& wrote(
                    old(self).events(),
                    final(self).events(),
                    emit_events(final(self).cols_view(), old(self).rows_view(), old(self).header_done()),
                    res is Ok,
                )
                &&& res is Ok ==> {
                    &&& final(self).is_streaming()
                    &&& final(self).header_done()
                    &&& final(self).rows_view() == Seq::<Map<Seq<char>, Seq<char>>>::empty()
                    &&& final(self).widths() == column_widths(final(self).cols_view(), old(self).rows_view())
                }
            },
    {
        if self.buffered_rows.len() == 0 {
            return Ok(());
        }
        let ghost cols0 = self.cols_view();
        let ghost rows0 = self.rows_view();
        let mut k: usize = 0;
        while k < self.buffered_rows.len()
            invariant
                k <= self.buffered_rows.len(),
                self.buffered_rows@ == old(self).buffered_rows@,
                rows0 == old(self).rows_view(),
                cols0 == old(self).cols_view(),
                self.writer == old(self).writer,
                self.header_written == old(self).header_written,
                !self.streaming,
                self.max_buffer == old(self).max_buffer,
                names_sorted(texts_of(self.cols@)),
                forall|x: Seq<char>| #[trigger] texts_of(self.cols@).contains(x) <==> cols0.contains(x)
                    || rows_have_key(rows0.take(k as int), x),
            decreases self.buffered_rows.len() - k,
        {
            proof {
                assert(self.rows_view() == rows0);
                assert(self.buffered_rows@[k as int]@ == rows0[k as int]);
                let t0 = rows0.take(k as int);
                let t1 = rows0.take(k + 1);
                assert forall|x: Seq<char>| rows_have_key(t1, x) <==> rows_have_key(t0, x)
                    || rows0[k as int].contains_key(x) by {
                    if rows_have_key(t1, x) {
                        let i = choose|i: int| 0 <= i < t1.len() && #[trigger] t1[i].contains_key(x);
                        if i < k {
                            assert(t0[i] == t1[i]);
                        }
                    }
                    if rows_have_key(t0, x) {
                        let i = choose|i: int| 0 <= i < t0.len() && #[trigger] t0[i].contains_key(x);
                        assert(t1[i] == t0[i]);
                    }
                    if rows0[k as int].contains_key(x) {
                        assert(t1[k as int] == rows0[k as int]);
                    }
                }
            }
            merge_cols_from_row(&mut self.cols, &self.buffered_rows[k]);
            k += 1;
        }
        proof {
            assert(rows0.take(rows0.len() as int) =~= rows0);
            assert(self.cols_view() == texts_of(self.cols@));
        }
        let ghost cols = self.cols_view();
        let ghost rows = self.rows_view();
        let ghost hd = self.header_written;
        let ghost start = self.writer.events();
        let ghost planned = emit_events(cols, rows, hd);
        let ghost ws = column_widths(cols, rows);
        let ghost h: int = if hd { 0 } else { 1 };
        assert(cols == texts_of(self.cols@));
        assert(rows == row_views(self.buffered_rows@));
        self.col_widths = compute_widths(&self.cols, &self.buffered_rows);
        assert(self.widths() == ws);
        if !self.header_written {
            let w = write_header_lines(&mut self.writer, &self.cols, &self.col_widths);
            if w.is_err() {
                proof {
                    lemma_prefix_of_extension(start, planned, 1);
                    assert(start + planned.take(1) =~= self.writer.events());
                }
                return w;
            }
            self.header_written = true;
        }
        assert(self.writer.events() =~= start + planned.take(h));
        let mut rows_taken: Vec<Row> = Vec::new();
        std::mem::swap(&mut rows_taken, &mut self.buffered_rows);
        assert(self.rows_view() =~= Seq::<Map<Seq<char>, Seq<char>>>::empty());
        let mut i: usize = 0;
        while i < rows_taken.len()
            invariant
                i <= rows_taken.len(),
                rows == row_views(rows_taken@),
                rows == old(self).rows_view(),
                rows.len() > 0,
                start == old(self).events(),
                hd == old(self).header_done(),
                planned.len() == h + rows.len(),
                forall|x: Seq<char>| #[trigger] cols.contains(x) <==> old(self).cols_view().contains(x)
                    || rows_have_key(old(self).rows_view(), x),
                cols == texts_of(self.cols@),
                names_sorted(cols),
                self.col_widths.len() == self.cols.len(),
                nats(self.col_widths@) == ws,
                ws == column_widths(cols, rows),
                planned == emit_events(cols, rows, hd),
                h == (if hd { 0int } else { 1int }),
                self.header_written,
                !self.streaming,
                self.buffered_rows@.len() == 0,
                self.max_buffer == old(self).max_buffer,
                self.writer.events() == start + planned.take(h + i),
            decreases rows_taken.len() - i,
        {
            let w = write_streaming_row_internal(&mut self.writer, &self.cols, &self.col_widths, &rows_taken[i]);
            proof {
                assert(planned[h + i] == WriteEvent::Text(row_line(cols, ws, rows[i as int])));
                assert(planned.take(h + i + 1) =~= planned.take(h + i).push(planned[h + i]));
                assert(self.writer.events() =~= start + planned.take(h + i + 1));
            }
            if w.is_err() {
                proof {
                    lemma_prefix_of_extension(start, planned, h + i + 1);
                }
                return w;
            }
            i += 1;
        }
        self.streaming = true;
        proof {
            assert(planned.take(h + rows.len()) =~= planned);
            lemma_prefix_of_extension(start, planned, planned.len() as int);
            assert(start + planned.take(planned.len() as int) =~= start + planned);
        }
        Ok(())
    }

    /// Takes one row: buffered (its keys join the columns) until the buffer
    /// is full, streamed once the widths are locked.
    pub fn push_row(&mut self, row: Row) -> (res: Result<(), std::io::Error>)
        requires
            old(self).wf(),
        ensures
            final(self).pushed(*old(self), row@, res is Ok),
    {
        if self.streaming {
            let w = write_streaming_row_internal(&mut self.writer, &self.cols, &self.col_widths, &row);
            return w;
        }
        let ghost old_rows = self.rows_view();
        let ghost row_v = row@;
        merge_cols_from_row(&mut self.cols, &row);
        self.buffered_rows.push(row);
        assert(self.rows_view() =~= old_rows.push(row_v));
        if self.buffered_rows.len() >= self.max_buffer {
            let ghost mid = self.cols_view();
            let ghost rows = self.rows_view();
            let e = self.emit_locked_width_flush();
            proof {
                assert forall|x: Seq<char>| #[trigger] self.cols_view().contains(x) <==> old(self).cols_view().contains(x)
                    || rows_have_key(rows, x) by {
                    if row_v.contains_key(x) {
                        assert(rows[rows.len() - 1] == row_v);
                        assert(rows_have_key(rows, x));
                    }
                }
            }
            return e;
        }
        Ok(())
    }

    /// Writes what is buffered (as a table, with widths fixed now), then
    /// flushes the writer.
    pub fn flush(&mut self) -> (res: Result<(), std::io::Error>)
        requires
            old(self).wf(),
        ensures
            final(self).wf(),
            final(self).buffer_limit() == old(self).buffer_limit(),
            !old(self).is_streaming() && old(self).rows_view().len() > 0 ==> {
                &&& forall|x: Seq<char>| #[trigger] final(self).cols_view().contains(x)
                    <==> old(self).cols_view().contains(x) || rows_have_key(old(self).rows_view(), x)
                &&& wrote(
                    old(self).events(),
                    final(self).events(),
                    emit_events(final(self).cols_view(), old(self).rows_view(), old(self).header_done()).push(
                        WriteEvent::Flush,
                    ),
                    res is Ok,
                )
                &&& res is Ok ==> {
                    &&& final(self).is_streaming()
                    &&& final(self).rows_view() == Seq::<Map<Seq<char>, Seq<char>>>::empty()
                    &&& final(self).widths() == column_widths(final(self).cols_view(), old(self).rows_view())
                }
            },
            old(self).is_streaming() || old(self).rows_view().len() == 0 ==> {
                &&& final(self).cols_view() == old(self).cols_view()
                &&& final(self).events() == old(self).events().push(WriteEvent::Flush)
                &&& final(self).rows_view() == old(self).rows_view()
                &&& final(self).is_streaming() == old(self).is_streaming()
                &&& final(self).widths() == old(self).widths()
            },
    {
        let ghost start = self.writer.events();
        if !self.streaming && self.buffered_rows.len() > 0 {
            let e = self.emit_locked_width_flush();
            let ghost planned = emit_events(self.cols_view(), old(self).rows_view(), old(self).header_done()).push(
                WriteEvent::Flush,
            );
            if e.is_err() {
                proof {
                    assert(planned.take(planned.len() - 1) =~= emit_events(
                        self.cols_view(),
                        old(self).rows_view(),
                        old(self).header_done(),
                    ));
                    assert((start + planned).take(self.writer.events().len() as int) =~= self.writer.events());
                }
                return e;
            }
            let f = self.writer.flush();
            assert(self.writer.events() =~= start + planned);
            assert((start + planned).take(self.writer.events().len() as int) =~= self.writer.events());
            return f;
        }
        self.writer.flush()
    }

    /// Takes a matched record as a row of its fields' texts and `_raw`.
    pub fn write(&mut self, r: &Record) -> (res: Result<(), std::io::Error>)
        requires
            old(self).wf(),
        ensures
            final(self).pushed(*old(self), record_row(r.view(), r.raw_view()), res is Ok),
    {
        let fields = r.iter();
        let ghost e = r.entries();
        let mut row = Row::new();
        let mut i: usize = 0;
        assert(crate::keyed::entries_map(e.take(0)) =~= Map::<Seq<char>, ValueView>::empty());
        assert(row@ =~= crate::keyed::entries_map(e.take(0)).map_values(|v: ValueView| scalar_display(v)));
        while i < fields.len()
            invariant
                i <= fields.len(),
                fields.len() == e.len(),
                e == r.entries(),
                crate::keyed::keys_strictly_sorted(e),
                forall|k: int|
                    0 <= k < fields.len() ==> (#[trigger] fields[k]).name@ == e[k].0
                        && fields[k].value@ == e[k].1,
                row@ == crate::keyed::entries_map(e.take(i as int)).map_values(
                    |v: ValueView| scalar_display(v),
                ),
            decreases fields.len() - i,
        {
            let f = fields[i];
            row.insert(f.name.to_owned(), record_scalar_display(f.value));
            proof {
                let k = e[i as int].0;
                let v = e[i as int].1;
                let t = e.take(i as int);
                assert(t.insert(i as int, (k, v)) =~= e.take(i + 1));
                crate::keyed::lemma_insert_map(t, i as int, k, v);
                assert(crate::keyed::entries_map(e.take(i + 1)).map_values(
                    |v: ValueView| scalar_display(v),
                ) =~= crate::keyed::entries_map(t).map_values(|v: ValueView| scalar_display(v)).insert(
                    k,
                    scalar_display(v),
                ));
            }
            i += 1;
        }
        assert(e.take(e.len() as int) =~= e);
        row.insert(String::from_str("_raw"), r.raw().to_owned());
        self.push_row(row)
    }

    /// The writer as it now is.
    pub closed spec fn writer_view(&self) -> W {
        self.writer.inner_view()
    }

    /// The writer, for direct use; the table state is left as it is.
    pub fn inner_mut(&mut self) -> (r: &mut W)
        ensures
            *r == old(self).writer_view(),
            final(self).writer_view() == *final(r),
            final(self).events() == old(self).events(),
            final(self).cols_view() == old(self).cols_view(),
            final(self).rows_view() == old(self).rows_view(),
            final(self).widths() == old(self).widths(),
            final(self).is_streaming() == old(self).is_streaming(),
            final(self).header_done() == old(self).header_done(),
            final(self).buffer_limit() == old(self).buffer_limit(),
    {
        self.writer.inner_mut()
    }

    /// The writer.
    pub fn into_inner(self) -> (r: W)
        ensures
            r == self.writer_view(),
    {
        self.writer.into_inner()
    }
}

} // verus!
