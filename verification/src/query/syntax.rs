//! The query grammar, as spec functions over the query's characters.
//!
//! ```text
//! expr    := and ( "or" and )*
//! and     := unary ( "and" unary )*
//! unary   := "not" unary | primary
//! primary := "(" expr ")" | field op literal
//! literal := string | "true" | "false" | number
//! ```
//!
//! Keywords must not be followed by an identifier character. Whitespace is
//! ASCII whitespace. A string literal holds its characters as written, with
//! the escapes `\n`, `\r`, `\t`, `\\` and `\"` decoded; a backslash before any
//! other character stands for that character.
//!
//! Each function takes a position and returns the parsed item with the
//! position after it, or the error that parsing stops with.

use vstd::prelude::*;
use vstd::utf8::encode_scalar;
use crate::float::FloatView;
use crate::query::ast::{ExprView, LiteralView, Op, regex_compiles};
use crate::query::float_text::float_debug_text;
use crate::text::{utf8_width, is_ascii_ws, is_digit, is_ascii_alpha, trim_unicode, parse_i64_text,
    nat_text, lemma_nat_text_digits, lemma_int_text_parses_back,
    is_float_text, int_text};

verus! {

/// The errors a query can fail with.
pub enum QueryErrorView {
    UnexpectedEof,
    UnexpectedToken(Seq<char>),
    TrailingInput(Seq<char>),
    Expected(Seq<char>),
    InvalidNumber(Seq<char>),
    UnterminatedString,
    InvalidRegex,
    KeywordField(Seq<char>),
}

/// Position of the first non-whitespace character at or after `p`.
pub open spec fn ws_end(s: Seq<char>, p: int) -> int
    decreases s.len() - p,
{
    if 0 <= p < s.len() && is_ascii_ws(s[p]) {
        ws_end(s, p + 1)
    } else {
        p
    }
}

pub proof fn lemma_ws_end(s: Seq<char>, p: int)
    requires
        0 <= p <= s.len(),
    ensures
        p <= ws_end(s, p) <= s.len(),
        ws_end(s, p) < s.len() ==> !is_ascii_ws(s[ws_end(s, p)]),
    decreases s.len() - p,
{
    if p < s.len() && is_ascii_ws(s[p]) {
        lemma_ws_end(s, p + 1);
    }
}

/// Characters that continue an identifier (and bound a keyword).
pub open spec fn is_ident_cont(c: char) -> bool {
    is_ascii_alpha(c) || is_digit(c) || c == '.' || c == '_' || c == '-'
}

/// End of the run of identifier characters starting at `p`.
pub open spec fn ident_end(s: Seq<char>, p: int) -> int
    decreases s.len() - p,
{
    if 0 <= p < s.len() && is_ident_cont(s[p]) {
        ident_end(s, p + 1)
    } else {
        p
    }
}

pub proof fn lemma_ident_end(s: Seq<char>, p: int)
    requires
        0 <= p <= s.len(),
    ensures
        p <= ident_end(s, p) <= s.len(),
    decreases s.len() - p,
{
    if p < s.len() && is_ident_cont(s[p]) {
        lemma_ident_end(s, p + 1);
    }
}

/// End of the run of ASCII digits starting at `p`.
pub open spec fn digits_end(s: Seq<char>, p: int) -> int
    decreases s.len() - p,
{
    if 0 <= p < s.len() && is_digit(s[p]) {
        digits_end(s, p + 1)
    } else {
        p
    }
}

pub proof fn lemma_digits_end(s: Seq<char>, p: int)
    requires
        0 <= p <= s.len(),
    ensures
        p <= digits_end(s, p) <= s.len(),
    decreases s.len() - p,
{
    if p < s.len() && is_digit(s[p]) {
        lemma_digits_end(s, p + 1);
    }
}

/// The keyword `kw` stands at `q` and is not followed by an identifier
/// character.
pub open spec fn keyword_at(s: Seq<char>, q: int, kw: Seq<char>) -> bool {
    &&& 0 <= q
    &&& q + kw.len() <= s.len()
    &&& s.subrange(q, q + kw.len()) == kw
    &&& !(q + kw.len() < s.len() && is_ident_cont(s[q + kw.len()]))
}

pub open spec fn kw_and() -> Seq<char> {
    seq!['a', 'n', 'd']
}

pub open spec fn kw_or() -> Seq<char> {
    seq!['o', 'r']
}

pub open spec fn kw_not() -> Seq<char> {
    seq!['n', 'o', 't']
}

pub open spec fn kw_true() -> Seq<char> {
    seq!['t', 'r', 'u', 'e']
}

pub open spec fn kw_false() -> Seq<char> {
    seq!['f', 'a', 'l', 's', 'e']
}

/// Words that cannot name a field.
pub open spec fn is_reserved_word(w: Seq<char>) -> bool {
    w == kw_and() || w == kw_or() || w == kw_not() || w == kw_true() || w == kw_false()
}

/// The characters whose code points are the UTF-8 bytes of `c` (so an ASCII
/// character stands for itself).
pub open spec fn latin1_of(c: char) -> Seq<char> {
    encode_scalar(c as u32).map_values(|b: u8| b as char)
}

/// End of the longest run of characters from `i` whose UTF-8 encoding fits in
/// `budget` bytes.
pub open spec fn window_end(s: Seq<char>, i: int, budget: int) -> int
    decreases s.len() - i,
{
    if 0 <= i < s.len() && utf8_width(s[i]) <= budget {
        window_end(s, i + 1, budget - utf8_width(s[i]))
    } else {
        i
    }
}

/// The excerpt an error quotes: at most 32 bytes of input from `start`,
/// trimmed, at most 24 characters.
pub open spec fn snippet(s: Seq<char>, start: int) -> Seq<char> {
    let t = trim_unicode(s.subrange(start, window_end(s, start, 32)));
    if t.len() <= 24 {
        t
    } else {
        t.take(24)
    }
}

/// What an escape `\c` inside a string literal stands for: the control
/// characters and the two quoted ones, and any other character itself.
pub open spec fn escaped(c: char) -> Seq<char> {
    if c == 'n' {
        seq!['\n']
    } else if c == 'r' {
        seq!['\r']
    } else if c == 't' {
        seq!['\t']
    } else if c == '\\' {
        seq!['\\']
    } else if c == '"' {
        seq!['"']
    } else {
        seq![c]
    }
}

/// The rest of a string literal from `i`, after the text `acc` read so far.
pub open spec fn string_body(s: Seq<char>, i: int, acc: Seq<char>) -> Result<
    (Seq<char>, int),
    QueryErrorView,
>
    decreases s.len() - i,
{
    if i < 0 || i >= s.len() {
        Err(QueryErrorView::UnterminatedString)
    } else if s[i] == '"' {
        Ok((acc, i + 1))
    } else if s[i] == '\\' {
        if i + 1 >= s.len() {
            Err(QueryErrorView::UnterminatedString)
        } else {
            string_body(s, i + 2, acc + escaped(s[i + 1]))
        }
    } else {
        string_body(s, i + 1, acc.push(s[i]))
    }
}

/// A string literal whose opening quote is at `q`.
pub open spec fn string_literal(s: Seq<char>, q: int) -> Result<(Seq<char>, int), QueryErrorView> {
    string_body(s, q + 1, Seq::empty())
}

/// A number starting at `p` (a sign or a digit).
pub open spec fn number(s: Seq<char>, p: int, rd: spec_fn(Seq<char>) -> FloatView) -> Result<
    (LiteralView, int),
    QueryErrorView,
> {
    let q1 = if p < s.len() && (s[p] == '+' || s[p] == '-') {
        p + 1
    } else {
        p
    };
    let q2 = digits_end(s, q1);
    if q2 < s.len() && (s[q2] == '.' || s[q2] == 'e' || s[q2] == 'E') {
        let q3 = if s[q2] == '.' {
            digits_end(s, q2 + 1)
        } else {
            q2
        };
        let q4 = if q3 < s.len() && (s[q3] == 'e' || s[q3] == 'E') {
            let a = q3 + 1;
            let b = if a < s.len() && (s[a] == '+' || s[a] == '-') {
                a + 1
            } else {
                a
            };
            digits_end(s, b)
        } else {
            q3
        };
        let text = s.subrange(p, q4);
        if is_float_text(text) {
            Ok((LiteralView::Float(rd(text)), q4))
        } else {
            Err(QueryErrorView::InvalidNumber(text))
        }
    } else {
        let text = s.subrange(p, q2);
        match parse_i64_text(text) {
            Some(v) => Ok((LiteralView::Int(v), q2)),
            None => Err(QueryErrorView::InvalidNumber(text)),
        }
    }
}

/// A literal after optional whitespace from `p`.
pub open spec fn literal(s: Seq<char>, p: int, rd: spec_fn(Seq<char>) -> FloatView) -> Result<
    (LiteralView, int),
    QueryErrorView,
> {
    let q = ws_end(s, p);
    if q >= s.len() {
        Err(QueryErrorView::UnexpectedEof)
    } else if s[q] == '"' {
        match string_literal(s, q) {
            Ok((t, r)) => Ok((LiteralView::Str(t), r)),
            Err(e) => Err(e),
        }
    } else if s[q] == 't' || s[q] == 'f' {
        if keyword_at(s, q, kw_true()) {
            Ok((LiteralView::Bool(true), q + 4))
        } else if keyword_at(s, q, kw_false()) {
            Ok((LiteralView::Bool(false), q + 5))
        } else {
            Err(QueryErrorView::UnexpectedToken(snippet(s, q)))
        }
    } else if is_digit(s[q]) || s[q] == '+' || s[q] == '-' {
        number(s, q, rd)
    } else {
        Err(QueryErrorView::UnexpectedToken(snippet(s, q)))
    }
}

/// A field name after optional whitespace from `p`.
pub open spec fn field_name(s: Seq<char>, p: int) -> Result<(Seq<char>, int), QueryErrorView> {
    let q = ws_end(s, p);
    if q >= s.len() {
        Err(QueryErrorView::UnexpectedEof)
    } else if !(is_ascii_alpha(s[q]) || s[q] == '_') {
        Err(QueryErrorView::UnexpectedToken(snippet(s, q)))
    } else {
        let r = ident_end(s, q + 1);
        let name = s.subrange(q, r);
        if is_reserved_word(name) {
            Err(QueryErrorView::KeywordField(name))
        } else {
            Ok((name, r))
        }
    }
}

/// `s[q..]` begins with `t`.
pub open spec fn starts_with_at(s: Seq<char>, q: int, t: Seq<char>) -> bool {
    0 <= q && q + t.len() <= s.len() && s.subrange(q, q + t.len()) == t
}

/// A comparison operator at `q`.
pub open spec fn operator(s: Seq<char>, q: int) -> Result<(Op, int), QueryErrorView> {
    if starts_with_at(s, q, seq!['!', '=']) {
        Ok((Op::Ne, q + 2))
    } else if starts_with_at(s, q, seq!['<', '=']) {
        Ok((Op::Le, q + 2))
    } else if starts_with_at(s, q, seq!['>', '=']) {
        Ok((Op::Ge, q + 2))
    } else if 0 <= q < s.len() && s[q] == '=' {
        Ok((Op::Eq, q + 1))
    } else if 0 <= q < s.len() && s[q] == '<' {
        Ok((Op::Lt, q + 1))
    } else if 0 <= q < s.len() && s[q] == '>' {
        Ok((Op::Gt, q + 1))
    } else if 0 <= q < s.len() && s[q] == '~' {
        Ok((Op::Match, q + 1))
    } else {
        Err(QueryErrorView::Expected("operator"@))
    }
}

/// The `Debug` rendering of a non-string literal, quoted when a regex match
/// is given one.
pub open spec fn literal_debug(l: LiteralView) -> Seq<char> {
    match l {
        LiteralView::Int(v) => seq!['I', 'n', 't', '('] + int_text(v as int) + seq![')'],
        LiteralView::Bool(b) => if b {
            seq!['B', 'o', 'o', 'l', '(', 't', 'r', 'u', 'e', ')']
        } else {
            seq!['B', 'o', 'o', 'l', '(', 'f', 'a', 'l', 's', 'e', ')']
        },
        LiteralView::Float(f) => seq!['F', 'l', 'o', 'a', 't', '('] + float_debug_text(f.text) + seq![
            ')',
        ],
        LiteralView::Str(t) => t,
        LiteralView::Regex(t) => t,
    }
}

/// A predicate `field op literal` from `p`.
pub open spec fn predicate(s: Seq<char>, p: int, rd: spec_fn(Seq<char>) -> FloatView) -> Result<
    (ExprView, int),
    QueryErrorView,
> {
    match field_name(s, p) {
        Err(e) => Err(e),
        Ok((name, q)) => match operator(s, ws_end(s, q)) {
            Err(e) => Err(e),
            Ok((op, q2)) => match literal(s, q2, rd) {
                Err(e) => Err(e),
                Ok((lit, r)) => if op == Op::Match {
                    match lit {
                        LiteralView::Str(pat) => if regex_compiles(pat) {
                            Ok((ExprView::Pred { field: name, op, rhs: LiteralView::Regex(pat) }, r))
                        } else {
                            Err(QueryErrorView::InvalidRegex)
                        },
                        other => Err(QueryErrorView::UnexpectedToken(literal_debug(other))),
                    }
                } else {
                    Ok((ExprView::Pred { field: name, op, rhs: lit }, r))
                },
            },
        },
    }
}

/// A parenthesised expression or a predicate, from `p`.
pub open spec fn primary(s: Seq<char>, p: int, rd: spec_fn(Seq<char>) -> FloatView) -> Result<
    (ExprView, int),
    QueryErrorView,
>
    decreases s.len() - p, 1nat,
{
    if 0 <= p <= s.len() {
        let q = ws_end(s, p);
        proof {
            lemma_ws_end(s, p);
        }
        if q < s.len() && s[q] == '(' {
            match expr(s, q + 1, rd) {
                Err(e) => Err(e),
                Ok((e, r)) => {
                    let r2 = ws_end(s, r);
                    if r2 >= s.len() {
                        Err(QueryErrorView::UnexpectedEof)
                    } else if s[r2] != ')' {
                        Err(QueryErrorView::UnexpectedToken(seq![latin1_of(s[r2])[0]]))
                    } else {
                        Ok((e, r2 + 1))
                    }
                },
            }
        } else {
            predicate(s, q, rd)
        }
    } else {
        Err(QueryErrorView::UnexpectedEof)
    }
}

/// `not`-prefixed terms, from `p`.
pub open spec fn unary(s: Seq<char>, p: int, rd: spec_fn(Seq<char>) -> FloatView) -> Result<
    (ExprView, int),
    QueryErrorView,
>
    decreases s.len() - p, 2nat,
{
    if 0 <= p <= s.len() {
        let q = ws_end(s, p);
        proof {
            lemma_ws_end(s, p);
        }
        if keyword_at(s, q, kw_not()) {
            match unary(s, q + 3, rd) {
                Err(e) => Err(e),
                Ok((e, r)) => Ok((ExprView::Not(Box::new(e)), r)),
            }
        } else {
            primary(s, q, rd)
        }
    } else {
        Err(QueryErrorView::UnexpectedEof)
    }
}

/// Further `and` operands after position `q`, appended to `acc`.
pub open spec fn and_rest(
    s: Seq<char>,
    q: int,
    acc: Seq<ExprView>,
    rd: spec_fn(Seq<char>) -> FloatView,
) -> Result<(Seq<ExprView>, int), QueryErrorView>
    decreases s.len() - q, 0nat,
{
    if 0 <= q <= s.len() {
        let q1 = ws_end(s, q);
        proof {
            lemma_ws_end(s, q);
        }
        if keyword_at(s, q1, kw_and()) {
            match unary(s, q1 + 3, rd) {
                Err(e) => Err(e),
                Ok((e, r)) => if q < r <= s.len() {
                    and_rest(s, r, acc.push(e), rd)
                } else {
                    Err(QueryErrorView::UnexpectedEof)
                },
            }
        } else {
            Ok((acc, q1))
        }
    } else {
        Err(QueryErrorView::UnexpectedEof)
    }
}

/// A conjunction, from `p`.
pub open spec fn conjunction(s: Seq<char>, p: int, rd: spec_fn(Seq<char>) -> FloatView) -> Result<
    (ExprView, int),
    QueryErrorView,
>
    decreases s.len() - p, 3nat,
{
    match unary(s, p, rd) {
        Err(e) => Err(e),
        Ok((first, q)) => if p < q <= s.len() {
            match and_rest(s, q, seq![first], rd) {
                Err(e) => Err(e),
                Ok((parts, r)) => if parts.len() == 1 {
                    Ok((parts[0], r))
                } else {
                    Ok((ExprView::And(parts), r))
                },
            }
        } else {
            Err(QueryErrorView::UnexpectedEof)
        },
    }
}

/// Further `or` operands after position `q`, appended to `acc`.
pub open spec fn or_rest(
    s: Seq<char>,
    q: int,
    acc: Seq<ExprView>,
    rd: spec_fn(Seq<char>) -> FloatView,
) -> Result<(Seq<ExprView>, int), QueryErrorView>
    decreases s.len() - q, 0nat,
{
    if 0 <= q <= s.len() {
        let q1 = ws_end(s, q);
        proof {
            lemma_ws_end(s, q);
        }
        if keyword_at(s, q1, kw_or()) {
            match conjunction(s, q1 + 2, rd) {
                Err(e) => Err(e),
                Ok((e, r)) => if q < r <= s.len() {
                    or_rest(s, r, acc.push(e), rd)
                } else {
                    Err(QueryErrorView::UnexpectedEof)
                },
            }
        } else {
            Ok((acc, q1))
        }
    } else {
        Err(QueryErrorView::UnexpectedEof)
    }
}

/// A disjunction (a whole expression), from `p`.
pub open spec fn expr(s: Seq<char>, p: int, rd: spec_fn(Seq<char>) -> FloatView) -> Result<
    (ExprView, int),
    QueryErrorView,
>
    decreases s.len() - p, 4nat,
{
    match conjunction(s, p, rd) {
        Err(e) => Err(e),
        Ok((first, q)) => if p < q <= s.len() {
            match or_rest(s, q, seq![first], rd) {
                Err(e) => Err(e),
                Ok((parts, r)) => if parts.len() == 1 {
                    Ok((parts[0], r))
                } else {
                    Ok((ExprView::Or(parts), r))
                },
            }
        } else {
            Err(QueryErrorView::UnexpectedEof)
        },
    }
}

/// A whole query: an expression followed only by whitespace.
pub open spec fn query(s: Seq<char>, rd: spec_fn(Seq<char>) -> FloatView) -> Result<
    ExprView,
    QueryErrorView,
> {
    match expr(s, 0, rd) {
        Err(e) => Err(e),
        Ok((e, q)) => {
            let q2 = ws_end(s, q);
            if q2 < s.len() {
                Err(QueryErrorView::TrailingInput(s.subrange(q2, s.len() as int)))
            } else {
                Ok(e)
            }
        },
    }
}

/// A word that can name a field: a letter or `_`, then identifier
/// characters, and not a keyword.
pub open spec fn is_field_word(f: Seq<char>) -> bool {
    &&& f.len() > 0
    &&& (is_ascii_alpha(f[0]) || f[0] == '_')
    &&& forall|i: int| 0 <= i < f.len() ==> is_ident_cont(#[trigger] f[i])
    &&& !is_reserved_word(f)
}

/// The text `f sym n`: a field, an operator symbol and an integer, with a
/// space on each side of the symbol.
#[verifier::opaque]
pub open spec fn comparison_text(f: Seq<char>, sym: Seq<char>, n: i64) -> Seq<char> {
    f + seq![' '] + sym + seq![' '] + int_text(n as int)
}

/// What `comparison_text` spells out.
pub proof fn lemma_comparison_text(f: Seq<char>, sym: Seq<char>, n: i64)
    ensures
        comparison_text(f, sym, n) == f + seq![' '] + sym + seq![' '] + int_text(n as int),
{
    reveal(comparison_text);
}

proof fn lemma_ident_run(s: Seq<char>, p: int, e: int)
    requires
        0 <= p <= e <= s.len(),
        forall|k: int| p <= k < e ==> is_ident_cont(#[trigger] s[k]),
        e == s.len() || !is_ident_cont(s[e]),
    ensures
        ident_end(s, p) == e,
    decreases e - p,
{
    if p < e {
        lemma_ident_run(s, p + 1, e);
    }
}

proof fn lemma_digit_run(s: Seq<char>, p: int)
    requires
        0 <= p <= s.len(),
        forall|k: int| p <= k < s.len() ==> is_digit(#[trigger] s[k]),
    ensures
        digits_end(s, p) == s.len(),
    decreases s.len() - p,
{
    if p < s.len() {
        lemma_digit_run(s, p + 1);
    }
}

/// A whole text that is one predicate from its start to its end (and does
/// not begin with whitespace, `(` or `not`) parses to that predicate.
proof fn lemma_single_predicate_query(s: Seq<char>, pred: ExprView, rd: spec_fn(Seq<char>) -> FloatView)
    requires
        s.len() > 0,
        !is_ascii_ws(s[0]),
        s[0] != '(',
        !keyword_at(s, 0, kw_not()),
        predicate(s, 0, rd) == Ok::<(ExprView, int), QueryErrorView>((pred, s.len() as int)),
    ensures
        query(s, rd) == Ok::<ExprView, QueryErrorView>(pred),
{
    let e = s.len() as int;
    assert(ws_end(s, 0) == 0);
    assert(primary(s, 0, rd) == Ok::<(ExprView, int), QueryErrorView>((pred, e)));
    assert(unary(s, 0, rd) == Ok::<(ExprView, int), QueryErrorView>((pred, e)));
    assert(ws_end(s, e) == e);
    assert(!keyword_at(s, e, kw_and()));
    assert(and_rest(s, e, seq![pred], rd) == Ok::<(Seq<ExprView>, int), QueryErrorView>(
        (seq![pred], e),
    ));
    assert(conjunction(s, 0, rd) == Ok::<(ExprView, int), QueryErrorView>((pred, e)));
    assert(!keyword_at(s, e, kw_or()));
    assert(or_rest(s, e, seq![pred], rd) == Ok::<(Seq<ExprView>, int), QueryErrorView>(
        (seq![pred], e),
    ));
    assert(expr(s, 0, rd) == Ok::<(ExprView, int), QueryErrorView>((pred, e)));
}

/// The integer text at the end of `s`, from `p`, reads as the literal `n`.
proof fn lemma_trailing_int_literal(s: Seq<char>, p: int, n: i64, rd: spec_fn(Seq<char>) -> FloatView)
    requires
        1 <= p <= s.len(),
        s[p - 1] == ' ',
        s.subrange(p, s.len() as int) == int_text(n as int),
    ensures
        literal(s, p - 1, rd) == Ok::<(LiteralView, int), QueryErrorView>(
            (LiteralView::Int(n), s.len() as int),
        ),
{
    let t = int_text(n as int);
    let e = s.len() as int;
    assert forall|k: int| 0 <= k < t.len() implies s[p + k] == t[k] by {
        assert(s.subrange(p, e)[k] == s[p + k]);
    }
    let q1 = if n < 0 { p + 1 } else { p };
    if n < 0 {
        let m = (-(n as int)) as nat;
        lemma_nat_text_digits(m);
        assert(t == seq!['-'] + nat_text(m));
        assert forall|k: int| q1 <= k < e implies is_digit(#[trigger] s[k]) by {
            assert(s[k] == t[k - p]);
            assert(t[k - p] == nat_text(m)[k - p - 1]);
        }
        assert(t[0] == '-');
        assert(s[p] == t[0]);
    } else {
        lemma_nat_text_digits(n as nat);
        assert forall|k: int| q1 <= k < e implies is_digit(#[trigger] s[k]) by {
            assert(s[k] == t[k - p]);
        }
        assert(is_digit(s[p]));
    }
    lemma_digit_run(s, q1);
    lemma_int_text_parses_back(n);
    assert(ws_end(s, p) == p);
    assert(ws_end(s, p - 1) == p);
    assert(number(s, p, rd) == Ok::<(LiteralView, int), QueryErrorView>((LiteralView::Int(n), e)));
}

/// The field word at the start of `f sym n` is read as the field name.
proof fn lemma_leading_field(f: Seq<char>, sym: Seq<char>, n: i64)
    requires
        is_field_word(f),
    ensures
        field_name(comparison_text(f, sym, n), 0) == Ok::<(Seq<char>, int), QueryErrorView>(
            (f, f.len() as int),
        ),
        !keyword_at(comparison_text(f, sym, n), 0, kw_not()),
        !is_ascii_ws(comparison_text(f, sym, n)[0]),
        comparison_text(f, sym, n)[0] != '(',
        comparison_text(f, sym, n)[f.len() as int] == ' ',
{
    reveal(comparison_text);
    let s = comparison_text(f, sym, n);
    let len_f = f.len() as int;
    assert forall|k: int| 0 <= k < len_f implies s[k] == f[k] by {}
    assert(s[len_f] == ' ');
    assert forall|k: int| 1 <= k < len_f implies is_ident_cont(#[trigger] s[k]) by {
        assert(s[k] == f[k]);
    }
    lemma_ident_run(s, 1, len_f);
    assert(s.subrange(0, len_f) =~= f);
    assert(ws_end(s, 0) == 0);
    if keyword_at(s, 0, kw_not()) {
        if len_f < 3 {
            assert(s.subrange(0, 3)[len_f] == s[len_f]);
            assert(kw_not()[len_f] != ' ');
        } else if len_f == 3 {
            assert(f =~= s.subrange(0, 3));
        } else {
            assert(s[3] == f[3]);
        }
    }
}

/// Parsing `f sym n`, where `sym` is read as the operator `op`, gives the
/// predicate `f op n`.
proof fn lemma_parse_comparison(f: Seq<char>, sym: Seq<char>, op: Op, n: i64, rd: spec_fn(Seq<char>) -> FloatView)
    requires
        is_field_word(f),
        sym.len() > 0,
        !is_ascii_ws(sym[0]),
        op != Op::Match,
        operator(comparison_text(f, sym, n), f.len() + 1int) == Ok::<(Op, int), QueryErrorView>(
            (op, f.len() + 1int + sym.len()),
        ),
    ensures
        query(comparison_text(f, sym, n), rd) == Ok::<ExprView, QueryErrorView>(
            ExprView::Pred { field: f, op, rhs: LiteralView::Int(n) },
        ),
{
    reveal(comparison_text);
    let s = comparison_text(f, sym, n);
    let len_f = f.len() as int;
    let p = len_f + 2 + sym.len();
    lemma_leading_field(f, sym, n);
    assert(s[len_f + 1] == sym[0]);
    assert(ws_end(s, len_f + 1) == len_f + 1);
    assert(ws_end(s, len_f) == len_f + 1);
    assert(s[p - 1] == ' ');
    assert(s.subrange(p, s.len() as int) =~= int_text(n as int));
    lemma_trailing_int_literal(s, p, n, rd);
    let pred = ExprView::Pred { field: f, op, rhs: LiteralView::Int(n) };
    assert(predicate(s, 0, rd) == Ok::<(ExprView, int), QueryErrorView>((pred, s.len() as int)));
    lemma_single_predicate_query(s, pred, rd);
}

/// The symbol after the field is read as `op`: one of the six comparison
/// symbols, each with its operator.
proof fn lemma_symbol_reads(f: Seq<char>, sym: Seq<char>, op: Op, n: i64)
    requires
        (sym == seq!['>'] && op == Op::Gt) || (sym == seq!['>', '='] && op == Op::Ge) || (sym
            == seq!['<'] && op == Op::Lt) || (sym == seq!['<', '='] && op == Op::Le) || (sym
            == seq!['='] && op == Op::Eq) || (sym == seq!['!', '='] && op == Op::Ne),
    ensures
        operator(comparison_text(f, sym, n), f.len() + 1int) == Ok::<(Op, int), QueryErrorView>(
            (op, f.len() + 1int + sym.len()),
        ),
{
    reveal(comparison_text);
    let s = comparison_text(f, sym, n);
    let q: int = f.len() + 1int;
    assert(s[q] == sym[0]);
    assert(s[q + 1] == if sym.len() == 2 { sym[1] } else { ' ' });
    if sym.len() == 2 {
        assert(s.subrange(q, q + 2) =~= sym);
    }
    assert(!starts_with_at(s, q, seq!['!', '=']) || sym == seq!['!', '=']) by {
        if starts_with_at(s, q, seq!['!', '=']) {
            assert(s.subrange(q, q + 2)[0] == '!');
        }
    }
    assert(!starts_with_at(s, q, seq!['<', '=']) || sym == seq!['<', '=']) by {
        if starts_with_at(s, q, seq!['<', '=']) {
            assert(s.subrange(q, q + 2)[0] == '<');
            assert(s.subrange(q, q + 2)[1] == '=');
        }
    }
    assert(!starts_with_at(s, q, seq!['>', '=']) || sym == seq!['>', '=']) by {
        if starts_with_at(s, q, seq!['>', '=']) {
            assert(s.subrange(q, q + 2)[0] == '>');
            assert(s.subrange(q, q + 2)[1] == '=');
        }
    }
}

/// One comparison symbol and its operator.
proof fn lemma_comparison_case(f: Seq<char>, sym: Seq<char>, op: Op, n: i64, rd: spec_fn(Seq<char>) -> FloatView)
    requires
        is_field_word(f),
        (sym == seq!['>'] && op == Op::Gt) || (sym == seq!['>', '='] && op == Op::Ge) || (sym
            == seq!['<'] && op == Op::Lt) || (sym == seq!['<', '='] && op == Op::Le) || (sym
            == seq!['='] && op == Op::Eq) || (sym == seq!['!', '='] && op == Op::Ne),
    ensures
        query(comparison_text(f, sym, n), rd) == Ok::<ExprView, QueryErrorView>(
            ExprView::Pred { field: f, op, rhs: LiteralView::Int(n) },
        ),
{
    lemma_symbol_reads(f, sym, op, n);
    lemma_parse_comparison(f, sym, op, n, rd);
}

/// For every field word `f` and integer `n`, the query `f > n` is the
/// predicate "`f` greater than `n`" (a single `>` not followed by `=` is the
/// strict operator) and `f >= n` is "greater than or equal".
pub proof fn law_greater_symbols_parse_to_greater_operators(f: Seq<char>, n: i64, rd: spec_fn(Seq<char>) -> FloatView)
    requires
        is_field_word(f),
    ensures
        query(comparison_text(f, seq!['>'], n), rd) == Ok::<ExprView, QueryErrorView>(
            ExprView::Pred { field: f, op: Op::Gt, rhs: LiteralView::Int(n) },
        ),
        query(comparison_text(f, seq!['>', '='], n), rd) == Ok::<ExprView, QueryErrorView>(
            ExprView::Pred { field: f, op: Op::Ge, rhs: LiteralView::Int(n) },
        ),
{
    lemma_comparison_case(f, seq!['>'], Op::Gt, n, rd);
    lemma_comparison_case(f, seq!['>', '='], Op::Ge, n, rd);
}

/// For every field word `f` and integer `n`, the query `f < n` is the
/// predicate "`f` less than `n`" and `f <= n` is "less than or equal".
pub proof fn law_less_symbols_parse_to_less_operators(f: Seq<char>, n: i64, rd: spec_fn(Seq<char>) -> FloatView)
    requires
        is_field_word(f),
    ensures
        query(comparison_text(f, seq!['<'], n), rd) == Ok::<ExprView, QueryErrorView>(
            ExprView::Pred { field: f, op: Op::Lt, rhs: LiteralView::Int(n) },
        ),
        query(comparison_text(f, seq!['<', '='], n), rd) == Ok::<ExprView, QueryErrorView>(
            ExprView::Pred { field: f, op: Op::Le, rhs: LiteralView::Int(n) },
        ),
{
    lemma_comparison_case(f, seq!['<'], Op::Lt, n, rd);
    lemma_comparison_case(f, seq!['<', '='], Op::Le, n, rd);
}

/// For every field word `f` and integer `n`, the query `f = n` is the
/// predicate "`f` equals `n`" and `f != n` is "`f` differs from `n`".
pub proof fn law_equality_symbols_parse_to_equality_operators(f: Seq<char>, n: i64, rd: spec_fn(Seq<char>) -> FloatView)
    requires
        is_field_word(f),
    ensures
        query(comparison_text(f, seq!['='], n), rd) == Ok::<ExprView, QueryErrorView>(
            ExprView::Pred { field: f, op: Op::Eq, rhs: LiteralView::Int(n) },
        ),
        query(comparison_text(f, seq!['!', '='], n), rd) == Ok::<ExprView, QueryErrorView>(
            ExprView::Pred { field: f, op: Op::Ne, rhs: LiteralView::Int(n) },
        ),
{
    lemma_comparison_case(f, seq!['='], Op::Eq, n, rd);
    lemma_comparison_case(f, seq!['!', '='], Op::Ne, n, rd);
}

} // verus!
