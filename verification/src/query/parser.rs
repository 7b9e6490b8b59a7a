//! Recursive-descent parser for queries, proved against [`crate::query::syntax`].

use vstd::prelude::*;
use crate::float::{FloatRepr, is_float_reader, reader_fn, read_float};
use crate::query::ast::{Expr, ExprView, Literal, Op, Pattern, lemma_views_of};
use crate::query::float_text::push_float_debug;
use crate::query::syntax::{QueryErrorView, ws_end, lemma_ws_end, ident_end, lemma_ident_end,
    digits_end, lemma_digits_end, keyword_at, latin1_of, window_end, snippet, escaped, string_body,
    string_literal, number, literal, field_name, starts_with_at, operator, literal_debug,
    predicate, primary, unary, and_rest, conjunction, or_rest, expr, query};
use crate::text::{utf8_width_exec, chars_of, string_of, trim_chars, is_ascii_ws_exec,
    parse_i64_chars, is_float_text_exec, i64_text, push_str};

verus! {

/// Why a query failed to parse.
#[derive(Debug)]
pub enum QueryParseError {
    UnexpectedEof,
    UnexpectedToken(String),
    TrailingInput(String),
    Expected { expected: &'static str },
    InvalidNumber(String),
    UnterminatedString,
    InvalidRegex(regex::Error),
    KeywordField { keyword: String },
}

impl View for QueryParseError {
    type V = QueryErrorView;

    open spec fn view(&self) -> QueryErrorView {
        match self {
            QueryParseError::UnexpectedEof => QueryErrorView::UnexpectedEof,
            QueryParseError::UnexpectedToken(t) => QueryErrorView::UnexpectedToken(t@),
            QueryParseError::TrailingInput(t) => QueryErrorView::TrailingInput(t@),
            QueryParseError::Expected { expected } => QueryErrorView::Expected(expected@),
            QueryParseError::InvalidNumber(t) => QueryErrorView::InvalidNumber(t@),
            QueryParseError::UnterminatedString => QueryErrorView::UnterminatedString,
            QueryParseError::InvalidRegex(_) => QueryErrorView::InvalidRegex,
            QueryParseError::KeywordField { keyword } => QueryErrorView::KeywordField(keyword@),
        }
    }
}

/// An executable result agrees with a spec result that also gives the end
/// position.
pub open spec fn agrees<T: View>(
    r: Result<T, QueryParseError>,
    spec: Result<(T::V, int), QueryErrorView>,
    pos: int,
) -> bool {
    match spec {
        Ok((v, q)) => r matches Ok(x) && x@ == v && pos == q,
        Err(e) => r matches Err(x) && x@ == e,
    }
}

/// The first character of `latin1_of(c)`.
fn latin1_first(c: char) -> (r: char)
    ensures
        r == latin1_of(c)[0],
{
    let x = c as u32;
    if x <= 0x7F {
        ((x & 0x7F) as u8) as char
    } else if x <= 0x7FF {
        (0xC0 | ((x >> 6) & 0x1F) as u8) as char
    } else if x <= 0xFFFF {
        (0xE0 | ((x >> 12) & 0x0F) as u8) as char
    } else {
        (0xF0 | ((x >> 18) & 0x7) as u8) as char
    }
}

fn char_string(c: char) -> (r: String)
    ensures
        r@ == seq![c],
{
    let mut s = String::new();
    s.push(c);
    s
}

struct Parser {
    s: Vec<char>,
    pos: usize,
}

impl Parser {
    fn skip_ws(&mut self)
        requires
            old(self).pos <= old(self).s.len(),
        ensures
            final(self).s@ == old(self).s@,
            final(self).pos == ws_end(old(self).s@, old(self).pos as int),
            old(self).pos <= final(self).pos <= final(self).s.len(),
    {
        proof {
            lemma_ws_end(self.s@, self.pos as int);
        }
        while self.pos < self.s.len() && is_ascii_ws_exec(self.s[self.pos])
            invariant
                self.s@ == old(self).s@,
                old(self).pos <= self.pos <= self.s.len(),
                ws_end(self.s@, self.pos as int) == ws_end(old(self).s@, old(self).pos as int),
            decreases self.s.len() - self.pos,
        {
            self.pos += 1;
        }
    }

    fn keyword_here(&self, kw: &[char]) -> (r: bool)
        requires
            self.pos <= self.s.len(),
        ensures
            r == keyword_at(self.s@, self.pos as int, kw@),
    {
        let q = self.pos;
        if kw.len() > self.s.len() - q {
            return false;
        }
        let mut i: usize = 0;
        while i < kw.len()
            invariant
                q + kw.len() <= self.s.len(),
                q == self.pos,
                i <= kw.len(),
                forall|k: int| 0 <= k < i ==> self.s@[q + k] == kw@[k],
            decreases kw.len() - i,
        {
            if self.s[q + i] != kw[i] {
                assert(self.s@.subrange(q as int, q + kw.len())[i as int] == self.s@[q + i]);
                return false;
            }
            i += 1;
        }
        assert(self.s@.subrange(q as int, q + kw.len()) =~= kw@);
        let end = q + kw.len();
        if end < self.s.len() {
            let c = self.s[end];
            !(('a' <= c && c <= 'z') || ('A' <= c && c <= 'Z') || ('0' <= c && c <= '9') || c == '.'
                || c == '_' || c == '-')
        } else {
            true
        }
    }

    fn starts_with_here(&self, t: &[char]) -> (r: bool)
        requires
            self.pos <= self.s.len(),
        ensures
            r == starts_with_at(self.s@, self.pos as int, t@),
    {
        let q = self.pos;
        if t.len() > self.s.len() - q {
            return false;
        }
        let mut i: usize = 0;
        while i < t.len()
            invariant
                q + t.len() <= self.s.len(),
                q == self.pos,
                i <= t.len(),
                forall|k: int| 0 <= k < i ==> self.s@[q + k] == t@[k],
            decreases t.len() - i,
        {
            if self.s[q + i] != t[i] {
                assert(self.s@.subrange(q as int, q + t.len())[i as int] == self.s@[q + i]);
                return false;
            }
            i += 1;
        }
        assert(self.s@.subrange(q as int, q + t.len()) =~= t@);
        true
    }

    fn snippet_at(&self, start: usize) -> (r: String)
        requires
            start <= self.s.len(),
        ensures
            r@ == snippet(self.s@, start as int),
    {
        let mut i = start;
        let mut budget: usize = 32;
        while i < self.s.len() && utf8_width_exec(self.s[i]) <= budget
            invariant
                start <= i <= self.s.len(),
                budget <= 32,
                window_end(self.s@, i as int, budget as int) == window_end(
                    self.s@,
                    start as int,
                    32,
                ),
            decreases self.s.len() - i,
        {
            budget = budget - utf8_width_exec(self.s[i]);
            i += 1;
        }
        let mut sub: Vec<char> = Vec::new();
        let mut k = start;
        while k < i
            invariant
                start <= k <= i <= self.s.len(),
                sub@ == self.s@.subrange(start as int, k as int),
            decreases i - k,
        {
            sub.push(self.s[k]);
            k += 1;
        }
        let t = trim_chars(&sub);
        let n = if t.len() <= 24 { t.len() } else { 24 };
        let r = string_of(&t, 0, n);
        assert(t@.subrange(0, n as int) =~= (if t@.len() <= 24 { t@ } else { t@.take(24) }));
        r
    }

    fn parse_string_literal(&mut self) -> (r: Result<String, QueryParseError>)
        requires
            old(self).pos < old(self).s.len(),
            old(self).s@[old(self).pos as int] == '"',
        ensures
            final(self).s@ == old(self).s@,
            final(self).pos <= final(self).s.len(),
            agrees(r, string_literal(old(self).s@, old(self).pos as int), final(self).pos as int),
    {
        let ghost s0 = self.s@;
        let ghost q = self.pos as int;
        self.pos += 1;
        let mut out = String::new();
        while self.pos < self.s.len()
            invariant
                self.s@ == s0,
                s0 == old(self).s@,
                q == old(self).pos,
                q < self.pos <= self.s.len(),
                string_body(s0, self.pos as int, out@) == string_literal(s0, q),
            decreases self.s.len() - self.pos,
        {
            let c = self.s[self.pos];
            if c == '"' {
                self.pos += 1;
                return Ok(out);
            }
            if c == '\\' {
                self.pos += 1;
                if self.pos >= self.s.len() {
                    return Err(QueryParseError::UnterminatedString);
                }
                let e = self.s[self.pos];
                self.pos += 1;
                let ghost old_out = out@;
                if e == 'n' {
                    out.push('\n');
                } else if e == 'r' {
                    out.push('\r');
                } else if e == 't' {
                    out.push('\t');
                } else if e == '\\' {
                    out.push('\\');
                } else if e == '"' {
                    out.push('"');
                } else {
                    out.push(e);
                }
                assert(out@ =~= old_out + escaped(e));
            } else {
                out.push(c);
                self.pos += 1;
            }
        }
        Err(QueryParseError::UnterminatedString)
    }

    fn parse_number<F: Fn(&str) -> FloatRepr>(&mut self, rf: &F) -> (r: Result<
        Literal,
        QueryParseError,
    >)
        requires
            old(self).pos < old(self).s.len(),
            is_float_reader(*rf),
        ensures
            final(self).s@ == old(self).s@,
            final(self).pos <= final(self).s.len(),
            agrees(
                r,
                number(old(self).s@, old(self).pos as int, reader_fn(*rf)),
                final(self).pos as int,
            ),
    {
        let ghost s = self.s@;
        let p = self.pos;
        let len = self.s.len();
        let q1 = if self.s[p] == '+' || self.s[p] == '-' { p + 1 } else { p };
        let q2 = self.digits_from(q1);
        if q2 < len && (self.s[q2] == '.' || self.s[q2] == 'e' || self.s[q2] == 'E') {
            let q3 = if self.s[q2] == '.' { self.digits_from(q2 + 1) } else { q2 };
            let q4 = if q3 < len && (self.s[q3] == 'e' || self.s[q3] == 'E') {
                let a = q3 + 1;
                let b = if a < len && (self.s[a] == '+' || self.s[a] == '-') { a + 1 } else { a };
                self.digits_from(b)
            } else {
                q3
            };
            let text = string_of(&self.s, p, q4);
            if is_float_text_exec(&self.s, p, q4) {
                let f = read_float(rf, text.as_str());
                self.pos = q4;
                Ok(Literal::Float(f))
            } else {
                Err(QueryParseError::InvalidNumber(text))
            }
        } else {
            let text = string_of(&self.s, p, q2);
            match parse_i64_chars(&self.s, p, q2) {
                Some(v) => {
                    self.pos = q2;
                    Ok(Literal::Int(v))
                },
                None => Err(QueryParseError::InvalidNumber(text)),
            }
        }
    }

    fn digits_from(&self, p: usize) -> (r: usize)
        requires
            p <= self.s.len(),
        ensures
            r == digits_end(self.s@, p as int),
            p <= r <= self.s.len(),
    {
        proof {
            lemma_digits_end(self.s@, p as int);
        }
        let mut i = p;
        while i < self.s.len() && '0' <= self.s[i] && self.s[i] <= '9'
            invariant
                p <= i <= self.s.len(),
                digits_end(self.s@, i as int) == digits_end(self.s@, p as int),
            decreases self.s.len() - i,
        {
            i += 1;
        }
        i
    }

    fn parse_literal<F: Fn(&str) -> FloatRepr>(&mut self, rf: &F) -> (r: Result<
        Literal,
        QueryParseError,
    >)
        requires
            old(self).pos <= old(self).s.len(),
            is_float_reader(*rf),
        ensures
            final(self).s@ == old(self).s@,
            final(self).pos <= final(self).s.len(),
            agrees(
                r,
                literal(old(self).s@, old(self).pos as int, reader_fn(*rf)),
                final(self).pos as int,
            ),
    {
        self.skip_ws();
        let q = self.pos;
        if q >= self.s.len() {
            return Err(QueryParseError::UnexpectedEof);
        }
        let c = self.s[q];
        if c == '"' {
            let t = self.parse_string_literal()?;
            Ok(Literal::Str(t))
        } else if c == 't' || c == 'f' {
            if self.keyword_here(&['t', 'r', 'u', 'e']) {
                self.pos = q + 4;
                Ok(Literal::Bool(true))
            } else if self.keyword_here(&['f', 'a', 'l', 's', 'e']) {
                self.pos = q + 5;
                Ok(Literal::Bool(false))
            } else {
                Err(QueryParseError::UnexpectedToken(self.snippet_at(q)))
            }
        } else if ('0' <= c && c <= '9') || c == '+' || c == '-' {
            self.parse_number(rf)
        } else {
            Err(QueryParseError::UnexpectedToken(self.snippet_at(q)))
        }
    }

    fn parse_ident_for_field(&mut self) -> (r: Result<String, QueryParseError>)
        requires
            old(self).pos <= old(self).s.len(),
        ensures
            final(self).s@ == old(self).s@,
            final(self).pos <= final(self).s.len(),
            agrees(r, field_name(old(self).s@, old(self).pos as int), final(self).pos as int),
    {
        self.skip_ws();
        let q = self.pos;
        if q >= self.s.len() {
            return Err(QueryParseError::UnexpectedEof);
        }
        let first = self.s[q];
        if !(('a' <= first && first <= 'z') || ('A' <= first && first <= 'Z') || first == '_') {
            return Err(QueryParseError::UnexpectedToken(self.snippet_at(q)));
        }
        let mut r = q + 1;
        proof {
            lemma_ident_end(self.s@, r as int);
        }
        while r < self.s.len() && (('a' <= self.s[r] && self.s[r] <= 'z') || ('A' <= self.s[r]
            && self.s[r] <= 'Z') || ('0' <= self.s[r] && self.s[r] <= '9') || self.s[r] == '.'
            || self.s[r] == '_' || self.s[r] == '-')
            invariant
                q < r <= self.s.len(),
                ident_end(self.s@, r as int) == ident_end(self.s@, q + 1),
            decreases self.s.len() - r,
        {
            r += 1;
        }
        let name = string_of(&self.s, q, r);
        let reserved = self.span_is(q, r, &['a', 'n', 'd']) || self.span_is(q, r, &['o', 'r'])
            || self.span_is(q, r, &['n', 'o', 't']) || self.span_is(q, r, &['t', 'r', 'u', 'e'])
            || self.span_is(q, r, &['f', 'a', 'l', 's', 'e']);
        if reserved {
            return Err(QueryParseError::KeywordField { keyword: name });
        }
        self.pos = r;
        Ok(name)
    }

    fn span_is(&self, from: usize, to: usize, w: &[char]) -> (r: bool)
        requires
            from <= to <= self.s.len(),
        ensures
            r == (self.s@.subrange(from as int, to as int) == w@),
    {
        if to - from != w.len() {
            return false;
        }
        let mut i: usize = 0;
        while i < w.len()
            invariant
                to - from == w.len(),
                from <= to <= self.s.len(),
                i <= w.len(),
                forall|k: int| 0 <= k < i ==> self.s@[from + k] == w@[k],
            decreases w.len() - i,
        {
            if self.s[from + i] != w[i] {
                assert(self.s@.subrange(from as int, to as int)[i as int] == self.s@[from + i]);
                return false;
            }
            i += 1;
        }
        assert(self.s@.subrange(from as int, to as int) =~= w@);
        true
    }

    fn literal_debug_text(lit: &Literal) -> (r: String)
        ensures
            r@ == literal_debug(lit@),
    {
        match lit {
            Literal::Int(v) => {
                let mut s = String::from_str("Int(");
                let t = i64_text(*v);
                s.append(t.as_str());
                s.push(')');
                proof {
                    reveal_strlit("Int(");
                }
                s
            },
            Literal::Bool(b) => {
                let mut s = String::from_str("Bool(");
                if *b {
                    s.append("true");
                } else {
                    s.append("false");
                }
                s.push(')');
                proof {
                    reveal_strlit("Bool(");
                    reveal_strlit("true");
                    reveal_strlit("false");
                }
                assert(s@ =~= literal_debug(lit@));
                s
            },
            Literal::Float(f) => {
                let mut s = String::from_str("Float(");
                push_float_debug(&mut s, f.text.as_str());
                s.push(')');
                proof {
                    reveal_strlit("Float(");
                }
                assert(s@ =~= literal_debug(lit@));
                s
            },
            Literal::Str(t) => t.clone(),
            Literal::Regex(p) => String::from_str(p.as_str()),
        }
    }

    fn parse_predicate<F: Fn(&str) -> FloatRepr>(&mut self, rf: &F) -> (r: Result<
        Expr,
        QueryParseError,
    >)
        requires
            old(self).pos <= old(self).s.len(),
            is_float_reader(*rf),
        ensures
            final(self).s@ == old(self).s@,
            final(self).pos <= final(self).s.len(),
            agrees(
                r,
                predicate(old(self).s@, old(self).pos as int, reader_fn(*rf)),
                final(self).pos as int,
            ),
    {
        let ghost s0 = self.s@;
        let ghost p0 = self.pos as int;
        let field = self.parse_ident_for_field()?;
        let ghost q = self.pos as int;
        assert(field_name(s0, p0) == Ok::<(Seq<char>, int), QueryErrorView>((field@, q)));
        self.skip_ws();
        let op = if self.starts_with_here(&['!', '=']) {
            self.pos = self.pos + 2;
            Op::Ne
        } else if self.starts_with_here(&['<', '=']) {
            self.pos = self.pos + 2;
            Op::Le
        } else if self.starts_with_here(&['>', '=']) {
            self.pos = self.pos + 2;
            Op::Ge
        } else if self.pos < self.s.len() && self.s[self.pos] == '=' {
            self.pos = self.pos + 1;
            Op::Eq
        } else if self.pos < self.s.len() && self.s[self.pos] == '<' {
            self.pos = self.pos + 1;
            Op::Lt
        } else if self.pos < self.s.len() && self.s[self.pos] == '>' {
            self.pos = self.pos + 1;
            Op::Gt
        } else if self.pos < self.s.len() && self.s[self.pos] == '~' {
            self.pos = self.pos + 1;
            Op::Match
        } else {
            return Err(QueryParseError::Expected { expected: "operator" });
        };
        let rhs = self.parse_literal(rf)?;
        if op == Op::Match {
            match rhs {
                Literal::Str(pattern) => match Pattern::compile(pattern.as_str()) {
                    Ok(p) => Ok(Expr::Pred { field, op, rhs: Literal::Regex(p) }),
                    Err(e) => Err(QueryParseError::InvalidRegex(e)),
                },
                other => Err(QueryParseError::UnexpectedToken(Parser::literal_debug_text(&other))),
            }
        } else {
            Ok(Expr::Pred { field, op, rhs })
        }
    }

    fn parse_primary<F: Fn(&str) -> FloatRepr>(&mut self, rf: &F) -> (r: Result<
        Expr,
        QueryParseError,
    >)
        requires
            old(self).pos <= old(self).s.len(),
            is_float_reader(*rf),
        ensures
            final(self).s@ == old(self).s@,
            final(self).pos <= final(self).s.len(),
            agrees(
                r,
                primary(old(self).s@, old(self).pos as int, reader_fn(*rf)),
                final(self).pos as int,
            ),
        decreases old(self).s.len() - old(self).pos, 1nat,
    {
        self.skip_ws();
        let q = self.pos;
        if q < self.s.len() && self.s[q] == '(' {
            self.pos = q + 1;
            let e = self.parse_expr(rf)?;
            self.skip_ws();
            if self.pos >= self.s.len() {
                return Err(QueryParseError::UnexpectedEof);
            }
            let c = self.s[self.pos];
            if c != ')' {
                return Err(QueryParseError::UnexpectedToken(char_string(latin1_first(c))));
            }
            self.pos = self.pos + 1;
            Ok(e)
        } else {
            self.parse_predicate(rf)
        }
    }

    fn parse_unary<F: Fn(&str) -> FloatRepr>(&mut self, rf: &F) -> (r: Result<
        Expr,
        QueryParseError,
    >)
        requires
            old(self).pos <= old(self).s.len(),
            is_float_reader(*rf),
        ensures
            final(self).s@ == old(self).s@,
            final(self).pos <= final(self).s.len(),
            agrees(
                r,
                unary(old(self).s@, old(self).pos as int, reader_fn(*rf)),
                final(self).pos as int,
            ),
        decreases old(self).s.len() - old(self).pos, 2nat,
    {
        self.skip_ws();
        let q = self.pos;
        if self.keyword_here(&['n', 'o', 't']) {
            self.pos = q + 3;
            let e = self.parse_unary(rf)?;
            Ok(Expr::Not(Box::new(e)))
        } else {
            self.parse_primary(rf)
        }
    }

    fn parse_and<F: Fn(&str) -> FloatRepr>(&mut self, rf: &F) -> (r: Result<Expr, QueryParseError>)
        requires
            old(self).pos <= old(self).s.len(),
            is_float_reader(*rf),
        ensures
            final(self).s@ == old(self).s@,
            final(self).pos <= final(self).s.len(),
            agrees(
                r,
                conjunction(old(self).s@, old(self).pos as int, reader_fn(*rf)),
                final(self).pos as int,
            ),
        decreases old(self).s.len() - old(self).pos, 3nat,
    {
        let ghost s0 = self.s@;
        let ghost rd = reader_fn(*rf);
        let start = self.pos;
        let first = self.parse_unary(rf)?;
        if !(start < self.pos) {
            return Err(QueryParseError::UnexpectedEof);
        }
        let ghost q0 = self.pos as int;
        let ghost v0 = first@;
        let mut parts: Vec<Expr> = Vec::new();
        parts.push(first);
        proof {
            lemma_views_of(parts@);
            assert(Expr::views_of(parts@) =~= seq![v0]);
        }
        loop
            invariant
                self.s@ == s0,
                s0 == old(self).s@,
                start == old(self).pos,
                start < self.pos <= self.s.len(),
                is_float_reader(*rf),
                rd == reader_fn(*rf),
                parts.len() >= 1,
                conjunction(s0, start as int, rd) == (match and_rest(s0, q0, seq![v0], rd) {
                    Err(e) => Err(e),
                    Ok((ps, r)) => if ps.len() == 1 {
                        Ok((ps[0], r))
                    } else {
                        Ok((ExprView::And(ps), r))
                    },
                }),
                and_rest(s0, q0, seq![v0], rd) == and_rest(
                    s0,
                    self.pos as int,
                    Expr::views_of(parts@),
                    rd,
                ),
            decreases self.s.len() - self.pos,
        {
            let before = self.pos;
            self.skip_ws();
            let q1 = self.pos;
            if self.keyword_here(&['a', 'n', 'd']) {
                self.pos = q1 + 3;
                let e = self.parse_unary(rf)?;
                if !(before < self.pos) {
                    return Err(QueryParseError::UnexpectedEof);
                }
                let ghost old_parts = parts@;
                parts.push(e);
                proof {
                    lemma_views_of(old_parts);
                    lemma_views_of(parts@);
                    assert(Expr::views_of(parts@) =~= Expr::views_of(old_parts).push(parts@.last()@));
                }
            } else {
                proof {
                    lemma_views_of(parts@);
                }
                if parts.len() == 1 {
                    let only = parts.remove(0);
                    return Ok(only);
                } else {
                    return Ok(Expr::And(parts));
                }
            }
        }
    }

    fn parse_expr<F: Fn(&str) -> FloatRepr>(&mut self, rf: &F) -> (r: Result<Expr, QueryParseError>)
        requires
            old(self).pos <= old(self).s.len(),
            is_float_reader(*rf),
        ensures
            final(self).s@ == old(self).s@,
            final(self).pos <= final(self).s.len(),
            agrees(r, expr(old(self).s@, old(self).pos as int, reader_fn(*rf)), final(self).pos as int),
        decreases old(self).s.len() - old(self).pos, 4nat,
    {
        let ghost s0 = self.s@;
        let ghost rd = reader_fn(*rf);
        let start = self.pos;
        let first = self.parse_and(rf)?;
        if !(start < self.pos) {
            return Err(QueryParseError::UnexpectedEof);
        }
        let ghost q0 = self.pos as int;
        let ghost v0 = first@;
        let mut parts: Vec<Expr> = Vec::new();
        parts.push(first);
        proof {
            lemma_views_of(parts@);
            assert(Expr::views_of(parts@) =~= seq![v0]);
        }
        loop
            invariant
                self.s@ == s0,
                s0 == old(self).s@,
                start == old(self).pos,
                start < self.pos <= self.s.len(),
                is_float_reader(*rf),
                rd == reader_fn(*rf),
                parts.len() >= 1,
                expr(s0, start as int, rd) == (match or_rest(s0, q0, seq![v0], rd) {
                    Err(e) => Err(e),
                    Ok((ps, r)) => if ps.len() == 1 {
                        Ok((ps[0], r))
                    } else {
                        Ok((ExprView::Or(ps), r))
                    },
                }),
                or_rest(s0, q0, seq![v0], rd) == or_rest(
                    s0,
                    self.pos as int,
                    Expr::views_of(parts@),
                    rd,
                ),
            decreases self.s.len() - self.pos,
        {
            let before = self.pos;
            self.skip_ws();
            let q1 = self.pos;
            if self.keyword_here(&['o', 'r']) {
                self.pos = q1 + 2;
                let e = self.parse_and(rf)?;
                if !(before < self.pos) {
                    return Err(QueryParseError::UnexpectedEof);
                }
                let ghost old_parts = parts@;
                parts.push(e);
                proof {
                    lemma_views_of(old_parts);
                    lemma_views_of(parts@);
                    assert(Expr::views_of(parts@) =~= Expr::views_of(old_parts).push(parts@.last()@));
                }
            } else {
                proof {
                    lemma_views_of(parts@);
                }
                if parts.len() == 1 {
                    let only = parts.remove(0);
                    return Ok(only);
                } else {
                    return Ok(Expr::Or(parts));
                }
            }
        }
    }
}

/// Parses a query. Number literals with a point or an exponent are converted
/// by `read_float`, which must return the binary64 value of the text it is
/// given (`str::parse::<f64>`) with its rendering.
pub fn parse<F: Fn(&str) -> FloatRepr>(input: &str, read_float: &F) -> (r: Result<
    Expr,
    QueryParseError,
>)
    requires
        is_float_reader(*read_float),
    ensures
        match query(input@, reader_fn(*read_float)) {
            Ok(e) => r matches Ok(x) && x@ == e,
            Err(e) => r matches Err(x) && x@ == e,
        },
{
    let mut p = Parser { s: chars_of(input), pos: 0 };
    let e = p.parse_expr(read_float)?;
    p.skip_ws();
    if p.pos < p.s.len() {
        let n = p.s.len();
        return Err(QueryParseError::TrailingInput(string_of(&p.s, p.pos, n)));
    }
    Ok(e)
}

/// The message of a regex compilation error (`regex::Error`'s `Display`).
#[verifier::external_body]
fn regex_error_text(e: &regex::Error) -> (r: String) {
    e.to_string()
}

/// `Expected { expected }` quotes the expected text.
pub open spec fn error_message(e: QueryErrorView, regex_detail: Seq<char>) -> Seq<char> {
    match e {
        QueryErrorView::UnexpectedEof => "unexpected end of input"@,
        QueryErrorView::UnexpectedToken(t) => "unexpected token `"@ + t + "`"@,
        QueryErrorView::TrailingInput(t) => "unexpected trailing input `"@ + t + "`"@,
        QueryErrorView::Expected(t) => "expected `"@ + t + "`"@,
        QueryErrorView::InvalidNumber(t) => "invalid number `"@ + t + "`"@,
        QueryErrorView::UnterminatedString => "missing closing `\"`"@,
        QueryErrorView::InvalidRegex => "invalid regex pattern: "@ + regex_detail,
        QueryErrorView::KeywordField(k) => "keyword `"@ + k + "` cannot be used as a field name"@,
    }
}

impl QueryParseError {
    /// The error's message. For an invalid regex it ends with the regex
    /// crate's own explanation, which is not stated here.
    pub fn message(&self) -> (r: String)
        ensures
            exists|d: Seq<char>| r@ == error_message(self@, d),
            !(self@ is InvalidRegex) ==> r@ == error_message(self@, Seq::empty()),
    {
        let mut out = String::new();
        match self {
            QueryParseError::UnexpectedEof => {
                push_str(&mut out, "unexpected end of input");
            },
            QueryParseError::UnexpectedToken(t) => {
                push_str(&mut out, "unexpected token `");
                push_str(&mut out, t.as_str());
                push_str(&mut out, "`");
            },
            QueryParseError::TrailingInput(t) => {
                push_str(&mut out, "unexpected trailing input `");
                push_str(&mut out, t.as_str());
                push_str(&mut out, "`");
            },
            QueryParseError::Expected { expected } => {
                push_str(&mut out, "expected `");
                push_str(&mut out, expected);
                push_str(&mut out, "`");
            },
            QueryParseError::InvalidNumber(t) => {
                push_str(&mut out, "invalid number `");
                push_str(&mut out, t.as_str());
                push_str(&mut out, "`");
            },
            QueryParseError::UnterminatedString => {
                push_str(&mut out, "missing closing `\"`");
            },
            QueryParseError::InvalidRegex(e) => {
                push_str(&mut out, "invalid regex pattern: ");
                let d = regex_error_text(e);
                push_str(&mut out, d.as_str());
                assert(out@ =~= error_message(self@, d@));
            },
            QueryParseError::KeywordField { keyword } => {
                push_str(&mut out, "keyword `");
                push_str(&mut out, keyword.as_str());
                push_str(&mut out, "` cannot be used as a field name");
            },
        }
        proof {
            reveal_strlit("");
        }
        assert(!(self@ is InvalidRegex) ==> out@ =~= error_message(self@, Seq::empty()));
        assert(out@ =~= error_message(self@, Seq::empty()) || exists|d: Seq<char>| out@ =~= error_message(self@, d));
        out
    }
}

} // verus!
