//! Rendering queries as text.
//!
//! Predicates print as `field op literal`; `AND`/`OR` join their operands,
//! an `OR` inside an `AND` is parenthesised, an `AND` inside an `OR` is
//! wrapped twice, and `NOT` parenthesises a combined operand. Strings print
//! quoted with Rust's `Debug` escapes, regexes between slashes with `/` and
//! `\` escaped.

use vstd::prelude::*;
use crate::query::ast::{Expr, ExprView, Literal, LiteralView, Op, lemma_views_of};
use crate::text::{chars_of, int_text, i64_text};

verus! {

/// Where an expression is printed.
#[derive(Clone, Copy, PartialEq, Eq, Structural)]
pub enum RenderCtx {
    Top,
    InsideAnd,
    InsideOr,
    InsideParen,
}

/// The text `format!("{:?}", s)` produces for a string: quoted, with Rust's
/// `Debug` escapes.
pub uninterp spec fn debug_quoted(s: Seq<char>) -> Seq<char>;

/// `<str as Debug>::fmt`: the quoted, escaped form of `s`.
#[verifier::external_body]
fn debug_str(s: &str) -> (r: String)
    ensures
        r@ == debug_quoted(s@),
{
    format!("{:?}", s)
}

pub open spec fn op_text(op: Op) -> Seq<char> {
    match op {
        Op::Eq => seq!['='],
        Op::Ne => seq!['!', '='],
        Op::Lt => seq!['<'],
        Op::Le => seq!['<', '='],
        Op::Gt => seq!['>'],
        Op::Ge => seq!['>', '='],
        Op::Match => seq!['~'],
    }
}

/// A regex source with `/` and `\` escaped by a backslash.
pub open spec fn slash_escaped(p: Seq<char>) -> Seq<char>
    decreases p.len(),
{
    if p.len() == 0 {
        Seq::empty()
    } else {
        let head = if p[0] == '/' || p[0] == '\\' {
            seq!['\\', p[0]]
        } else {
            seq![p[0]]
        };
        head + slash_escaped(p.drop_first())
    }
}

pub open spec fn literal_text(l: LiteralView) -> Seq<char> {
    match l {
        LiteralView::Str(s) => debug_quoted(s),
        LiteralView::Int(n) => int_text(n as int),
        LiteralView::Float(f) => f.text,
        LiteralView::Bool(b) => if b {
            seq!['t', 'r', 'u', 'e']
        } else {
            seq!['f', 'a', 'l', 's', 'e']
        },
        LiteralView::Regex(p) => seq!['/'] + slash_escaped(p) + seq!['/'],
    }
}

pub open spec fn parenthesised(t: Seq<char>) -> Seq<char> {
    seq!['('] + t + seq![')']
}

pub open spec fn and_sep() -> Seq<char> {
    seq![' ', 'A', 'N', 'D', ' ']
}

pub open spec fn or_sep() -> Seq<char> {
    seq![' ', 'O', 'R', ' ']
}

/// The text of `e` printed in context `ctx`.
pub open spec fn render_expr(e: ExprView, ctx: RenderCtx) -> Seq<char>
    decreases e,
{
    match e {
        ExprView::Pred { field, op, rhs } => field + seq![' '] + op_text(op) + seq![' '] + literal_text(
            rhs,
        ),
        ExprView::And(es) => {
            let body = render_and_items(es, true);
            if ctx == RenderCtx::InsideOr {
                parenthesised(body)
            } else {
                body
            }
        },
        ExprView::Or(es) => render_or_items(es, true),
        ExprView::Not(inner) => seq!['N', 'O', 'T', ' '] + match *inner {
            ExprView::And(_) => parenthesised(render_expr(*inner, RenderCtx::Top)),
            ExprView::Or(_) => parenthesised(render_expr(*inner, RenderCtx::Top)),
            _ => render_expr(*inner, RenderCtx::Top),
        },
    }
}

/// Operands of an `AND`, each after ` AND ` but the first.
pub open spec fn render_and_items(es: Seq<ExprView>, first: bool) -> Seq<char>
    decreases es,
{
    if es.len() == 0 {
        Seq::empty()
    } else {
        let sep = if first {
            Seq::empty()
        } else {
            and_sep()
        };
        let item = match es[0] {
            ExprView::Or(_) => parenthesised(render_expr(es[0], RenderCtx::InsideParen)),
            _ => render_expr(es[0], RenderCtx::InsideAnd),
        };
        sep + item + render_and_items(es.drop_first(), false)
    }
}

/// Operands of an `OR`, each after ` OR ` but the first.
pub open spec fn render_or_items(es: Seq<ExprView>, first: bool) -> Seq<char>
    decreases es,
{
    if es.len() == 0 {
        Seq::empty()
    } else {
        let sep = if first {
            Seq::empty()
        } else {
            or_sep()
        };
        let item = match es[0] {
            ExprView::And(_) => parenthesised(render_expr(es[0], RenderCtx::InsideOr)),
            _ => render_expr(es[0], RenderCtx::InsideOr),
        };
        sep + item + render_or_items(es.drop_first(), false)
    }
}

fn append(s: &mut String, t: &str)
    ensures
        final(s)@ == old(s)@ + t@,
{
    s.append(t);
}

impl Op {
    /// The operator's symbol.
    pub fn symbol(&self) -> (r: &'static str)
        ensures
            r@ == op_text(*self),
    {
        proof {
            reveal_strlit("=");
            reveal_strlit("!=");
            reveal_strlit("<");
            reveal_strlit("<=");
            reveal_strlit(">");
            reveal_strlit(">=");
            reveal_strlit("~");
        }
        match self {
            Op::Eq => "=",
            Op::Ne => "!=",
            Op::Lt => "<",
            Op::Le => "<=",
            Op::Gt => ">",
            Op::Ge => ">=",
            Op::Match => "~",
        }
    }
}

impl Literal {
    /// The literal as a query shows it.
    pub fn render(&self) -> (r: String)
        ensures
            r@ == literal_text(self@),
    {
        match self {
            Literal::Str(s) => debug_str(s.as_str()),
            Literal::Int(n) => i64_text(*n),
            Literal::Float(x) => x.text.clone(),
            Literal::Bool(b) => {
                proof {
                    reveal_strlit("true");
                    reveal_strlit("false");
                }
                if *b {
                    String::from_str("true")
                } else {
                    String::from_str("false")
                }
            },
            Literal::Regex(p) => {
                let mut out = String::new();
                out.push('/');
                escape_regex_pattern(&mut out, p.as_str());
                out.push('/');
                assert(out@ =~= seq!['/'] + slash_escaped(p.source_view()) + seq!['/']);
                out
            },
        }
    }
}

/// Appends `raw` with each `/` and `\\` escaped by a backslash.
fn escape_regex_pattern(out: &mut String, raw: &str)
    ensures
        final(out)@ == old(out)@ + slash_escaped(raw@),
{
    let src = chars_of(raw);
    let mut i: usize = 0;
    assert(src@.skip(0) =~= src@);
    while i < src.len()
        invariant
            i <= src.len(),
            src@ == raw@,
            out@ + slash_escaped(src@.skip(i as int)) == old(out)@ + slash_escaped(src@),
        decreases src.len() - i,
    {
        let c = src[i];
        let ghost before = out@;
        if c == '/' || c == '\\' {
            out.push('\\');
        }
        out.push(c);
        proof {
            assert(src@.skip(i as int).drop_first() =~= src@.skip(i + 1));
            assert(src@.skip(i as int)[0] == c);
            let head = if c == '/' || c == '\\' {
                seq!['\\', c]
            } else {
                seq![c]
            };
            assert(out@ =~= before + head);
            assert(slash_escaped(src@.skip(i as int)) == head + slash_escaped(src@.skip(i + 1)));
            assert(before + slash_escaped(src@.skip(i as int)) =~= out@ + slash_escaped(src@.skip(i + 1)));
        }
        i += 1;
    }
    assert(src@.skip(i as int) =~= Seq::<char>::empty());
    assert(out@ =~= old(out)@ + slash_escaped(raw@));
}

impl Expr {
    /// The query as text (its `Display` form).
    pub fn render(&self) -> (r: String)
        ensures
            r@ == render_expr(self@, RenderCtx::Top),
    {
        let mut out = String::new();
        self.render_into(&mut out, RenderCtx::Top);
        assert(out@ =~= render_expr(self@, RenderCtx::Top));
        out
    }

    fn render_into(&self, out: &mut String, ctx: RenderCtx)
        ensures
            final(out)@ == old(out)@ + render_expr(self@, ctx),
        decreases self,
    {
        match self {
            Expr::Pred { field, op, rhs } => {
                append(out, field.as_str());
                append(out, " ");
                append(out, op.symbol());
                append(out, " ");
                let t = rhs.render();
                append(out, t.as_str());
                proof {
                    reveal_strlit(" ");
                }
                assert(final(out)@ =~= old(out)@ + render_expr(self@, ctx));
            },
            Expr::And(es) => {
                if ctx == RenderCtx::InsideOr {
                    out.push('(');
                }
                Expr::render_and_list(es, out);
                if ctx == RenderCtx::InsideOr {
                    out.push(')');
                }
                assert(final(out)@ =~= old(out)@ + render_expr(self@, ctx));
            },
            Expr::Or(es) => {
                Expr::render_or_list(es, out);
            },
            Expr::Not(inner) => {
                out.push('N');
                out.push('O');
                out.push('T');
                out.push(' ');
                let paren = match &**inner {
                    Expr::And(_) | Expr::Or(_) => true,
                    _ => false,
                };
                if paren {
                    out.push('(');
                    (**inner).render_into(out, RenderCtx::Top);
                    out.push(')');
                } else {
                    (**inner).render_into(out, RenderCtx::Top);
                }
                assert(final(out)@ =~= old(out)@ + render_expr(self@, ctx));
            },
        }
    }

    fn render_and_list(es: &Vec<Expr>, out: &mut String)
        ensures
            final(out)@ == old(out)@ + render_and_items(Expr::views_of(es@), true),
        decreases es,
    {
        proof {
            lemma_views_of(es@);
        }
        let ghost vs = Expr::views_of(es@);
        let mut i: usize = 0;
        assert(vs.skip(0) =~= vs);
        while i < es.len()
            invariant
                i <= es.len(),
                vs == Expr::views_of(es@),
                vs.len() == es.len(),
                forall|k: int| 0 <= k < es.len() ==> #[trigger] vs[k] == Expr::view_of(es@[k]),
                out@ + render_and_items(vs.skip(i as int), i == 0) == old(out)@ + render_and_items(
                    vs,
                    true,
                ),
            decreases es.len() - i,
        {
            assert(decreases_to!(es => es@[i as int]));
            let ghost before = out@;
            if i > 0 {
                append(out, " AND ");
                proof {
                    reveal_strlit(" AND ");
                }
            }
            let is_or = match &es[i] {
                Expr::Or(_) => true,
                _ => false,
            };
            if is_or {
                out.push('(');
                es[i].render_into(out, RenderCtx::InsideParen);
                out.push(')');
            } else {
                es[i].render_into(out, RenderCtx::InsideAnd);
            }
            proof {
                let rest = vs.skip(i as int);
                assert(rest[0] == vs[i as int]);
                assert(rest.drop_first() =~= vs.skip(i + 1));
                let sep = if i == 0 { Seq::<char>::empty() } else { and_sep() };
                let item = match rest[0] {
                    ExprView::Or(_) => parenthesised(render_expr(rest[0], RenderCtx::InsideParen)),
                    _ => render_expr(rest[0], RenderCtx::InsideAnd),
                };
                assert(out@ =~= before + sep + item);
                assert(render_and_items(rest, i == 0) == sep + item + render_and_items(
                    vs.skip(i + 1),
                    false,
                ));
                assert(before + render_and_items(rest, i == 0) =~= out@ + render_and_items(
                    vs.skip(i + 1),
                    false,
                ));
            }
            i += 1;
        }
        proof {
            assert(vs.skip(i as int) =~= Seq::<ExprView>::empty());
        }
    }

    fn render_or_list(es: &Vec<Expr>, out: &mut String)
        ensures
            final(out)@ == old(out)@ + render_or_items(Expr::views_of(es@), true),
        decreases es,
    {
        proof {
            lemma_views_of(es@);
        }
        let ghost vs = Expr::views_of(es@);
        let mut i: usize = 0;
        assert(vs.skip(0) =~= vs);
        while i < es.len()
            invariant
                i <= es.len(),
                vs == Expr::views_of(es@),
                vs.len() == es.len(),
                forall|k: int| 0 <= k < es.len() ==> #[trigger] vs[k] == Expr::view_of(es@[k]),
                out@ + render_or_items(vs.skip(i as int), i == 0) == old(out)@ + render_or_items(
                    vs,
                    true,
                ),
            decreases es.len() - i,
        {
            assert(decreases_to!(es => es@[i as int]));
            let ghost before = out@;
            if i > 0 {
                append(out, " OR ");
                proof {
                    reveal_strlit(" OR ");
                }
            }
            let is_and = match &es[i] {
                Expr::And(_) => true,
                _ => false,
            };
            if is_and {
                out.push('(');
                es[i].render_into(out, RenderCtx::InsideOr);
                out.push(')');
            } else {
                es[i].render_into(out, RenderCtx::InsideOr);
            }
            proof {
                let rest = vs.skip(i as int);
                assert(rest[0] == vs[i as int]);
                assert(rest.drop_first() =~= vs.skip(i + 1));
                let sep = if i == 0 { Seq::<char>::empty() } else { or_sep() };
                let item = match rest[0] {
                    ExprView::And(_) => parenthesised(render_expr(rest[0], RenderCtx::InsideOr)),
                    _ => render_expr(rest[0], RenderCtx::InsideOr),
                };
                assert(out@ =~= before + sep + item);
                assert(render_or_items(rest, i == 0) == sep + item + render_or_items(
                    vs.skip(i + 1),
                    false,
                ));
                assert(before + render_or_items(rest, i == 0) =~= out@ + render_or_items(
                    vs.skip(i + 1),
                    false,
                ));
            }
            i += 1;
        }
        proof {
            assert(vs.skip(i as int) =~= Seq::<ExprView>::empty());
        }
    }
}

} // verus!
