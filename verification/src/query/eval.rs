//! Evaluating a query against a record.

use vstd::prelude::*;
use crate::float::{Cmp3, compare_int, float_compare, float_equal, int_to_float_bits,
    compare_float_bits, float_bits_eq, int_to_float_encoding};
use crate::query::ast::{Expr, ExprView, Literal, LiteralView, Op, regex_finds, lemma_views_of};
use crate::record::{Record, Value, ValueView};
use crate::text::{compare_str, int_text, i64_text};
use crate::value_order::{seq_compare, bool_compare};

verus! {

/// `==` between a field value and a literal: `None` when the kinds cannot be
/// compared. Integers and floats compare numerically.
pub open spec fn eq_value_literal(v: ValueView, l: LiteralView) -> Option<bool> {
    match (v, l) {
        (ValueView::Str(a), LiteralView::Str(b)) => Some(a == b),
        (ValueView::Bool(a), LiteralView::Bool(b)) => Some(a == b),
        (ValueView::Int(a), LiteralView::Int(b)) => Some(a == b),
        (ValueView::Float(a), LiteralView::Float(b)) => Some(float_equal(a.bits, b.bits)),
        (ValueView::Int(a), LiteralView::Float(b)) => Some(float_equal(int_to_float_bits(a), b.bits)),
        (ValueView::Float(a), LiteralView::Int(b)) => Some(float_equal(a.bits, int_to_float_bits(b))),
        _ => None,
    }
}

/// Ordering of a field value against a literal: `None` when the kinds cannot
/// be compared (or a float is NaN).
pub open spec fn order_value_literal(v: ValueView, l: LiteralView) -> Option<Cmp3> {
    match (v, l) {
        (ValueView::Str(a), LiteralView::Str(b)) => Some(seq_compare(a, b)),
        (ValueView::Bool(a), LiteralView::Bool(b)) => Some(bool_compare(a, b)),
        (ValueView::Int(a), LiteralView::Int(b)) => Some(compare_int(a as int, b as int)),
        (ValueView::Float(a), LiteralView::Float(b)) => float_compare(a.bits, b.bits),
        (ValueView::Int(a), LiteralView::Float(b)) => float_compare(int_to_float_bits(a), b.bits),
        (ValueView::Float(a), LiteralView::Int(b)) => float_compare(a.bits, int_to_float_bits(b)),
        _ => None,
    }
}

/// The text a regex is matched against: strings as they are, numbers and
/// booleans as displayed, null as the empty string.
pub open spec fn match_text(v: ValueView) -> Seq<char> {
    match v {
        ValueView::Str(s) => s,
        ValueView::Int(n) => int_text(n as int),
        ValueView::Float(f) => f.text,
        ValueView::Bool(b) => if b {
            seq!['t', 'r', 'u', 'e']
        } else {
            seq!['f', 'a', 'l', 's', 'e']
        },
        ValueView::Null => Seq::empty(),
    }
}

/// Whether `v op rhs` holds.
pub open spec fn pred_holds(v: ValueView, op: Op, rhs: LiteralView) -> bool {
    match op {
        Op::Eq => eq_value_literal(v, rhs) == Some(true),
        Op::Ne => eq_value_literal(v, rhs) == Some(false),
        Op::Lt => order_value_literal(v, rhs) == Some(Cmp3::Less),
        Op::Le => order_value_literal(v, rhs) matches Some(c) && c != Cmp3::Greater,
        Op::Gt => order_value_literal(v, rhs) == Some(Cmp3::Greater),
        Op::Ge => order_value_literal(v, rhs) matches Some(c) && c != Cmp3::Less,
        Op::Match => match rhs {
            LiteralView::Regex(p) => regex_finds(p, match_text(v)),
            _ => false,
        },
    }
}

/// The truth of a query on a record's fields. A predicate on a missing field
/// is false; an empty `And` is true and an empty `Or` false.
pub open spec fn holds(e: ExprView, r: Map<Seq<char>, ValueView>) -> bool
    decreases e,
{
    match e {
        ExprView::Pred { field, op, rhs } => r.contains_key(field) && pred_holds(r[field], op, rhs),
        ExprView::And(es) => all_hold(es, r),
        ExprView::Or(es) => any_holds(es, r),
        ExprView::Not(inner) => !holds(*inner, r),
    }
}

/// Every query of the list holds.
pub open spec fn all_hold(es: Seq<ExprView>, r: Map<Seq<char>, ValueView>) -> bool
    decreases es,
{
    if es.len() == 0 {
        true
    } else {
        holds(es[0], r) && all_hold(es.drop_first(), r)
    }
}

/// Some query of the list holds.
pub open spec fn any_holds(es: Seq<ExprView>, r: Map<Seq<char>, ValueView>) -> bool
    decreases es,
{
    if es.len() == 0 {
        false
    } else {
        holds(es[0], r) || any_holds(es.drop_first(), r)
    }
}

pub proof fn lemma_all_hold(es: Seq<ExprView>, r: Map<Seq<char>, ValueView>)
    ensures
        all_hold(es, r) <==> forall|i: int| 0 <= i < es.len() ==> holds(#[trigger] es[i], r),
    decreases es.len(),
{
    if es.len() > 0 {
        lemma_all_hold(es.drop_first(), r);
        if !holds(es[0], r) {
        } else {
            assert forall|i: int| 0 <= i < es.len() && all_hold(es.drop_first(), r) implies holds(
                #[trigger] es[i],
                r,
            ) by {
                if i > 0 {
                    assert(es[i] == es.drop_first()[i - 1]);
                }
            }
            if !all_hold(es.drop_first(), r) {
                let j = choose|j: int| 0 <= j < es.drop_first().len() && !holds(#[trigger] es.drop_first()[j], r);
                assert(es.drop_first()[j] == es[j + 1]);
            }
        }
    }
}

pub proof fn lemma_any_holds(es: Seq<ExprView>, r: Map<Seq<char>, ValueView>)
    ensures
        any_holds(es, r) <==> exists|i: int| 0 <= i < es.len() && holds(#[trigger] es[i], r),
    decreases es.len(),
{
    if es.len() > 0 {
        lemma_any_holds(es.drop_first(), r);
        if holds(es[0], r) {
        } else {
            if any_holds(es.drop_first(), r) {
                let j = choose|j: int| 0 <= j < es.drop_first().len() && holds(#[trigger] es.drop_first()[j], r);
                assert(es.drop_first()[j] == es[j + 1]);
            }
            if exists|i: int| 0 <= i < es.len() && holds(#[trigger] es[i], r) {
                let i = choose|i: int| 0 <= i < es.len() && holds(#[trigger] es[i], r);
                assert(es[i] == es.drop_first()[i - 1]);
            }
        }
    }
}

fn eq_value_literal_exec(v: &Value, l: &Literal) -> (r: Option<bool>)
    ensures
        r == eq_value_literal(v@, l@),
{
    match (v, l) {
        (Value::Str(a), Literal::Str(b)) => Some(compare_str(a.as_str(), b.as_str()) == Cmp3::Equal),
        (Value::Bool(a), Literal::Bool(b)) => Some(*a == *b),
        (Value::Int(a), Literal::Int(b)) => Some(*a == *b),
        (Value::Float(a), Literal::Float(b)) => Some(float_bits_eq(a.bits, b.bits)),
        (Value::Int(a), Literal::Float(b)) => Some(float_bits_eq(int_to_float_encoding(*a), b.bits)),
        (Value::Float(a), Literal::Int(b)) => Some(float_bits_eq(a.bits, int_to_float_encoding(*b))),
        _ => None,
    }
}

fn order_value_literal_exec(v: &Value, l: &Literal) -> (r: Option<Cmp3>)
    ensures
        r == order_value_literal(v@, l@),
{
    match (v, l) {
        (Value::Str(a), Literal::Str(b)) => Some(compare_str(a.as_str(), b.as_str())),
        (Value::Bool(a), Literal::Bool(b)) => {
            if *a == *b {
                Some(Cmp3::Equal)
            } else if !*a {
                Some(Cmp3::Less)
            } else {
                Some(Cmp3::Greater)
            }
        },
        (Value::Int(a), Literal::Int(b)) => {
            if *a < *b {
                Some(Cmp3::Less)
            } else if *a == *b {
                Some(Cmp3::Equal)
            } else {
                Some(Cmp3::Greater)
            }
        },
        (Value::Float(a), Literal::Float(b)) => compare_float_bits(a.bits, b.bits),
        (Value::Int(a), Literal::Float(b)) => compare_float_bits(int_to_float_encoding(*a), b.bits),
        (Value::Float(a), Literal::Int(b)) => compare_float_bits(a.bits, int_to_float_encoding(*b)),
        _ => None,
    }
}

/// The text a regex is matched against for `v`.
pub fn value_match_text(v: &Value) -> (r: String)
    ensures
        r@ == match_text(v@),
{
    match v {
        Value::Str(s) => s.clone(),
        Value::Int(n) => i64_text(*n),
        Value::Float(x) => x.text.clone(),
        Value::Bool(b) => {
            proof {
                reveal_strlit("true");
                reveal_strlit("false");
            }
            if *b {
                String::from_str("true")
            } else {
                String::from_str("false")
            }
        },
        Value::Null => String::new(),
    }
}

fn eval_pred(r: &Record, field: &String, op: Op, rhs: &Literal) -> (b: bool)
    ensures
        b == (r.view().contains_key(field@) && pred_holds(r.view()[field@], op, rhs@)),
{
    let lhs = match r.get(field.as_str()) {
        Some(v) => v,
        None => {
            return false;
        },
    };
    match op {
        Op::Eq => eq_value_literal_exec(lhs, rhs) == Some(true),
        Op::Ne => eq_value_literal_exec(lhs, rhs) == Some(false),
        Op::Lt | Op::Le | Op::Gt | Op::Ge => {
            let ord = match order_value_literal_exec(lhs, rhs) {
                Some(c) => c,
                None => {
                    return false;
                },
            };
            match op {
                Op::Lt => ord == Cmp3::Less,
                Op::Le => ord != Cmp3::Greater,
                Op::Gt => ord == Cmp3::Greater,
                _ => ord != Cmp3::Less,
            }
        },
        Op::Match => match rhs {
            Literal::Regex(re) => {
                let haystack = value_match_text(lhs);
                re.is_match(haystack.as_str())
            },
            _ => false,
        },
    }
}

impl Expr {
    /// Evaluates the query against `r` (children of `And`/`Or` are evaluated
    /// left to right and evaluation stops at the first decisive child).
    pub fn eval(&self, r: &Record) -> (b: bool)
        ensures
            b == holds(self@, r.view()),
        decreases self,
    {
        match self {
            Expr::Pred { field, op, rhs } => eval_pred(r, field, *op, rhs),
            Expr::And(children) => Expr::eval_all(children, r),
            Expr::Or(children) => Expr::eval_any(children, r),
            Expr::Not(inner) => !(**inner).eval(r),
        }
    }

    fn eval_all(children: &Vec<Expr>, r: &Record) -> (b: bool)
        ensures
            b == all_hold(Expr::views_of(children@), r.view()),
        decreases children,
    {
        proof {
            lemma_views_of(children@);
            lemma_all_hold(Expr::views_of(children@), r.view());
        }
        let mut i: usize = 0;
        while i < children.len()
            invariant
                i <= children.len(),
                Expr::views_of(children@).len() == children.len(),
                forall|k: int|
                    0 <= k < children.len() ==> #[trigger] Expr::views_of(children@)[k]
                        == Expr::view_of(children@[k]),
                forall|k: int| 0 <= k < i ==> holds(#[trigger] Expr::views_of(children@)[k], r.view()),
                all_hold(Expr::views_of(children@), r.view()) <==> forall|k: int|
                    0 <= k < children.len() ==> holds(#[trigger] Expr::views_of(children@)[k], r.view()),
            decreases children.len() - i,
        {
            assert(decreases_to!(children => children@[i as int]));
            if !children[i].eval(r) {
                assert(!holds(Expr::views_of(children@)[i as int], r.view()));
                return false;
            }
            i += 1;
        }
        true
    }

    fn eval_any(children: &Vec<Expr>, r: &Record) -> (b: bool)
        ensures
            b == any_holds(Expr::views_of(children@), r.view()),
        decreases children,
    {
        proof {
            lemma_views_of(children@);
            lemma_any_holds(Expr::views_of(children@), r.view());
        }
        let mut i: usize = 0;
        while i < children.len()
            invariant
                i <= children.len(),
                Expr::views_of(children@).len() == children.len(),
                forall|k: int|
                    0 <= k < children.len() ==> #[trigger] Expr::views_of(children@)[k]
                        == Expr::view_of(children@[k]),
                forall|k: int| 0 <= k < i ==> !holds(#[trigger] Expr::views_of(children@)[k], r.view()),
                any_holds(Expr::views_of(children@), r.view()) <==> exists|k: int|
                    0 <= k < children.len() && holds(#[trigger] Expr::views_of(children@)[k], r.view()),
            decreases children.len() - i,
        {
            assert(decreases_to!(children => children@[i as int]));
            if children[i].eval(r) {
                assert(holds(Expr::views_of(children@)[i as int], r.view()));
                return true;
            }
            i += 1;
        }
        false
    }
}

} // verus!
