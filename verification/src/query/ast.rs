//! Abstract syntax tree for queries.

use vstd::prelude::*;
use crate::float::{FloatRepr, FloatView, float_bits_eq, float_equal};
use crate::text::compare_str;
use crate::float::Cmp3;
use vstd::std_specs::cmp::PartialEqSpecImpl;

verus! {

/// Comparison operators.
#[derive(Debug, Clone, Copy, PartialEq, Eq, Structural)]
pub enum Op {
    Eq,
    Ne,
    Lt,
    Le,
    Gt,
    Ge,
    /// Regular-expression match (`~`).
    Match,
}

#[verifier::external_type_specification]
#[verifier::external_body]
pub struct ExRegex(regex::Regex);

#[verifier::external_type_specification]
#[verifier::external_body]
pub struct ExRegexError(regex::Error);

/// `regex::Regex::clone`: a copy of the compiled regex (nothing is claimed
/// of it beyond its type).
pub assume_specification[ <regex::Regex as Clone>::clone ](r: &regex::Regex) -> regex::Regex;

/// Whether `regex::Regex::new` accepts the pattern.
pub uninterp spec fn regex_compiles(pattern: Seq<char>) -> bool;

/// Whether `regex::Regex::is_match` finds the pattern in the haystack.
pub uninterp spec fn regex_finds(pattern: Seq<char>, haystack: Seq<char>) -> bool;

/// `regex::Regex::new`: compiles the pattern; whether it succeeds depends on
/// the pattern alone.
#[verifier::external_body]
fn regex_new(pattern: &str) -> (r: Result<regex::Regex, regex::Error>)
    ensures
        r.is_ok() == regex_compiles(pattern@),
{
    regex::Regex::new(pattern)
}

/// A compiled regular expression together with its source text.
#[derive(Debug, Clone)]
pub struct Pattern {
    source: String,
    compiled: regex::Regex,
}

/// `regex::Regex::is_match` on the compiled form of `p`. Every `Pattern` is
/// built by [`Pattern::compile`] from its `source`, so the answer is the one
/// for that source text.
#[verifier::external_body]
fn regex_is_match(p: &Pattern, haystack: &str) -> (r: bool)
    ensures
        r == regex_finds(p.source@, haystack@),
{
    p.compiled.is_match(haystack)
}

impl Pattern {
    /// The pattern's source text.
    pub closed spec fn source_view(&self) -> Seq<char> {
        self.source@
    }

    /// Compiles `source`; fails exactly when the regex crate rejects it.
    pub fn compile(source: &str) -> (r: Result<Pattern, regex::Error>)
        ensures
            r.is_ok() == regex_compiles(source@),
            r matches Ok(p) ==> p.source_view() == source@,
    {
        match regex_new(source) {
            Ok(compiled) => Ok(Pattern { source: String::from_str(source), compiled }),
            Err(e) => Err(e),
        }
    }

    /// The source text.
    pub fn as_str(&self) -> (r: &str)
        ensures
            r@ == self.source_view(),
    {
        self.source.as_str()
    }

    /// Whether the pattern matches somewhere in `haystack`.
    pub fn is_match(&self, haystack: &str) -> (r: bool)
        ensures
            r == regex_finds(self.source_view(), haystack@),
    {
        regex_is_match(self, haystack)
    }
}

/// Right-hand side of a predicate.
#[derive(Debug, Clone)]
pub enum Literal {
    Str(String),
    Int(i64),
    Float(FloatRepr),
    Bool(bool),
    Regex(Pattern),
}

/// The mathematical content of a [`Literal`]; a regex is its source text.
pub enum LiteralView {
    Str(Seq<char>),
    Int(i64),
    Float(FloatView),
    Bool(bool),
    Regex(Seq<char>),
}

impl View for Literal {
    type V = LiteralView;

    open spec fn view(&self) -> LiteralView {
        match self {
            Literal::Str(s) => LiteralView::Str(s@),
            Literal::Int(i) => LiteralView::Int(*i),
            Literal::Float(f) => LiteralView::Float(f@),
            Literal::Bool(b) => LiteralView::Bool(*b),
            Literal::Regex(p) => LiteralView::Regex(p.source_view()),
        }
    }
}

/// Literal equality: same kind and equal contents (floats by `==`, regexes
/// by source text).
pub open spec fn literal_equal(a: LiteralView, b: LiteralView) -> bool {
    match (a, b) {
        (LiteralView::Str(x), LiteralView::Str(y)) => x == y,
        (LiteralView::Int(x), LiteralView::Int(y)) => x == y,
        (LiteralView::Float(x), LiteralView::Float(y)) => float_equal(x.bits, y.bits),
        (LiteralView::Bool(x), LiteralView::Bool(y)) => x == y,
        (LiteralView::Regex(x), LiteralView::Regex(y)) => x == y,
        _ => false,
    }
}

impl Literal {
    /// Literal equality, as `==` decides it.
    pub fn equals(&self, other: &Literal) -> (r: bool)
        ensures
            r == literal_equal(self@, other@),
    {
        match (self, other) {
            (Literal::Str(x), Literal::Str(y)) => compare_str(x.as_str(), y.as_str()) == Cmp3::Equal,
            (Literal::Int(x), Literal::Int(y)) => *x == *y,
            (Literal::Float(x), Literal::Float(y)) => float_bits_eq(x.bits, y.bits),
            (Literal::Bool(x), Literal::Bool(y)) => *x == *y,
            (Literal::Regex(x), Literal::Regex(y)) => compare_str(x.as_str(), y.as_str())
                == Cmp3::Equal,
            _ => false,
        }
    }
}

impl PartialEq for Literal {
    fn eq(&self, other: &Literal) -> (r: bool) {
        self.equals(other)
    }
}

impl PartialEqSpecImpl for Literal {
    open spec fn obeys_eq_spec() -> bool {
        true
    }

    open spec fn eq_spec(&self, other: &Literal) -> bool {
        literal_equal(self@, other@)
    }
}

/// A query: a predicate on one field, or a combination of queries.
#[derive(Debug, PartialEq)]
pub enum Expr {
    Pred { field: String, op: Op, rhs: Literal },
    And(Vec<Expr>),
    Or(Vec<Expr>),
    Not(Box<Expr>),
}

/// The mathematical content of an [`Expr`].
pub enum ExprView {
    Pred { field: Seq<char>, op: Op, rhs: LiteralView },
    And(Seq<ExprView>),
    Or(Seq<ExprView>),
    Not(Box<ExprView>),
}

impl Expr {
    pub open spec fn view_of(e: Expr) -> ExprView
        decreases e,
    {
        match e {
            Expr::Pred { field, op, rhs } => ExprView::Pred { field: field@, op, rhs: rhs@ },
            Expr::And(es) => ExprView::And(Expr::views_of(es@)),
            Expr::Or(es) => ExprView::Or(Expr::views_of(es@)),
            Expr::Not(inner) => ExprView::Not(Box::new(Expr::view_of(*inner))),
        }
    }

    pub open spec fn views_of(es: Seq<Expr>) -> Seq<ExprView>
        decreases es,
    {
        if es.len() == 0 {
            Seq::empty()
        } else {
            seq![Expr::view_of(es[0])] + Expr::views_of(es.drop_first())
        }
    }
}

pub proof fn lemma_views_of(es: Seq<Expr>)
    ensures
        Expr::views_of(es).len() == es.len(),
        forall|i: int| 0 <= i < es.len() ==> #[trigger] Expr::views_of(es)[i] == Expr::view_of(es[i]),
    decreases es.len(),
{
    if es.len() > 0 {
        lemma_views_of(es.drop_first());
        assert forall|i: int| 0 <= i < es.len() implies #[trigger] Expr::views_of(es)[i] == Expr::view_of(es[i]) by {
            if i > 0 {
                assert(es.drop_first()[i - 1] == es[i]);
            }
        }
    }
}

/// Two expression lists with the same element views have the same views.
pub proof fn lemma_views_of_ext(a: Seq<Expr>, b: Seq<Expr>)
    requires
        a.len() == b.len(),
        forall|i: int| 0 <= i < a.len() ==> Expr::view_of(#[trigger] a[i]) == Expr::view_of(b[i]),
    ensures
        Expr::views_of(a) == Expr::views_of(b),
{
    lemma_views_of(a);
    lemma_views_of(b);
    assert(Expr::views_of(a) =~= Expr::views_of(b));
}

impl Literal {
    /// A copy with the same view.
    pub fn duplicate(&self) -> (r: Literal)
        ensures
            r@ == self@,
    {
        match self {
            Literal::Str(s) => Literal::Str(s.clone()),
            Literal::Int(i) => Literal::Int(*i),
            Literal::Float(f) => Literal::Float(FloatRepr::new(f.bits, f.text.clone())),
            Literal::Bool(b) => Literal::Bool(*b),
            Literal::Regex(p) => Literal::Regex(Pattern {
                source: p.source.clone(),
                compiled: p.compiled.clone(),
            }),
        }
    }
}

impl Expr {
    /// A copy with the same view.
    pub fn duplicate(&self) -> (r: Expr)
        ensures
            r@ == self@,
        decreases self,
    {
        match self {
            Expr::Pred { field, op, rhs } => Expr::Pred {
                field: field.clone(),
                op: *op,
                rhs: rhs.duplicate(),
            },
            Expr::And(es) => Expr::And(Expr::duplicate_all(es)),
            Expr::Or(es) => Expr::Or(Expr::duplicate_all(es)),
            Expr::Not(inner) => Expr::Not(Box::new((**inner).duplicate())),
        }
    }

    fn duplicate_all(es: &Vec<Expr>) -> (r: Vec<Expr>)
        ensures
            Expr::views_of(r@) == Expr::views_of(es@),
        decreases es,
    {
        let mut out: Vec<Expr> = Vec::new();
        let mut i: usize = 0;
        while i < es.len()
            invariant
                i <= es.len(),
                out.len() == i,
                forall|j: int| 0 <= j < i ==> Expr::view_of(#[trigger] out@[j]) == Expr::view_of(es@[j]),
            decreases es.len() - i,
        {
            assert(decreases_to!(es => es@[i as int]));
            out.push(es[i].duplicate());
            i += 1;
        }
        proof {
            lemma_views_of_ext(out@, es@);
        }
        out
    }
}

impl Clone for Expr {
    fn clone(&self) -> (r: Expr)
        ensures
            r@ == self@,
    {
        self.duplicate()
    }
}

impl View for Expr {
    type V = ExprView;

    open spec fn view(&self) -> ExprView {
        Expr::view_of(*self)
    }
}

} // verus!
