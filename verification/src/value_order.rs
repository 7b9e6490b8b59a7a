//! Equality and partial order on [`Value`]s.
//!
//! Integers and floats compare numerically (the integer is first rounded to
//! the nearest binary64, as `as f64` does); other kinds compare only with
//! their own kind.

use vstd::prelude::*;
use std::cmp::Ordering;
use vstd::std_specs::cmp::PartialEqSpecImpl;
use vstd::std_specs::cmp::PartialOrdSpecImpl;
use crate::float::{Cmp3, float_compare, float_equal, int_to_float_bits, compare_float_bits,
    float_bits_eq, int_to_float_encoding};
use crate::record::{Value, ValueView};
use crate::text::{compare_str, seq_less};

verus! {

pub open spec fn ordering_of(c: Cmp3) -> Ordering {
    match c {
        Cmp3::Less => Ordering::Less,
        Cmp3::Equal => Ordering::Equal,
        Cmp3::Greater => Ordering::Greater,
    }
}

/// Lexicographic comparison of character sequences as a three-way outcome.
pub open spec fn seq_compare(a: Seq<char>, b: Seq<char>) -> Cmp3 {
    if seq_less(a, b) {
        Cmp3::Less
    } else if a == b {
        Cmp3::Equal
    } else {
        Cmp3::Greater
    }
}

pub open spec fn bool_compare(a: bool, b: bool) -> Cmp3 {
    if a == b {
        Cmp3::Equal
    } else if !a {
        Cmp3::Less
    } else {
        Cmp3::Greater
    }
}

/// The partial order on value views.
pub open spec fn value_compare(a: ValueView, b: ValueView) -> Option<Cmp3> {
    match (a, b) {
        (ValueView::Str(x), ValueView::Str(y)) => Some(seq_compare(x, y)),
        (ValueView::Int(x), ValueView::Int(y)) => Some(crate::float::compare_int(x as int, y as int)),
        (ValueView::Float(x), ValueView::Float(y)) => float_compare(x.bits, y.bits),
        (ValueView::Int(x), ValueView::Float(y)) => float_compare(int_to_float_bits(x), y.bits),
        (ValueView::Float(x), ValueView::Int(y)) => float_compare(x.bits, int_to_float_bits(y)),
        (ValueView::Bool(x), ValueView::Bool(y)) => Some(bool_compare(x, y)),
        (ValueView::Null, ValueView::Null) => Some(Cmp3::Equal),
        _ => None,
    }
}

/// Equality of value views: same kind and equal contents (floats by `==`).
pub open spec fn value_equal(a: ValueView, b: ValueView) -> bool {
    match (a, b) {
        (ValueView::Str(x), ValueView::Str(y)) => x == y,
        (ValueView::Int(x), ValueView::Int(y)) => x == y,
        (ValueView::Float(x), ValueView::Float(y)) => float_equal(x.bits, y.bits),
        (ValueView::Bool(x), ValueView::Bool(y)) => x == y,
        (ValueView::Null, ValueView::Null) => true,
        _ => false,
    }
}

fn int_compare(a: i64, b: i64) -> (r: Cmp3)
    ensures
        r == crate::float::compare_int(a as int, b as int),
{
    if a < b {
        Cmp3::Less
    } else if a == b {
        Cmp3::Equal
    } else {
        Cmp3::Greater
    }
}

/// Three-way comparison of two values.
pub fn compare_values(a: &Value, b: &Value) -> (r: Option<Cmp3>)
    ensures
        r == value_compare(a@, b@),
{
    match (a, b) {
        (Value::Str(x), Value::Str(y)) => Some(compare_str(x.as_str(), y.as_str())),
        (Value::Int(x), Value::Int(y)) => Some(int_compare(*x, *y)),
        (Value::Float(x), Value::Float(y)) => compare_float_bits(x.bits, y.bits),
        (Value::Int(x), Value::Float(y)) => compare_float_bits(int_to_float_encoding(*x), y.bits),
        (Value::Float(x), Value::Int(y)) => compare_float_bits(x.bits, int_to_float_encoding(*y)),
        (Value::Bool(x), Value::Bool(y)) => {
            if *x == *y {
                Some(Cmp3::Equal)
            } else if !*x {
                Some(Cmp3::Less)
            } else {
                Some(Cmp3::Greater)
            }
        },
        (Value::Null, Value::Null) => Some(Cmp3::Equal),
        _ => None,
    }
}

fn to_ordering(c: Cmp3) -> (r: Ordering)
    ensures
        r == ordering_of(c),
{
    match c {
        Cmp3::Less => Ordering::Less,
        Cmp3::Equal => Ordering::Equal,
        Cmp3::Greater => Ordering::Greater,
    }
}

impl PartialEq for Value {
    fn eq(&self, other: &Value) -> (r: bool) {
        match (self, other) {
            (Value::Str(x), Value::Str(y)) => compare_str(x.as_str(), y.as_str()) == Cmp3::Equal,
            (Value::Int(x), Value::Int(y)) => *x == *y,
            (Value::Float(x), Value::Float(y)) => float_bits_eq(x.bits, y.bits),
            (Value::Bool(x), Value::Bool(y)) => *x == *y,
            (Value::Null, Value::Null) => true,
            _ => false,
        }
    }
}

impl PartialEqSpecImpl for Value {
    open spec fn obeys_eq_spec() -> bool {
        true
    }

    open spec fn eq_spec(&self, other: &Value) -> bool {
        value_equal(self@, other@)
    }
}

impl PartialOrd for Value {
    fn partial_cmp(&self, other: &Value) -> (r: Option<Ordering>) {
        match compare_values(self, other) {
            Some(c) => Some(to_ordering(c)),
            None => None,
        }
    }
}

impl PartialOrdSpecImpl for Value {
    open spec fn obeys_partial_cmp_spec() -> bool {
        true
    }

    open spec fn partial_cmp_spec(&self, other: &Value) -> Option<Ordering> {
        match value_compare(self@, other@) {
            Some(c) => Some(ordering_of(c)),
            None => None,
        }
    }
}

} // verus!
