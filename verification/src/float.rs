//! Binary64 numbers carried as their IEEE-754 bit pattern.
//!
//! The library never computes with floating-point values directly: a float is
//! kept as its 64-bit encoding next to its decimal rendering. Ordering,
//! equality, and the conversion of integers to binary64 are integer
//! computations on the encoding, proved against the definitions below.

use vstd::prelude::*;
use vstd::arithmetic::power2::{pow2, lemma_pow2_unfold};

verus! {

/// A binary64 value: its IEEE-754 encoding and its shortest decimal rendering
/// (the text that Rust's `Display` prints for it, e.g. `3.14`, `10`, `NaN`,
/// `inf`).
#[derive(Debug, Clone)]
pub struct FloatRepr {
    pub bits: u64,
    pub text: String,
}

/// The mathematical content of a [`FloatRepr`].
pub struct FloatView {
    pub bits: u64,
    pub text: Seq<char>,
}

impl View for FloatRepr {
    type V = FloatView;

    open spec fn view(&self) -> FloatView {
        FloatView { bits: self.bits, text: self.text@ }
    }
}

impl FloatRepr {
    /// Pairs an encoding with its rendering.
    pub fn new(bits: u64, text: String) -> (r: FloatRepr)
        ensures
            r.bits == bits,
            r.text@ == text@,
    {
        FloatRepr { bits, text }
    }
}

/// Three-way outcome of a comparison.
#[derive(Debug, Clone, Copy, PartialEq, Eq, Structural)]
pub enum Cmp3 {
    Less,
    Equal,
    Greater,
}

pub open spec fn compare_int(a: int, b: int) -> Cmp3 {
    if a < b {
        Cmp3::Less
    } else if a == b {
        Cmp3::Equal
    } else {
        Cmp3::Greater
    }
}

pub open spec fn sign_bit(b: u64) -> bool {
    b >= 0x8000_0000_0000_0000
}

/// The encoding without its sign bit.
pub open spec fn magnitude(b: u64) -> int {
    (b % 0x8000_0000_0000_0000) as int
}

pub open spec fn exponent_field(b: u64) -> int {
    magnitude(b) / 0x10_0000_0000_0000
}

pub open spec fn fraction_field(b: u64) -> int {
    (b % 0x10_0000_0000_0000) as int
}

pub open spec fn is_nan(b: u64) -> bool {
    exponent_field(b) == 0x7ff && fraction_field(b) != 0
}

/// For encodings that are not NaN, the order of binary64 values is the order
/// of this key (both zeros share key 0).
pub open spec fn order_key(b: u64) -> int {
    if sign_bit(b) {
        -magnitude(b)
    } else {
        magnitude(b)
    }
}

/// IEEE-754 comparison: `None` when either side is NaN.
pub open spec fn float_compare(a: u64, b: u64) -> Option<Cmp3> {
    if is_nan(a) || is_nan(b) {
        None
    } else {
        Some(compare_int(order_key(a), order_key(b)))
    }
}

/// IEEE-754 equality (NaN is equal to nothing, the two zeros are equal).
pub open spec fn float_equal(a: u64, b: u64) -> bool {
    float_compare(a, b) == Some(Cmp3::Equal)
}

/// Number of halvings that bring `m` below 2^53.
pub open spec fn shift_down(m: nat) -> nat
    decreases m,
{
    if m < 0x20_0000_0000_0000 {
        0
    } else {
        1 + shift_down(m / 2)
    }
}

/// Number of doublings that bring a positive `m` to at least 2^52.
pub open spec fn shift_up(m: nat) -> nat
    decreases 0x20_0000_0000_0000 - m,
{
    if m == 0 || m >= 0x10_0000_0000_0000 {
        0
    } else {
        1 + shift_up(2 * m)
    }
}

/// `m / d` rounded to the nearest integer, ties to even.
pub open spec fn round_half_even(m: nat, d: nat) -> nat {
    let q = m / d;
    let r = m % d;
    if 2 * r > d || (2 * r == d && q % 2 == 1) {
        q + 1
    } else {
        q
    }
}

/// Significand (in `[2^52, 2^53)`) and unbiased exponent of the binary64
/// value nearest to a positive integer `m`.
pub open spec fn normalized(m: nat) -> (nat, int) {
    if m < 0x20_0000_0000_0000 {
        let up = shift_up(m);
        (m * pow2(up), 52 - up)
    } else {
        let sh = shift_down(m);
        let q = round_half_even(m, pow2(sh));
        if q == 0x20_0000_0000_0000 {
            (0x10_0000_0000_0000nat, (53 + sh) as int)
        } else {
            (q, (52 + sh) as int)
        }
    }
}

/// The encoding of `a as f64` (round to nearest, ties to even).
pub open spec fn int_to_float_bits(a: i64) -> u64 {
    if a == 0 {
        0
    } else {
        let m: nat = if a < 0 {
            (-(a as int)) as nat
        } else {
            a as nat
        };
        let (q, e) = normalized(m);
        let sign: int = if a < 0 {
            0x8000_0000_0000_0000
        } else {
            0
        };
        (sign + (e + 1023) * 0x10_0000_0000_0000 + (q - 0x10_0000_0000_0000)) as u64
    }
}

/// Comparison of two binary64 encodings.
pub fn compare_float_bits(a: u64, b: u64) -> (r: Option<Cmp3>)
    ensures
        r == float_compare(a, b),
{
    let a_nan = (a % 0x8000_0000_0000_0000) / 0x10_0000_0000_0000 == 0x7ff && a % 0x10_0000_0000_0000
        != 0;
    let b_nan = (b % 0x8000_0000_0000_0000) / 0x10_0000_0000_0000 == 0x7ff && b % 0x10_0000_0000_0000
        != 0;
    if a_nan || b_nan {
        return None;
    }
    let am: i128 = (a % 0x8000_0000_0000_0000) as i128;
    let bm: i128 = (b % 0x8000_0000_0000_0000) as i128;
    let ak: i128 = if a >= 0x8000_0000_0000_0000 { -am } else { am };
    let bk: i128 = if b >= 0x8000_0000_0000_0000 { -bm } else { bm };
    if ak < bk {
        Some(Cmp3::Less)
    } else if ak == bk {
        Some(Cmp3::Equal)
    } else {
        Some(Cmp3::Greater)
    }
}

/// Equality of two binary64 encodings, as `==` on `f64` decides it.
pub fn float_bits_eq(a: u64, b: u64) -> (r: bool)
    ensures
        r == float_equal(a, b),
{
    match compare_float_bits(a, b) {
        Some(Cmp3::Equal) => true,
        _ => false,
    }
}

proof fn lemma_pow2_values()
    ensures
        pow2(0) == 1,
        pow2(11) == 0x800,
        pow2(12) == 0x1000,
        pow2(53) == 0x20_0000_0000_0000,
{
    vstd::arithmetic::power2::lemma2_to64();
    vstd::arithmetic::power2::lemma_pow2_adds(32, 21);
}

/// `pow2` is monotone: a smaller power means a smaller exponent.
proof fn lemma_pow2_lt_exponent(k: nat, j: nat)
    requires
        pow2(k) < pow2(j),
    ensures
        k < j,
{
    if k > j {
        vstd::arithmetic::power2::lemma_pow2_strictly_increases(j, k);
    }
}

proof fn lemma_shift_up_bound(m: nat)
    requires
        0 < m < 0x20_0000_0000_0000,
    ensures
        0x10_0000_0000_0000 <= m * pow2(shift_up(m)) < 0x20_0000_0000_0000,
    decreases 0x20_0000_0000_0000 - m,
{
    lemma_pow2_values();
    if m >= 0x10_0000_0000_0000 {
        assert(shift_up(m) == 0);
        assert(m * pow2(0) == m) by (nonlinear_arith)
            requires
                pow2(0) == 1,
        ;
    } else {
        lemma_shift_up_bound(2 * m);
        let k = shift_up(2 * m);
        lemma_pow2_unfold(k + 1);
        assert(m * pow2(k + 1) == (2 * m) * pow2(k)) by (nonlinear_arith)
            requires
                pow2(k + 1) == 2 * pow2(k),
        ;
        assert(shift_up(m) == k + 1);
    }
}

/// The encoding of `a as f64`, computed with integer arithmetic.
pub fn int_to_float_encoding(a: i64) -> (r: u64)
    ensures
        r == int_to_float_bits(a),
{
    if a == 0 {
        return 0;
    }
    let m: u64 = if a == i64::MIN {
        0x8000_0000_0000_0000
    } else if a < 0 {
        (-a) as u64
    } else {
        a as u64
    };
    let ghost mn: nat = m as nat;
    assert(mn == (if a < 0 { (-(a as int)) as nat } else { a as nat }));
    let sign: u64 = if a < 0 { 0x8000_0000_0000_0000 } else { 0 };
    let q: u64;
    let e: u64;  // biased by 1023
    if m < 0x20_0000_0000_0000 {
        let mut t: u64 = m;
        let mut up: u64 = 0;
        proof {
            lemma_shift_up_bound(mn);
            lemma_pow2_values();
        }
        while t < 0x10_0000_0000_0000
            invariant
                0 < mn < 0x20_0000_0000_0000,
                0 < t < 0x20_0000_0000_0000,
                up <= 52,
                t == mn * pow2(up as nat),
                shift_up(mn) == up + shift_up(t as nat),
            decreases 0x20_0000_0000_0000 - t,
        {
            proof {
                lemma_pow2_unfold((up + 1) as nat);
                assert(mn * pow2((up + 1) as nat) == 2 * (mn * pow2(up as nat))) by (nonlinear_arith)
                    requires
                        pow2((up + 1) as nat) == 2 * pow2(up as nat),
                ;
                lemma_pow2_values();
                assert(pow2((up + 1) as nat) <= 2 * t) by (nonlinear_arith)
                    requires
                        mn >= 1,
                        pow2((up + 1) as nat) == 2 * pow2(up as nat),
                        t == mn * pow2(up as nat),
                ;
                lemma_pow2_lt_exponent((up + 1) as nat, 53);
            }
            t = t * 2;
            up = up + 1;
        }
        q = t;
        e = 1023 + 52 - up;
        assert(normalized(mn) == (q as nat, 52 - up));
    } else {
        let mut t: u64 = m;
        let mut d: u64 = 1;
        let mut sh: u64 = 0;
        proof {
            lemma_pow2_values();
        }
        while t >= 0x20_0000_0000_0000
            invariant
                mn >= 0x20_0000_0000_0000,
                mn <= 0x8000_0000_0000_0000,
                d == pow2(sh as nat),
                t == mn / (d as nat),
                0 < d,
                sh <= 11,
                t >= 0x10_0000_0000_0000,
                shift_down(mn) == sh + shift_down(t as nat),
            decreases t,
        {
            proof {
                lemma_pow2_unfold((sh + 1) as nat);
                vstd::arithmetic::div_mod::lemma_div_denominator(mn as int, d as int, 2);
                vstd::arithmetic::div_mod::lemma_div_is_ordered(mn as int, 0x8000_0000_0000_0000int, d as int);
                if d >= 0x800 {
                    vstd::arithmetic::div_mod::lemma_div_is_ordered_by_denominator(0x8000_0000_0000_0000int, 0x800int, d as int);
                    assert(0x8000_0000_0000_0000int / 0x800int == 0x10_0000_0000_0000int);
                    assert(false);
                }
                lemma_pow2_values();
                lemma_pow2_lt_exponent(sh as nat, 11);
                if sh < 11 {
                    vstd::arithmetic::power2::lemma_pow2_strictly_increases(sh as nat, 11);
                }
            }
            t = t / 2;
            d = d * 2;
            sh = sh + 1;
        }
        proof {
            vstd::arithmetic::div_mod::lemma_fundamental_div_mod(mn as int, d as int);
            lemma_pow2_values();
            if sh < 11 {
                vstd::arithmetic::power2::lemma_pow2_strictly_increases(sh as nat, 11);
            }
        }
        let q0: u64 = m / d;
        let r0: u64 = m % d;
        assert(q0 == t);
        let q1: u64 = if 2 * r0 > d || (2 * r0 == d && q0 % 2 == 1) { q0 + 1 } else { q0 };
        assert(q1 == round_half_even(mn, pow2(sh as nat)));
        if q1 == 0x20_0000_0000_0000 {
            q = 0x10_0000_0000_0000;
            e = 1023 + 53 + sh;
        } else {
            q = q1;
            e = 1023 + 52 + sh;
        }
    }
    assert(0x10_0000_0000_0000 <= q < 0x20_0000_0000_0000);
    assert(e <= 1023 + 64);
    sign + e * 0x10_0000_0000_0000 + (q - 0x10_0000_0000_0000)
}

/// `f` turns float text into its binary64 value as the spec function `rd`
/// does, and accepts every argument.
pub open spec fn reads_floats_as<F: Fn(&str) -> FloatRepr>(
    f: F,
    rd: spec_fn(Seq<char>) -> FloatView,
) -> bool {
    &&& forall|t: &str| #[trigger] f.requires((t,))
    &&& forall|t: &str, r: FloatRepr| #[trigger] f.ensures((t,), r) ==> r@ == rd(t@)
}

/// `f` is a float reader whose result depends on its argument alone.
pub open spec fn is_float_reader<F: Fn(&str) -> FloatRepr>(f: F) -> bool {
    exists|rd: spec_fn(Seq<char>) -> FloatView| reads_floats_as(f, rd)
}

/// The conversion that a float reader stands for.
pub open spec fn reader_fn<F: Fn(&str) -> FloatRepr>(f: F) -> spec_fn(Seq<char>) -> FloatView {
    choose|rd: spec_fn(Seq<char>) -> FloatView| reads_floats_as(f, rd)
}

/// Reads the float text `t` with `f`.
pub fn read_float<F: Fn(&str) -> FloatRepr>(f: &F, t: &str) -> (r: FloatRepr)
    requires
        is_float_reader(*f),
    ensures
        r@ == reader_fn(*f)(t@),
{
    let r = f(t);
    r
}

} // verus!
