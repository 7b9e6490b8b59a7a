//! The `Debug` rendering of a binary64 value, derived from its `Display`
//! rendering.
//!
//! `Display` prints the shortest round-tripping digits in positional notation
//! (`10000000000000000`, `0.00001`, `2.5`). `Debug` prints the same digits,
//! positionally with at least one fractional digit when the magnitude is zero
//! or lies in `[1e-4, 1e16)`, and in scientific notation otherwise
//! (`1e16`, `1e-5`). Both thresholds can be read off the positional text: a
//! magnitude of at least `1e16` has seventeen or more integer digits, and a
//! nonzero magnitude below `1e-4` has at least four zeros right after the
//! point.

use vstd::prelude::*;
use crate::text::{is_digit, int_text, nat_text, chars_of, u64_text, push_str};

verus! {

/// Every character of `s` is an ASCII digit.
pub open spec fn all_digits(s: Seq<char>) -> bool {
    forall|i: int| 0 <= i < s.len() ==> is_digit(#[trigger] s[i])
}

/// The length of `s` once its trailing zeros are removed.
pub open spec fn trimmed_len(s: Seq<char>) -> int
    decreases s.len(),
{
    if s.len() > 0 && s.last() == '0' {
        trimmed_len(s.drop_last())
    } else {
        s.len() as int
    }
}

/// The number of zeros that `s` starts with.
pub open spec fn lead_zeros(s: Seq<char>) -> int
    decreases s.len(),
{
    if s.len() > 0 && s[0] == '0' {
        1 + lead_zeros(s.drop_first())
    } else {
        0
    }
}

/// Scientific notation `d[.ddd]e<exp>` for significant digits `d`.
pub open spec fn sci_text(d: Seq<char>, exp: int) -> Seq<char> {
    (if d.len() > 1 {
        seq![d[0], '.'] + d.drop_first()
    } else {
        d
    }) + seq!['e'] + int_text(exp)
}

/// Unsigned positional text of a magnitude of at least `1e16`.
pub open spec fn is_large_display(b: Seq<char>) -> bool {
    &&& b.len() >= 17
    &&& b[0] != '0'
    &&& all_digits(b)
}

/// Unsigned positional text of a nonzero magnitude below `1e-4`.
pub open spec fn is_small_display(b: Seq<char>) -> bool {
    &&& b.len() >= 2
    &&& b[0] == '0'
    &&& b[1] == '.'
    &&& all_digits(b.skip(2))
    &&& 4 <= lead_zeros(b.skip(2)) < b.len() - 2
}

/// The text has a point, an exponent, or is `inf` / `NaN`.
pub open spec fn has_point_or_letter(b: Seq<char>) -> bool {
    exists|i: int|
        0 <= i < b.len() && (b[i] == '.' || b[i] == 'e' || b[i] == 'i' || b[i] == 'N')
}

/// `Debug` text of an unsigned magnitude from its `Display` text.
pub open spec fn magnitude_debug(b: Seq<char>) -> Seq<char> {
    if is_large_display(b) {
        sci_text(b.take(trimmed_len(b)), b.len() - 1)
    } else if is_small_display(b) {
        let f = b.skip(2);
        let z = lead_zeros(f);
        sci_text(f.subrange(z, trimmed_len(f)), -(z + 1))
    } else if has_point_or_letter(b) {
        b
    } else {
        b + seq!['.', '0']
    }
}

/// `Debug` text of a float from its `Display` text `t`.
pub open spec fn float_debug_text(t: Seq<char>) -> Seq<char> {
    if t.len() > 0 && t[0] == '-' {
        seq!['-'] + magnitude_debug(t.drop_first())
    } else {
        magnitude_debug(t)
    }
}

proof fn lemma_trimmed_len(s: Seq<char>)
    ensures
        0 <= trimmed_len(s) <= s.len(),
        forall|k: int| trimmed_len(s) <= k < s.len() ==> s[k] == '0',
        trimmed_len(s) > 0 ==> s[trimmed_len(s) - 1] != '0',
    decreases s.len(),
{
    if s.len() > 0 && s.last() == '0' {
        lemma_trimmed_len(s.drop_last());
        assert forall|k: int| trimmed_len(s) <= k < s.len() implies s[k] == '0' by {
            if k < s.len() - 1 {
                assert(s.drop_last()[k] == s[k]);
            }
        }
        if trimmed_len(s) > 0 {
            assert(s.drop_last()[trimmed_len(s) - 1] == s[trimmed_len(s) - 1]);
        }
    }
}

proof fn lemma_lead_zeros(s: Seq<char>)
    ensures
        0 <= lead_zeros(s) <= s.len(),
        forall|k: int| 0 <= k < lead_zeros(s) ==> s[k] == '0',
        lead_zeros(s) < s.len() ==> s[lead_zeros(s)] != '0',
    decreases s.len(),
{
    if s.len() > 0 && s[0] == '0' {
        lemma_lead_zeros(s.drop_first());
        assert forall|k: int| 0 <= k < lead_zeros(s) implies s[k] == '0' by {
            if k > 0 {
                assert(s.drop_first()[k - 1] == s[k]);
            }
        }
        if lead_zeros(s) < s.len() {
            assert(s.drop_first()[lead_zeros(s) - 1] == s[lead_zeros(s)]);
        }
    }
}

/// Whether `c[from..to]` holds only digits.
fn digits_only(c: &Vec<char>, from: usize, to: usize) -> (r: bool)
    requires
        from <= to <= c.len(),
    ensures
        r == all_digits(c@.subrange(from as int, to as int)),
{
    let mut i = from;
    while i < to
        invariant
            from <= i <= to <= c.len(),
            forall|k: int| from <= k < i ==> is_digit(#[trigger] c@[k]),
        decreases to - i,
    {
        if !('0' <= c[i] && c[i] <= '9') {
            assert(c@.subrange(from as int, to as int)[i - from] == c@[i as int]);
            return false;
        }
        i += 1;
    }
    assert forall|k: int| 0 <= k < to - from implies is_digit(
        #[trigger] c@.subrange(from as int, to as int)[k],
    ) by {
        assert(c@.subrange(from as int, to as int)[k] == c@[from + k]);
    }
    true
}

/// End of `c[from..to]` once its trailing zeros are removed.
fn trim_zeros_end(c: &Vec<char>, from: usize, to: usize) -> (k: usize)
    requires
        from <= to <= c.len(),
    ensures
        from <= k <= to,
        k - from == trimmed_len(c@.subrange(from as int, to as int)),
{
    let mut j = to;
    while j > from && c[j - 1] == '0'
        invariant
            from <= j <= to <= c.len(),
            trimmed_len(c@.subrange(from as int, j as int)) == trimmed_len(
                c@.subrange(from as int, to as int),
            ),
        decreases j,
    {
        assert(c@.subrange(from as int, j as int).drop_last() =~= c@.subrange(
            from as int,
            j - 1,
        ));
        j -= 1;
    }
    j
}

/// Number of zeros that `c[from..to]` starts with.
fn count_lead_zeros(c: &Vec<char>, from: usize, to: usize) -> (z: usize)
    requires
        from <= to <= c.len(),
    ensures
        z <= to - from,
        z == lead_zeros(c@.subrange(from as int, to as int)),
{
    let mut i = from;
    while i < to && c[i] == '0'
        invariant
            from <= i <= to <= c.len(),
            lead_zeros(c@.subrange(from as int, to as int)) == (i - from) + lead_zeros(
                c@.subrange(i as int, to as int),
            ),
        decreases to - i,
    {
        assert(c@.subrange(i as int, to as int).drop_first() =~= c@.subrange(i + 1, to as int));
        i += 1;
    }
    i - from
}

/// Appends `sci_text(c[from..to], exp)`, where the exponent is `exp` or
/// `-exp` as `negative` says.
fn push_sci(s: &mut String, c: &Vec<char>, from: usize, to: usize, exp: usize, negative: bool)
    requires
        from < to <= c.len(),
        negative ==> exp > 0,
    ensures
        final(s)@ == old(s)@ + sci_text(
            c@.subrange(from as int, to as int),
            if negative {
                -(exp as int)
            } else {
                exp as int
            },
        ),
{
    let ghost d = c@.subrange(from as int, to as int);
    let ghost start = s@;
    s.push(c[from]);
    if to - from > 1 {
        s.push('.');
        let mut i = from + 1;
        while i < to
            invariant
                from < i <= to <= c.len(),
                d == c@.subrange(from as int, to as int),
                s@ == start + seq![d[0], '.'] + d.subrange(1, i - from),
            decreases to - i,
        {
            s.push(c[i]);
            i += 1;
        }
        assert(d.subrange(1, to - from) =~= d.drop_first());
    } else {
        assert(d =~= seq![c@[from as int]]);
    }
    s.push('e');
    let ghost mid = s@;
    if negative {
        s.push('-');
    }
    let t = u64_text(exp as u64);
    push_str(s, t.as_str());
    proof {
        let e: int = if negative {
            -(exp as int)
        } else {
            exp as int
        };
        if negative {
            assert(int_text(e) == seq!['-'] + nat_text(exp as nat));
            assert(s@ =~= mid + int_text(e));
        } else {
            assert(s@ =~= mid + int_text(e));
        }
        let head = if d.len() > 1 {
            seq![d[0], '.'] + d.drop_first()
        } else {
            d
        };
        assert(mid == start + head + seq!['e']);
    }
    assert(s@ =~= start + sci_text(
        d,
        if negative {
            -(exp as int)
        } else {
            exp as int
        },
    ));
}

/// Appends the `Debug` text of a float whose `Display` text is `text`.
pub fn push_float_debug(s: &mut String, text: &str)
    ensures
        final(s)@ == old(s)@ + float_debug_text(text@),
{
    let c = chars_of(text);
    let n = c.len();
    let ghost start_s = s@;
    let neg = n > 0 && c[0] == '-';
    let from: usize = if neg {
        s.push('-');
        1
    } else {
        0
    };
    let ghost b = c@.subrange(from as int, n as int);
    assert(b =~= if neg {
        text@.drop_first()
    } else {
        text@
    });
    let large = n - from >= 17 && c[from] != '0' && digits_only(&c, from, n);
    let mut small = false;
    let mut z: usize = 0;
    if !large && n - from >= 2 && c[from] == '0' && c[from + 1] == '.' && digits_only(
        &c,
        from + 2,
        n,
    ) {
        z = count_lead_zeros(&c, from + 2, n);
        small = 4 <= z && z < n - from - 2;
    }
    proof {
        if n - from >= 2 {
            assert(b.skip(2) =~= c@.subrange(from + 2, n as int));
        }
        if b.len() > 0 {
            assert(b[0] == c@[from as int]);
        }
        if b.len() > 1 {
            assert(b[1] == c@[from + 1]);
        }
        assert(large == is_large_display(b));
        assert(!large ==> small == is_small_display(b));
    }
    if large {
        let k = trim_zeros_end(&c, from, n);
        proof {
            lemma_trimmed_len(b);
            assert(c@.subrange(from as int, k as int) =~= b.take(trimmed_len(b)));
        }
        push_sci(s, &c, from, k, n - from - 1, false);
    } else if small {
        let k = trim_zeros_end(&c, from + 2, n);
        let ghost f = b.skip(2);
        proof {
            lemma_lead_zeros(f);
            lemma_trimmed_len(f);
            assert(c@.subrange(from + 2 + z, k as int) =~= f.subrange(z as int, trimmed_len(f)));
        }
        push_sci(s, &c, from + 2 + z, k, z + 1, true);
    } else {
        let mut plain = true;
        let mut i = from;
        while i < n
            invariant
                from <= i <= n == c.len(),
                b == c@.subrange(from as int, n as int),
                plain == (forall|k: int|
                    from <= k < i ==> !(c@[k] == '.' || c@[k] == 'e' || c@[k] == 'i' || c@[k]
                        == 'N')),
            decreases n - i,
        {
            let ch = c[i];
            if ch == '.' || ch == 'e' || ch == 'i' || ch == 'N' {
                plain = false;
            }
            i += 1;
        }
        let ghost pre = s@;
        let rest = crate::text::string_of(&c, from, n);
        push_str(s, rest.as_str());
        if plain {
            push_str(s, ".0");
        }
        proof {
            reveal_strlit(".0");
            if plain {
                assert(!has_point_or_letter(b)) by {
                    if has_point_or_letter(b) {
                        let w = choose|w: int|
                            0 <= w < b.len() && (b[w] == '.' || b[w] == 'e' || b[w] == 'i'
                                || b[w] == 'N');
                        assert(b[w] == c@[from + w]);
                    }
                }
            } else {
                let w = choose|w: int|
                    from <= w < n && (c@[w] == '.' || c@[w] == 'e' || c@[w] == 'i' || c@[w]
                        == 'N');
                assert(b[w - from] == c@[w]);
            }
        }
    }
}

} // verus!
