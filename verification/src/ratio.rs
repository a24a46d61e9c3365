//! Confidences and other ratios, held as millionths: one is `1_000_000`.
use vstd::prelude::*;
use crate::text::{chars_of, tenths_string};
#[allow(unused_imports)]
use crate::text::{first_of, lemma_first_of, lemma_first_of_is, tenths_text};

verus! {

/// A ratio of one.
pub const ONE: u32 = 1_000_000;

/// The whole number nearest to `n / d`; the even one half-way between two.
pub open spec fn nearest(n: int, d: int) -> int {
    let q = n / d;
    let r = n % d;
    if 2 * r > d || (2 * r == d && q % 2 == 1) {
        q + 1
    } else {
        q
    }
}

/// The parts that a single-precision number near a ratio is counted in: as many to one as it takes
/// to have twenty-four binary digits. `parts` is a power of two that is not too large.
pub open spec fn parts_from(ratio: int, parts: int) -> int
    decreases 16_777_216_000_000 - ratio * parts,
    when ratio > 0 && parts > 0
{
    if ratio * parts >= 8_388_608_000_000 {
        parts
    } else {
        proof {
            assert(ratio * (2 * parts) == 2 * (ratio * parts)) by (nonlinear_arith);
            assert(ratio * parts > 0) by (nonlinear_arith)
                requires
                    ratio > 0,
                    parts > 0,
            ;
        }
        parts_from(ratio, 2 * parts)
    }
}

/// A ratio in tenths, as it is shown: the tenth nearest to the single-precision number that is
/// nearest to the ratio.
pub open spec fn tenths_of(ratio: int) -> int {
    if ratio == 0 {
        0
    } else {
        let parts = parts_from(ratio, 1);
        nearest(10 * nearest(ratio * parts, 1_000_000), parts)
    }
}

/// A ratio with one digit after the point.
pub open spec fn ratio_text(ratio: int) -> Seq<char> {
    tenths_text(tenths_of(ratio))
}

/// The whole number nearest to `n / d`; the even one half-way between two.
fn to_nearest(n: u64, d: u64) -> (r: u64)
    requires
        0 < d <= 0x8000_0000_0000_0000,
        n < u64::MAX,
    ensures
        r == nearest(n as int, d as int),
        r <= n / d + 1,
{
    let q: u64 = n / d;
    let rest: u64 = n % d;
    proof {
        assert(q <= n) by (nonlinear_arith)
            requires
                q == n / d,
                d > 0,
        ;
    }
    if rest > d - rest || (rest == d - rest && q % 2 == 1) {
        q + 1
    } else {
        q
    }
}

/// A ratio in tenths, as it is shown.
pub fn to_tenths(ratio: u32) -> (r: u32)
    ensures
        r == tenths_of(ratio as int),
{
    if ratio == 0 {
        return 0;
    }
    let mut parts: u64 = 1;
    let mut scaled: u64 = ratio as u64;
    while scaled < 8_388_608_000_000
        invariant
            ratio > 0,
            parts > 0,
            scaled == ratio * parts,
            parts <= scaled,
            scaled < 16_777_216_000_000,
            parts_from(ratio as int, 1) == parts_from(ratio as int, parts as int),
        decreases 16_777_216_000_000 - scaled,
    {
        proof {
            assert(ratio * (2 * parts) == 2 * (ratio * parts)) by (nonlinear_arith);
            assert(0 < ratio * parts) by (nonlinear_arith)
                requires
                    ratio > 0,
                    parts > 0,
            ;
        }
        parts = 2 * parts;
        scaled = 2 * scaled;
    }
    let number: u64 = to_nearest(scaled, 1_000_000);
    let tenths: u64 = to_nearest(10 * number, parts);
    proof {
        assert((10 * number) / parts as int <= 10 * number) by (nonlinear_arith)
            requires
                parts > 0,
        ;
    }
    tenths as u32
}

/// Writes a ratio with one digit after the point.
pub fn ratio_string(ratio: u32) -> (r: String)
    ensures
        r@ == ratio_text(ratio as int),
{
    tenths_string(to_tenths(ratio))
}

/// The smaller of two ratios.
pub fn least(a: u32, b: u32) -> (r: u32)
    ensures
        r == (if a <= b {
            a
        } else {
            b
        }),
{
    if a <= b {
        a
    } else {
        b
    }
}

/// The value of a decimal digit.
pub open spec fn digit_value(c: char) -> int {
    if '0' <= c && c <= '9' {
        c as u32 - '0' as u32
    } else {
        0
    }
}

/// Whether a text holds a digit other than zero.
pub open spec fn has_nonzero(s: Seq<char>) -> bool {
    exists|i: int| 0 <= i < s.len() && digit_value(#[trigger] s[i]) > 0
}

/// The value of the digit at a place of a text: nought beyond its end.
pub open spec fn digit_at(s: Seq<char>, i: int) -> int {
    if i < s.len() {
        digit_value(s[i])
    } else {
        0
    }
}

/// The number that the six digits from a place on make.
pub open spec fn six_digits(s: Seq<char>, i: int) -> int {
    digit_at(s, i) * 100_000 + digit_at(s, i + 1) * 10_000 + digit_at(s, i + 2) * 1_000 + digit_at(
        s,
        i + 3,
    ) * 100 + digit_at(s, i + 4) * 10 + digit_at(s, i + 5)
}

/// A decimal number as a ratio between nought and one, rounded down to millionths: a negative
/// number is nought, and one above one is one.
pub open spec fn ratio_of_decimal(s: Seq<char>) -> int {
    let point = first_of(s, '.');
    if s.len() == 0 || s[0] == '-' {
        0
    } else if has_nonzero(s.take(point)) {
        ONE as int
    } else {
        six_digits(s, point + 1)
    }
}

/// The value of a decimal digit.
fn value_of_digit(c: char) -> (r: u32)
    ensures
        r == digit_value(c),
        r <= 9,
{
    if '0' <= c && c <= '9' {
        c as u32 - '0' as u32
    } else {
        0
    }
}

/// The value of the `k`-th digit behind a place of a text: nought beyond its end.
fn value_behind(cs: &Vec<char>, place: usize, k: usize) -> (r: u32)
    requires
        place < cs.len(),
    ensures
        r == digit_at(cs@, place + 1 + k),
        r <= 9,
{
    if k < cs.len() - 1 - place {
        value_of_digit(cs[place + 1 + k])
    } else {
        0
    }
}

/// Reads a decimal number as a ratio between nought and one, rounded down to millionths.
pub fn decimal_to_ratio(s: &str) -> (r: u32)
    ensures
        r == ratio_of_decimal(s@),
        r <= ONE,
{
    let cs = chars_of(s);
    let n: usize = cs.len();
    if n == 0 || cs[0] == '-' {
        return 0;
    }
    let mut i: usize = 0;
    while i < n && cs[i] != '.'
        invariant
            0 < n == cs.len(),
            cs@ == s@,
            cs@[0] != '-',
            i <= n,
            forall|j: int| 0 <= j < i ==> #[trigger] cs@[j] != '.',
            forall|j: int| 0 <= j < i ==> digit_value(#[trigger] cs@[j]) == 0,
        decreases n - i,
    {
        if value_of_digit(cs[i]) > 0 {
            proof {
                lemma_first_of(s@, '.');
                let p = first_of(s@, '.');
                assert(i < p);
                assert(s@.take(p)[i as int] == cs@[i as int]);
                assert(has_nonzero(s@.take(p)));
            }
            return ONE;
        }
        i = i + 1;
    }
    proof {
        lemma_first_of_is(s@, '.', i as int);
        assert(!has_nonzero(s@.take(i as int))) by {
            assert forall|j: int| 0 <= j < i implies digit_value(
                #[trigger] s@.take(i as int)[j],
            ) == 0 by {
                assert(s@.take(i as int)[j] == cs@[j]);
            }
        }
    }
    if i == n {
        return 0;
    }
    value_behind(&cs, i, 0) * 100_000 + value_behind(&cs, i, 1) * 10_000 + value_behind(&cs, i, 2)
        * 1_000 + value_behind(&cs, i, 3) * 100 + value_behind(&cs, i, 4) * 10 + value_behind(
        &cs,
        i,
        5,
    )
}

} // verus!
