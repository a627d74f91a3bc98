//! What the operations on [`Binary64`] do to the values that the numbers stand for.
use crate::binary64::{Binary64, ONE_SCALE};
use crate::magnitude;
use crate::rounding;
use crate::rounding::INFINITY_CODE;
use vstd::arithmetic::power2::{lemma_pow2_pos, lemma_pow2_strictly_increases, pow2};
use vstd::prelude::*;

verus! {

/// The size of an integer.
pub open spec fn size(x: int) -> nat {
    if x < 0 {
        (-x) as nat
    } else {
        x as nat
    }
}

/// The value of the number one.
pub open spec fn one() -> nat {
    pow2(ONE_SCALE as nat)
}

/// Finite numbers compare as their values do.
pub proof fn law_order_of_values(a: Binary64, b: Binary64)
    requires
        a.finite(),
        b.finite(),
    ensures
        a.exceeds(b) <==> a.value() > b.value(),
        a.reaches(b) <==> a.value() >= b.value(),
        a.equals(b) <==> a.value() == b.value(),
{
    rounding::lemma_units_order(a.code(), b.code());
    rounding::lemma_units_order(0, a.code());
    rounding::lemma_units_order(0, b.code());
    assert(rounding::units(0) == 0 * pow2(0));
}

/// The number nearest to `n` differs from it by at most half the gap below a coded bound of `n`.
pub proof fn lemma_nearest_error(negative: bool, n: nat, c: nat)
    requires
        0 < c < INFINITY_CODE,
        n <= rounding::units(c),
    ensures
        ({
            let r = Binary64::nearest(negative, n);
            &&& r.finite()
            &&& r.negative() == negative
            &&& size(r.value()) <= rounding::units(c)
            &&& 2 * (size(r.value()) - n) <= pow2(rounding::exponent((c - 1) as nat))
            &&& 2 * (n - size(r.value())) <= pow2(rounding::exponent((c - 1) as nat))
        }),
{
    rounding::law_rounded_is_nearest(n);
    let k = rounding::rounded(n);
    rounding::lemma_rounding_bounds(k, n, c);
    rounding::lemma_units_order(k, c);
    if k < c {
        rounding::lemma_gap(k);
        lemma_exponent_gap(k, (c - 1) as nat);
    }
    if k > 0 {
        rounding::lemma_gap((k - 1) as nat);
        lemma_exponent_gap((k - 1) as nat, (c - 1) as nat);
    }
    lemma_pow2_pos(rounding::exponent((c - 1) as nat));
    assert(rounding::units(0) == 0 * pow2(0));
    assert(Binary64::nearest(negative, n).code() == k);
}

/// Gaps do not shrink as magnitudes grow.
proof fn lemma_exponent_gap(j: nat, k: nat)
    requires
        j <= k,
    ensures
        pow2(rounding::exponent(j)) <= pow2(rounding::exponent(k)),
{
    magnitude::lemma_exponent_order(j, k);
    if rounding::exponent(j) < rounding::exponent(k) {
        lemma_pow2_strictly_increases(rounding::exponent(j), rounding::exponent(k));
    }
}

/// A sum of finite numbers differs from the exact sum by at most half the gap below a coded bound
/// of the exact sum, and does not cross that bound.
pub proof fn law_sum_error(a: Binary64, b: Binary64, c: nat)
    requires
        a.finite(),
        b.finite(),
        0 < c < INFINITY_CODE,
        size(a.value() + b.value()) <= rounding::units(c),
    ensures
        ({
            let s = a.value() + b.value();
            let r = a.sum(b);
            &&& r.finite()
            &&& s > 0 ==> !r.negative()
            &&& size(r.value()) <= rounding::units(c)
            &&& 2 * size(r.value() - s) <= pow2(rounding::exponent((c - 1) as nat))
        }),
{
    let s = a.value() + b.value();
    lemma_nearest_error(s < 0 || (s == 0 && a.negative() && b.negative()), size(s), c);
}

/// A sum whose exact value is at least a magnitude that has a code does not fall below it.
pub proof fn law_sum_at_least(a: Binary64, b: Binary64, k: nat)
    requires
        a.finite(),
        b.finite(),
        k < INFINITY_CODE,
        a.value() + b.value() >= rounding::units(k),
        a.sum(b).finite(),
    ensures
        a.sum(b).value() >= rounding::units(k),
{
    let n = size(a.value() + b.value());
    rounding::law_rounded_is_nearest(n);
    let j = rounding::rounded(n);
    rounding::lemma_rounding_bounds(j, n, k);
    rounding::lemma_units_order(k, j);
    rounding::lemma_exact(0);
    assert(rounding::units(0) == 0 * pow2(0));
}

/// A sum whose exact value is a magnitude that has a code loses nothing to rounding.
pub proof fn law_sum_exact(a: Binary64, b: Binary64, k: nat)
    requires
        a.finite(),
        b.finite(),
        k < INFINITY_CODE,
        size(a.value() + b.value()) == rounding::units(k),
    ensures
        a.sum(b).finite(),
        a.sum(b).value() == a.value() + b.value(),
        a.value() + b.value() > 0 ==> !a.sum(b).negative(),
{
    rounding::lemma_exact(k);
}

/// A remainder is never rounded: it is the dividend less a whole multiple of the divisor, is
/// smaller than the divisor, and has the dividend's sign.
pub proof fn law_remainder_exact(a: Binary64, b: Binary64)
    requires
        a.finite(),
        b.finite(),
        b.code() != 0,
    ensures
        ({
            let r = a.remainder(b);
            &&& r.finite()
            &&& r.negative() == a.negative()
            &&& size(r.value()) == size(a.value()) % size(b.value())
            &&& size(r.value()) < size(b.value())
        }),
{
    magnitude::lemma_remainder_exact(a.code(), b.code());
}

/// The opposite of a number has the opposite value.
pub proof fn law_opposite_value(a: Binary64)
    ensures
        a.opposite().value() == -a.value(),
        a.opposite().finite() == a.finite(),
        a.opposite().nan() == a.nan(),
{
}

/// Whole numbers of up to 53 bits are held exactly.
pub proof fn law_whole_numbers_exact(n: nat)
    requires
        n < 0x20_0000_0000_0000,
    ensures
        Binary64::whole(n).finite(),
        !Binary64::whole(n).negative(),
        Binary64::whole(n).value() == n * one(),
        Binary64::whole(n).code() == rounding::rounded(n * one()),
{
    rounding::lemma_representable(n, ONE_SCALE as nat);
}

} // verus!
