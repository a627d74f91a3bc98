//! What [`Binary64`] numbers are and what their operations give, stated on bit patterns and on the
//! values that these stand for.
//!
//! Values are counted in units of the smallest positive number, two to the power -1074, so a whole
//! number `n` has the value `n * pow2(1074)`.
use crate::arithmetic_laws;
use crate::binary64::Binary64;
use crate::rounding;
use std::cmp::Ordering;
use vstd::arithmetic::div_mod::lemma_fundamental_div_mod;
use vstd::arithmetic::power2::{lemma_pow2_pos, lemma_pow2_unfold, pow2};
use vstd::prelude::*;
use vstd::std_specs::cmp::{PartialEqSpec, PartialOrdSpec};

verus! {

/// The kinds of numbers by their bits: finite, infinite, not a number; and the sign.
pub proof fn law_kinds_by_bits(x: Binary64)
    ensures
        x.negative() <==> x.bits >= 0x8000_0000_0000_0000,
        x.finite() <==> x.bits < 0x7ff0_0000_0000_0000 || 0x8000_0000_0000_0000 <= x.bits
            < 0xfff0_0000_0000_0000,
        x.infinite() <==> x.bits == 0x7ff0_0000_0000_0000 || x.bits == 0xfff0_0000_0000_0000,
        x.nan() <==> 0x7ff0_0000_0000_0000 < x.bits < 0x8000_0000_0000_0000 || x.bits
            > 0xfff0_0000_0000_0000,
{
}

/// The value of a finite number by its bits: the lowest 52 bits are the fraction, the next eleven
/// the exponent, and a fraction with a positive exponent has a leading one in front.
pub proof fn law_value_by_bits(x: Binary64, negative: bool, exponent: nat, fraction: nat)
    requires
        exponent < 2047,
        fraction < 0x10_0000_0000_0000,
        x.bits == (if negative {
            0x8000_0000_0000_0000int
        } else {
            0
        }) + exponent * 0x10_0000_0000_0000 + fraction,
    ensures
        x.finite(),
        ({
            let magnitude = if exponent == 0 {
                fraction
            } else {
                (0x10_0000_0000_0000 + fraction) as nat * pow2((exponent - 1) as nat)
            };
            x.value() == if negative {
                -(magnitude as int)
            } else {
                magnitude as int
            }
        }),
{
    vstd::arithmetic::power2::lemma2_to64();
    let k = x.code();
    assert(k == exponent * 0x10_0000_0000_0000 + fraction);
    assert(k / 0x10_0000_0000_0000 == exponent && k % 0x10_0000_0000_0000 == fraction);
    assert(exponent == 0 ==> rounding::units(k) == k * 1);
}

/// Numbers compare by their bits: upwards without the sign, downwards with it, zeros of both signs
/// alike, and a NaN with nothing.
pub proof fn law_order_by_bits(a: Binary64, b: Binary64)
    ensures
        a.bits <= 0x7ff0_0000_0000_0000 && b.bits <= 0x7ff0_0000_0000_0000 ==> {
            &&& a.exceeds(b) <==> a.bits > b.bits
            &&& a.reaches(b) <==> a.bits >= b.bits
            &&& a.equals(b) <==> a.bits == b.bits
        },
        0x8000_0000_0000_0000 <= a.bits <= 0xfff0_0000_0000_0000 && 0x8000_0000_0000_0000 <= b.bits
            <= 0xfff0_0000_0000_0000 ==> {
            &&& a.exceeds(b) <==> a.bits < b.bits
            &&& a.reaches(b) <==> a.bits <= b.bits
            &&& a.equals(b) <==> a.bits == b.bits
        },
        a.bits <= 0x7ff0_0000_0000_0000 && 0x8000_0000_0000_0000 <= b.bits
            <= 0xfff0_0000_0000_0000 ==> {
            let zeros = a.bits == 0 && b.bits == 0x8000_0000_0000_0000;
            &&& a.exceeds(b) <==> !zeros
            &&& a.reaches(b)
            &&& a.equals(b) <==> zeros
            &&& !b.exceeds(a)
            &&& b.reaches(a) <==> zeros
            &&& b.equals(a) <==> zeros
        },
        0x7ff0_0000_0000_0000 < a.bits < 0x8000_0000_0000_0000 || a.bits > 0xfff0_0000_0000_0000
            ==> !a.exceeds(b) && !a.reaches(b) && !a.equals(b) && !b.exceeds(a) && !b.reaches(a)
            && !b.equals(a),
{
}

/// The operators of comparison follow the order of the numbers.
pub proof fn law_operators_follow_order(a: Binary64, b: Binary64)
    ensures
        Binary64::obeys_eq_spec(),
        Binary64::obeys_partial_cmp_spec(),
        a.eq_spec(&b) <==> a.equals(b),
        a.partial_cmp_spec(&b) == Some(Ordering::Greater) <==> a.exceeds(b),
        a.partial_cmp_spec(&b) == Some(Ordering::Less) <==> b.exceeds(a),
        a.partial_cmp_spec(&b) == Some(Ordering::Equal) <==> a.equals(b),
        a.partial_cmp_spec(&b) is None <==> a.nan() || b.nan(),
{
}

/// Where rounding starts to overflow: half a gap above the largest finite number.
proof fn lemma_largest()
    ensures
        ({
            let inf = 0x7ff0_0000_0000_0000nat;
            rounding::units((inf - 1) as nat) + rounding::units(inf) == 2 * (0x3f_ffff_ffff_ffff
                * pow2(2044))
        }),
        rounding::units((0x7ff0_0000_0000_0000nat - 1) as nat) + pow2(2044) == 0x3f_ffff_ffff_ffff
            * pow2(2044),
        pow2(2044) > 0,
{
    let inf = 0x7ff0_0000_0000_0000nat;
    rounding::lemma_gap((inf - 1) as nat);
    assert(rounding::units((inf - 1) as nat) == 0x1f_ffff_ffff_ffff * pow2(2045));
    lemma_pow2_unfold(2045);
    lemma_pow2_pos(2044);
    assert(0x1f_ffff_ffff_ffff * (2 * pow2(2044)) == 0x3f_ffff_ffff_fffe * pow2(2044))
        by (nonlinear_arith);
    assert(0x3f_ffff_ffff_ffff * pow2(2044) == 0x3f_ffff_ffff_fffe * pow2(2044) + pow2(2044))
        by (nonlinear_arith);
}

/// Finite numbers stay half a gap away from where rounding overflows.
pub proof fn law_finite_values_are_bounded(x: Binary64)
    requires
        x.finite(),
    ensures
        -(0x3f_ffff_ffff_ffff * pow2(2044)) + pow2(2044) <= x.value() <= 0x3f_ffff_ffff_ffff
            * pow2(2044) - pow2(2044),
{
    let inf = 0x7ff0_0000_0000_0000nat;
    lemma_largest();
    rounding::lemma_units_order(x.code(), (inf - 1) as nat);
    rounding::lemma_units_order(0, (inf - 1) as nat);
    assert(rounding::units(0) == 0 * pow2(0));
}

/// Rounding by way of codes, on values: no finite number is nearer, and where one is as near the
/// result is the even one of the two; what is too large becomes infinite.
proof fn lemma_nearest_by_value(negative: bool, n: nat, c: Binary64)
    requires
        c.finite(),
    ensures
        ({
            let r = Binary64::nearest(negative, n);
            let t = if negative {
                -(n as int)
            } else {
                n as int
            };
            &&& !r.nan()
            &&& r.negative() == negative
            &&& r.finite() <==> n < 0x3f_ffff_ffff_ffff * pow2(2044)
            &&& r.finite() ==> {
                &&& (r.value() - t) <= (c.value() - t) || (r.value() - t) <= (t - c.value())
                &&& (t - r.value()) <= (c.value() - t) || (t - r.value()) <= (t - c.value())
                &&& (r.value() - t == t - c.value() && r.value() != c.value()) ==> r.bits % 2 == 0
            }
        }),
{
    let r = Binary64::nearest(negative, n);
    let k = rounding::rounded(n);
    let inf = 0x7ff0_0000_0000_0000nat;
    rounding::law_rounded_is_nearest(n);
    assert(r.code() == k);
    lemma_largest();
    if k < inf {
        if k + 1 < inf {
            rounding::lemma_units_order(k + 1, (inf - 1) as nat);
            rounding::lemma_units_order(k, (inf - 1) as nat);
        }
        let j = c.code();
        rounding::law_rounding_minimizes_error(n, j);
        rounding::lemma_units_order(0, j);
        rounding::lemma_units_order(0, k);
        assert(rounding::units(0) == 0 * pow2(0));
        rounding::law_rounding_minimizes_error(n, 0);
        rounding::lemma_units_order(j, k);
        if j + 1 < k {
            rounding::lemma_units_order(j, (k - 1) as nat);
        }
        if k + 1 < j {
            rounding::lemma_units_order(k + 1, j);
        }
    }
}

/// The sum of finite numbers is the number nearest to the exact sum: no finite number `c` is nearer,
/// where one is as near the sum is the one with the even bit pattern, and only a sum beyond the
/// largest finite number and half the gap above it is infinite. An exact zero is negative only as
/// the sum of two negative zeros.
pub proof fn law_sum_is_nearest(a: Binary64, b: Binary64, c: Binary64)
    requires
        a.finite(),
        b.finite(),
        c.finite(),
    ensures
        ({
            let r = a.sum(b);
            let t = a.value() + b.value();
            &&& !r.nan()
            &&& r.finite() <==> -(0x3f_ffff_ffff_ffff * pow2(2044)) < t < 0x3f_ffff_ffff_ffff
                * pow2(2044)
            &&& t > 0 ==> r.bits < 0x8000_0000_0000_0000
            &&& t < 0 ==> r.bits >= 0x8000_0000_0000_0000
            &&& r.finite() ==> {
                &&& (r.value() - t) <= (c.value() - t) || (r.value() - t) <= (t - c.value())
                &&& (t - r.value()) <= (c.value() - t) || (t - r.value()) <= (t - c.value())
                &&& (r.value() - t == t - c.value() && r.value() != c.value()) ==> r.bits % 2
                    == 0
            }
            &&& t == 0 ==> r.value() == 0 && (r.bits >= 0x8000_0000_0000_0000 <==> a.bits
                >= 0x8000_0000_0000_0000 && b.bits >= 0x8000_0000_0000_0000)
        }),
{
    let t = a.value() + b.value();
    let n = arithmetic_laws::size(t);
    let negative = t < 0 || (t == 0 && a.negative() && b.negative());
    lemma_nearest_by_value(negative, n, c);
    lemma_pow2_pos(2044);
    if t == 0 {
        rounding::lemma_exact(0);
        assert(rounding::units(0) == 0 * pow2(0));
    }
}

/// The difference of finite numbers is the number nearest to the exact difference, in the same way.
pub proof fn law_difference_is_nearest(a: Binary64, b: Binary64, c: Binary64)
    requires
        a.finite(),
        b.finite(),
        c.finite(),
    ensures
        ({
            let r = a.difference(b);
            let t = a.value() - b.value();
            &&& !r.nan()
            &&& r.finite() <==> -(0x3f_ffff_ffff_ffff * pow2(2044)) < t < 0x3f_ffff_ffff_ffff
                * pow2(2044)
            &&& t > 0 ==> r.bits < 0x8000_0000_0000_0000
            &&& t < 0 ==> r.bits >= 0x8000_0000_0000_0000
            &&& r.finite() ==> {
                &&& (r.value() - t) <= (c.value() - t) || (r.value() - t) <= (t - c.value())
                &&& (t - r.value()) <= (c.value() - t) || (t - r.value()) <= (t - c.value())
                &&& (r.value() - t == t - c.value() && r.value() != c.value()) ==> r.bits % 2
                    == 0
            }
            &&& t == 0 ==> r.value() == 0 && (r.bits >= 0x8000_0000_0000_0000 <==> a.bits
                >= 0x8000_0000_0000_0000 && b.bits < 0x8000_0000_0000_0000)
        }),
{
    arithmetic_laws::law_opposite_value(b);
    law_sum_is_nearest(a, b.opposite(), c);
}

/// Sums and differences with a NaN, or of infinities that cancel, are not numbers; any other one
/// with an infinity is that infinity.
pub proof fn law_sum_with_infinity(a: Binary64, b: Binary64)
    requires
        !a.finite() || !b.finite(),
    ensures
        ({
            let same_side = (a.bits >= 0x8000_0000_0000_0000) == (b.bits >= 0x8000_0000_0000_0000);
            &&& a.nan() || b.nan() ==> a.sum(b).nan() && a.difference(b).nan()
            &&& a.infinite() && b.infinite() ==> {
                &&& same_side ==> a.sum(b) == a && a.difference(b).nan()
                &&& !same_side ==> a.sum(b).nan() && a.difference(b) == a
            }
            &&& a.infinite() && b.finite() ==> a.sum(b) == a && a.difference(b) == a
            &&& a.finite() && b.infinite() ==> {
                &&& a.sum(b) == b
                &&& a.difference(b).infinite()
                &&& (a.difference(b).bits >= 0x8000_0000_0000_0000) != (b.bits
                    >= 0x8000_0000_0000_0000)
            }
        }),
{
}

/// The remainder of finite numbers is what the dividend has left after whole divisors are taken off
/// towards zero: it is smaller than the divisor and has the dividend's sign.
pub proof fn law_remainder_by_quotient(a: Binary64, b: Binary64) -> (q: int)
    requires
        a.finite(),
        b.finite(),
        b.value() != 0,
    ensures
        ({
            let r = a.remainder(b);
            &&& r.finite()
            &&& a.value() == q * b.value() + r.value()
            &&& -(b.value()) < r.value() < b.value() || b.value() < r.value() < -(b.value())
            &&& (r.bits >= 0x8000_0000_0000_0000) == (a.bits >= 0x8000_0000_0000_0000)
        }),
{
    assert(rounding::units(0) == 0 * pow2(0));
    arithmetic_laws::law_remainder_exact(a, b);
    let (x, y) = (arithmetic_laws::size(a.value()) as int, arithmetic_laws::size(b.value()) as int);
    lemma_fundamental_div_mod(x, y);
    let p = x / y;
    assert((-p) * y == -(y * p) && p * y == y * p && p * (-y) == -(y * p) && (-p) * (-y) == y * p)
        by (nonlinear_arith);
    if (a.negative()) == (b.negative()) {
        p
    } else {
        -p
    }
}

/// A remainder by zero, of an infinity, or with a NaN is not a number; by an infinity it is the
/// dividend.
pub proof fn law_remainder_undefined(a: Binary64, b: Binary64)
    ensures
        a.nan() || b.nan() || a.infinite() || b.bits == 0 || b.bits == 0x8000_0000_0000_0000
            ==> a.remainder(b).nan(),
        a.finite() && b.infinite() ==> a.remainder(b) == a,
{
}

/// The absolute value has all bits but the sign.
pub proof fn law_absolute_by_bits(a: Binary64)
    ensures
        a.absolute().bits == a.bits || a.absolute().bits + 0x8000_0000_0000_0000 == a.bits,
        a.absolute().bits < 0x8000_0000_0000_0000,
{
}

/// The maximum is one of the two numbers and at least both; beside a NaN it is the other number.
pub proof fn law_maximum_of_numbers(a: Binary64, b: Binary64)
    ensures
        a.maximum(b) == a || a.maximum(b) == b,
        !a.nan() && !b.nan() ==> a.maximum(b).reaches(a) && a.maximum(b).reaches(b),
        a.nan() ==> a.maximum(b) == b,
        b.nan() ==> a.maximum(b) == a || a.nan(),
{
}

/// A whole number has its own value, without a sign.
pub proof fn law_whole_by_value(n: u16)
    ensures
        Binary64::whole(n as nat).finite(),
        Binary64::whole(n as nat).bits < 0x8000_0000_0000_0000,
        Binary64::whole(n as nat).value() == n * pow2(1074),
{
    arithmetic_laws::law_whole_numbers_exact(n as nat);
}

/// Whether `s` is the finite number nearest to the value `t`, the even one of two as near.
pub open spec fn rounds_to(t: int, s: Binary64) -> bool {
    &&& s.finite()
    &&& forall|c: Binary64|
        c.finite() ==> {
            let away = #[trigger] c.value() - t;
            &&& s.value() - t <= away || s.value() - t <= -away
            &&& t - s.value() <= away || t - s.value() <= -away
            &&& (s.value() - t == -away && away != 0) ==> s.bits % 2 == 0
        }
}

/// A nearest number is the one that rounding gives.
proof fn lemma_rounds_to(t: int, s: Binary64)
    requires
        rounds_to(t, s),
        arithmetic_laws::size(t) < 0x3f_ffff_ffff_ffff * pow2(2044),
    ensures
        forall|negative: bool|
            (t != 0 ==> negative == (t < 0)) ==> (#[trigger] Binary64::nearest(
                negative,
                arithmetic_laws::size(t),
            )).value() == s.value(),
{
    let n = arithmetic_laws::size(t);
    let k = s.code();
    let sign: int = if t < 0 {
        0x8000_0000_0000_0000
    } else {
        0
    };
    assert(rounding::units(0) == 0 * pow2(0));
    rounding::lemma_units_order(0, k);
    assert((Binary64 { bits: 0 }).value() == 0);
    assert(t > 0 ==> s.value() >= 0);
    assert(t < 0 ==> s.value() <= 0);
    assert(t == 0 ==> s.value() == 0);
    assert(arithmetic_laws::size(s.value()) == rounding::units(k));
    if k > 0 {
        let c = Binary64 { bits: (k - 1 + sign) as u64 };
        rounding::lemma_units_order((k - 1) as nat, k);
        assert(c.code() == k - 1 && c.negative() == (t < 0));
        assert(c.finite());
        let away = c.value() - t;
    }
    if k + 1 < 0x7ff0_0000_0000_0000 {
        let c = Binary64 { bits: (k + 1 + sign) as u64 };
        rounding::lemma_units_order(k, k + 1);
        assert(c.code() == k + 1 && c.negative() == (t < 0));
        assert(c.finite());
        let away = c.value() - t;
    } else {
        lemma_largest();
    }
    assert(rounding::is_nearest(k, n));
    rounding::lemma_rounded(k, n);
    assert forall|negative: bool| (t != 0 ==> negative == (t < 0)) implies (
    #[trigger] Binary64::nearest(negative, n)).value() == s.value() by {
        assert(Binary64::nearest(negative, n).code() == k);
    }
}

/// A sum that does not overflow is the number nearest to the exact sum.
pub proof fn law_sum_rounds(a: Binary64, b: Binary64, s: Binary64)
    requires
        a.finite(),
        b.finite(),
        rounds_to(a.value() + b.value(), s),
        -(0x3f_ffff_ffff_ffff * pow2(2044)) < a.value() + b.value() < 0x3f_ffff_ffff_ffff * pow2(
            2044,
        ),
    ensures
        a.sum(b).finite(),
        a.sum(b).value() == s.value(),
{
    let t = a.value() + b.value();
    lemma_rounds_to(t, s);
    law_sum_is_nearest(a, b, s);
    let negative = t < 0 || (t == 0 && a.negative() && b.negative());
    assert(a.sum(b) == Binary64::nearest(negative, arithmetic_laws::size(t)));
}

} // verus!
