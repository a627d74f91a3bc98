//! What the operations on angles give, stated on the values of the numbers.
//!
//! A degree is `pow2(1074)` units, see [`crate::number_laws`].
use crate::angles;
use crate::arithmetic_laws;
use crate::binary64::Binary64;
use crate::number_laws;
use vstd::arithmetic::power2::{
    lemma2_to64, lemma_pow2_adds, lemma_pow2_pos, lemma_pow2_strictly_increases, pow2,
};
use vstd::prelude::*;

verus! {

/// A thousand and twenty-four degrees are far from overflowing.
proof fn lemma_degrees_are_small()
    ensures
        1024 * pow2(1074) < pow2(2044),
        pow2(2044) <= 0x3f_ffff_ffff_ffff * pow2(2044),
{
    lemma2_to64();
    lemma_pow2_adds(10, 1074);
    lemma_pow2_strictly_increases(1084, 2044);
    lemma_pow2_pos(2044);
}

/// Normalizing takes whole turns off the angle towards zero, adds a turn, rounds, and takes a turn
/// off again if there is one. Here `q` whole turns leave `r`, and `s` is `r` and a turn, rounded.
pub proof fn law_normalized_on_values(x: Binary64, q: int, r: int, s: Binary64)
    requires
        x.finite(),
        x.value() == q * (360 * pow2(1074)) + r,
        -(360 * pow2(1074)) < r < 360 * pow2(1074),
        x.value() > 0 ==> r >= 0,
        x.value() < 0 ==> r <= 0,
        x.value() == 0 ==> r == 0,
        number_laws::rounds_to(r + 360 * pow2(1074), s),
    ensures
        angles::normalized(x).finite(),
        angles::normalized(x).bits < 0x8000_0000_0000_0000,
        0 <= angles::normalized(x).value() < 360 * pow2(1074),
        angles::normalized(x).value() == s.value() % (360 * pow2(1074)) as int,
{
    angles::lemma_turns();
    lemma_degrees_are_small();
    let turn = angles::full_turn();
    let t = 360 * pow2(1074) as int;
    angles::law_normalized(x);
    let first = x.remainder(turn);
    arithmetic_laws::law_remainder_exact(x, turn);
    assert(first.value() == r) by {
        let p = number_laws::law_remainder_by_quotient(x, turn);
        lemma_same_remainder(x.value(), t, p, first.value(), q, r);
    }
    let y = first.sum(turn);
    number_laws::law_sum_rounds(first, turn, s);
    number_laws::law_sum_is_nearest(first, turn, s);
    arithmetic_laws::law_remainder_exact(y, turn);
}

/// Remainders of the same sign, each smaller than the divisor, are the same.
proof fn lemma_same_remainder(x: int, t: int, p: int, a: int, q: int, b: int)
    requires
        t > 0,
        x == p * t + a,
        x == q * t + b,
        -t < a < t,
        -t < b < t,
        (a >= 0 && b >= 0) || (a <= 0 && b <= 0),
    ensures
        a == b,
{
    assert((p - q) * t == b - a) by (nonlinear_arith)
        requires
            p * t + a == q * t + b,
    ;
    assert(p == q) by (nonlinear_arith)
        requires
            (p - q) * t == b - a,
            -t < b - a < t,
            t > 0,
    ;
}

/// The angle between finite angles, whether directions or not: their difference `d`, moved on by one
/// and a half turns to `t`, less whole turns towards zero and half a turn, `v`, without its sign;
/// each of the three is rounded.
pub proof fn law_angle_between_on_values(
    a: Binary64,
    b: Binary64,
    d: Binary64,
    t: Binary64,
    v: Binary64,
)
    requires
        a.finite(),
        b.finite(),
        -(0x3f_ffff_ffff_ffff * pow2(2044)) < a.value() - b.value() < 0x3f_ffff_ffff_ffff * pow2(
            2044,
        ),
        number_laws::rounds_to(a.value() - b.value(), d),
        number_laws::rounds_to(d.value() + 540 * pow2(1074), t),
        number_laws::rounds_to(
            (if t.value() < 0 {
                -(-t.value() % (360 * pow2(1074)) as int)
            } else {
                t.value() % (360 * pow2(1074)) as int
            }) - 180 * pow2(1074),
            v,
        ),
    ensures
        angles::angle_between(a, b).finite(),
        angles::angle_between(a, b).bits < 0x8000_0000_0000_0000,
        angles::angle_between(a, b).value() == if v.value() < 0 {
            -v.value()
        } else {
            v.value()
        },
{
    angles::lemma_turns();
    lemma_degrees_are_small();
    let (half, turn, more) = (
        angles::half_turn(),
        angles::full_turn(),
        angles::one_and_a_half_turns(),
    );
    arithmetic_laws::law_opposite_value(b);
    arithmetic_laws::law_opposite_value(half);
    let x = a.difference(b);
    number_laws::law_sum_rounds(a, b.opposite(), d);
    number_laws::law_finite_values_are_bounded(x);
    let y = x.sum(more);
    number_laws::law_sum_rounds(x, more, t);
    let w = y.remainder(turn);
    arithmetic_laws::law_remainder_exact(y, turn);
    let left = if t.value() < 0 {
        -(-t.value() % (360 * pow2(1074)) as int)
    } else {
        t.value() % (360 * pow2(1074)) as int
    };
    assert(w.value() == left) by {
        assert(0int % (360 * pow2(1074)) as int == 0);
    }
    number_laws::law_sum_rounds(w, half.opposite(), v);
}

/// Angles whose difference overflows have no angle in between.
pub proof fn law_angle_between_overflows(a: Binary64, b: Binary64)
    requires
        a.finite(),
        b.finite(),
        a.value() - b.value() <= -(0x3f_ffff_ffff_ffff * pow2(2044)) || a.value() - b.value()
            >= 0x3f_ffff_ffff_ffff * pow2(2044),
    ensures
        angles::angle_between(a, b).nan(),
{
    angles::lemma_turns();
    number_laws::law_difference_is_nearest(a, b, a);
}

/// The angle between two directions is at most half a turn, and within two to the power -43 degrees
/// of the distance between them on the circle.
pub proof fn law_angle_between_is_the_smaller_one(a: Binary64, b: Binary64)
    requires
        a.finite(),
        b.finite(),
        0 <= a.value() < 360 * pow2(1074),
        0 <= b.value() < 360 * pow2(1074),
    ensures
        ({
            let apart = if a.value() < b.value() {
                b.value() - a.value()
            } else {
                a.value() - b.value()
            };
            let shorter = if apart <= 180 * pow2(1074) {
                apart
            } else {
                360 * pow2(1074) - apart
            };
            let angle = angles::angle_between(a, b).value();
            &&& 0 <= angle <= 180 * pow2(1074)
            &&& shorter - pow2(1031) <= angle <= shorter + pow2(1031)
        }),
{
    angles::lemma_turns();
    angles::law_angle_between(a, b);
}

/// With an angle that is not finite there is no angle in between, nor can it be normalized.
pub proof fn law_angles_undefined(a: Binary64, b: Binary64)
    ensures
        !a.finite() || !b.finite() ==> angles::angle_between(a, b).nan(),
        !a.finite() ==> angles::normalized(a).nan(),
{
}

} // verus!
