//! Angles in degrees.
use crate::arithmetic_laws;
use crate::binary64::{Binary64, ONE_SCALE};
use crate::rounding;
use vstd::arithmetic::div_mod::{
    lemma_fundamental_div_mod, lemma_mod_multiples_vanish, lemma_small_mod, lemma_truncate_middle,
};
use vstd::arithmetic::power2::{
    lemma2_to64_rest, lemma_pow2_adds, lemma_pow2_pos, lemma_pow2_unfold, pow2,
};
use vstd::prelude::*;

verus! {

/// The bit pattern of half a turn, 180 degrees.
pub const HALF_TURN_BITS: u64 = 0x4066_8000_0000_0000;

/// The bit pattern of a full turn, 360 degrees.
pub const FULL_TURN_BITS: u64 = 0x4076_8000_0000_0000;

/// The bit pattern of one and a half turns, 540 degrees.
pub const ONE_AND_A_HALF_TURNS_BITS: u64 = 0x4080_e000_0000_0000;

/// Half a turn.
pub open spec fn half_turn() -> Binary64 {
    Binary64 { bits: HALF_TURN_BITS }
}

/// A full turn.
pub open spec fn full_turn() -> Binary64 {
    Binary64 { bits: FULL_TURN_BITS }
}

/// One and a half turns.
pub open spec fn one_and_a_half_turns() -> Binary64 {
    Binary64 { bits: ONE_AND_A_HALF_TURNS_BITS }
}

/// An angle brought into the range from zero up to a full turn.
pub open spec fn normalized(x: Binary64) -> Binary64 {
    x.remainder(full_turn()).sum(full_turn()).remainder(full_turn())
}

/// The size of the smaller of the two angles between the directions `a` and `b`.
pub open spec fn angle_between(a: Binary64, b: Binary64) -> Binary64 {
    a.difference(b).sum(one_and_a_half_turns()).remainder(full_turn()).difference(
        half_turn(),
    ).absolute()
}

/// Whether an angle is at least zero and less than a full turn.
pub open spec fn is_direction(x: Binary64) -> bool {
    x.finite() && 0 <= x.value() < full_turn().value()
}

/// The distance on the circle between two directions, given and measured as exact values.
pub open spec fn circular_distance(a: int, b: int, turn: int) -> int {
    let d = if a < b {
        b - a
    } else {
        a - b
    };
    if 2 * d <= turn {
        d
    } else {
        turn - d
    }
}

/// The constants are the angles that they are named after.
pub proof fn lemma_turns()
    ensures
        half_turn().finite(),
        full_turn().finite(),
        one_and_a_half_turns().finite(),
        half_turn().value() == 180 * arithmetic_laws::one(),
        full_turn().value() == 360 * arithmetic_laws::one(),
        one_and_a_half_turns().value() == 540 * arithmetic_laws::one(),
        arithmetic_laws::one() > 0,
{
    lemma2_to64_rest();
    lemma_pow2_adds(45, 1029);
    lemma_pow2_adds(44, 1030);
    lemma_pow2_adds(43, 1031);
    lemma_pow2_pos(ONE_SCALE as nat);
    assert(rounding::units(HALF_TURN_BITS as nat) == 180 * pow2(45) * pow2(1029));
    assert(rounding::units(FULL_TURN_BITS as nat) == 360 * pow2(44) * pow2(1030));
    assert(rounding::units(ONE_AND_A_HALF_TURNS_BITS as nat) == 540 * pow2(43) * pow2(1031));
    assert(180 * pow2(45) * pow2(1029) == 180 * (pow2(45) * pow2(1029))) by (nonlinear_arith);
    assert(360 * pow2(44) * pow2(1030) == 360 * (pow2(44) * pow2(1030))) by (nonlinear_arith);
    assert(540 * pow2(43) * pow2(1031) == 540 * (pow2(43) * pow2(1031))) by (nonlinear_arith);
}

/// Two landmarks above a full turn, 720 and 900 degrees, by their codes.
proof fn lemma_landmarks()
    ensures
        rounding::units(0x4086_8000_0000_0000) == 720 * arithmetic_laws::one(),
        rounding::units(0x408c_2000_0000_0000) == 900 * arithmetic_laws::one(),
{
    lemma2_to64_rest();
    lemma_pow2_adds(43, 1031);
    assert(rounding::units(0x4086_8000_0000_0000) == 720 * pow2(43) * pow2(1031));
    assert(rounding::units(0x408c_2000_0000_0000) == 900 * pow2(43) * pow2(1031));
    assert(720 * pow2(43) * pow2(1031) == 720 * (pow2(43) * pow2(1031))) by (nonlinear_arith);
    assert(900 * pow2(43) * pow2(1031) == 900 * (pow2(43) * pow2(1031))) by (nonlinear_arith);
}

/// The remainder of a division that rounds towards zero is congruent to the dividend.
proof fn lemma_congruent(x: int, r: int, m: int) -> (q: int)
    requires
        m > 0,
        arithmetic_laws::size(r) == arithmetic_laws::size(x) % (m as nat),
        x < 0 ==> r <= 0,
        x > 0 ==> r >= 0,
    ensures
        x == m * q + r,
{
    let n = arithmetic_laws::size(x) as int;
    lemma_fundamental_div_mod(n, m);
    let q = if x < 0 {
        -(n / m)
    } else {
        n / m
    };
    assert(m * -(n / m) == -(m * (n / m))) by (nonlinear_arith);
    q
}

/// Normalizing a finite angle gives a direction, and turns the angle by whole turns but for an
/// error of at most half the gap between neighbouring numbers at two turns.
pub proof fn law_normalized(x: Binary64)
    requires
        x.finite(),
    ensures
        is_direction(normalized(x)),
        !normalized(x).negative(),
        exists|e: int|
            #![trigger arithmetic_laws::size(e)]
            arithmetic_laws::size(e) <= pow2(1030) && normalized(x).value() == (x.value() + e)
                % full_turn().value(),
{
    lemma_turns();
    lemma_landmarks();
    let turn = full_turn().value();
    let r = x.remainder(full_turn());
    arithmetic_laws::law_remainder_exact(x, full_turn());
    arithmetic_laws::law_sum_error(r, full_turn(), 0x4086_8000_0000_0000);
    let s = r.sum(full_turn());
    arithmetic_laws::law_remainder_exact(s, full_turn());
    lemma_pow2_unfold(1031);
    let e = s.value() - (r.value() + turn);
    assert(arithmetic_laws::size(e) <= pow2(1030));
    let q = lemma_congruent(x.value(), r.value(), turn);
    assert(turn * (q - 1) + s.value() == x.value() + e) by (nonlinear_arith)
        requires
            x.value() == turn * q + r.value(),
            e == s.value() - (r.value() + turn),
    ;
    lemma_mod_multiples_vanish(q - 1, s.value(), turn);
}

/// Normalizing an infinity or a NaN gives a NaN.
pub proof fn law_normalized_undefined(x: Binary64)
    requires
        !x.finite(),
    ensures
        normalized(x).nan(),
{
}

/// Brings an angle into the range from zero up to a full turn.
pub fn normalize_deg(x: Binary64) -> (r: Binary64)
    ensures
        r == normalized(x),
        x.finite() ==> is_direction(r),
        !x.finite() ==> r.nan(),
{
    proof {
        if x.finite() {
            law_normalized(x);
        }
    }
    let turn = Binary64 { bits: FULL_TURN_BITS };
    x.rem(turn).add(turn).rem(turn)
}

/// Less than three turns are reduced by taking off at most two.
proof fn lemma_reduce(t: int, one: int)
    requires
        one > 0,
        0 <= t < 1080 * one,
    ensures
        t % (360 * one) == if t < 360 * one {
            t
        } else if t < 720 * one {
            t - 360 * one
        } else {
            t - 720 * one
        },
{
    let q: int = if t < 360 * one {
        0
    } else if t < 720 * one {
        1
    } else {
        2
    };
    let v = t - (360 * one) * q;
    lemma_mod_multiples_vanish(q, v, 360 * one);
    lemma_small_mod(v as nat, (360 * one) as nat);
}

/// How far the steps of the computation can take the result from the distance on the circle.
/// The values are those of the two directions, of their difference, of that difference moved on by
/// one and a half turns, of what is left of it without whole turns, and of that less half a turn;
/// `u` is the error of the last step.
proof fn lemma_circle(a: int, b: int, d: int, t: int, w: int, v: int, half: int, u: int)
    requires
        0 <= a < 2 * half,
        0 <= b < 2 * half,
        -4 * u <= 2 * (d - (a - b)) <= 4 * u,
        -8 * u <= 2 * (t - (d + 3 * half)) <= 8 * u,
        half <= t <= 5 * half,
        w == if t < 2 * half {
            t
        } else if t < 4 * half {
            t - 2 * half
        } else {
            t - 4 * half
        },
        -2 * u <= 2 * (v - (w - half)) <= 2 * u,
        u > 0,
    ensures
        -8 * u <= arithmetic_laws::size(v) - circular_distance(a, b, 2 * half) <= 8 * u,
{
}

/// The angle between two directions is at most half a turn, and differs from the exact distance
/// on the circle by at most the gap between neighbouring numbers at two turns.
#[verifier::rlimit(40)]
pub proof fn law_angle_between(a: Binary64, b: Binary64)
    requires
        is_direction(a),
        is_direction(b),
    ensures
        angle_between(a, b).finite(),
        !angle_between(a, b).negative(),
        0 <= angle_between(a, b).value() <= half_turn().value(),
        arithmetic_laws::size(
            angle_between(a, b).value() - circular_distance(
                a.value(),
                b.value(),
                full_turn().value(),
            ),
        ) <= pow2(1031),
{
    lemma_turns();
    lemma_landmarks();
    let one = arithmetic_laws::one() as int;
    lemma_pow2_unfold(1031);
    lemma_pow2_unfold(1030);
    lemma_pow2_unfold(1029);
    arithmetic_laws::law_opposite_value(b);
    arithmetic_laws::law_opposite_value(half_turn());
    arithmetic_laws::law_sum_error(a, b.opposite(), FULL_TURN_BITS as nat);
    let d = a.difference(b);
    arithmetic_laws::law_sum_error(d, one_and_a_half_turns(), 0x408c_2000_0000_0000);
    let t = d.sum(one_and_a_half_turns());
    arithmetic_laws::law_sum_at_least(d, one_and_a_half_turns(), HALF_TURN_BITS as nat);
    arithmetic_laws::law_remainder_exact(t, full_turn());
    let w = t.remainder(full_turn());
    lemma_reduce(t.value(), one);
    arithmetic_laws::law_sum_error(w, half_turn().opposite(), HALF_TURN_BITS as nat);
    let v = w.difference(half_turn());
    lemma_circle(
        a.value(),
        b.value(),
        d.value(),
        t.value(),
        w.value(),
        v.value(),
        180 * one,
        pow2(1028) as int,
    );
}

/// The size of the smaller of the two angles between two directions.
pub fn smallest_angle_diff_deg(a: Binary64, b: Binary64) -> (r: Binary64)
    ensures
        r == angle_between(a, b),
        is_direction(a) && is_direction(b) ==> r.finite() && 0 <= r.value()
            <= half_turn().value(),
{
    proof {
        if is_direction(a) && is_direction(b) {
            law_angle_between(a, b);
        }
    }
    let turn = Binary64 { bits: FULL_TURN_BITS };
    let d = a.sub(b).add(Binary64 { bits: ONE_AND_A_HALF_TURNS_BITS }).rem(turn).sub(
        Binary64 { bits: HALF_TURN_BITS },
    );
    d.abs()
}

/// A whole number of degrees is told by its sign and value.
proof fn lemma_whole_by_value(x: Binary64, n: nat)
    requires
        x.finite(),
        !x.negative(),
        n < 0x20_0000_0000_0000,
        x.value() == n * arithmetic_laws::one(),
    ensures
        x == Binary64::whole(n),
{
    arithmetic_laws::law_whole_numbers_exact(n);
    rounding::lemma_units_order(x.code(), Binary64::whole(n).code());
}

/// Adding whole numbers of degrees loses nothing to rounding.
proof fn lemma_whole_sum(x: Binary64, y: Binary64, m: int, n: int)
    requires
        x.finite(),
        y.finite(),
        x.value() == m * arithmetic_laws::one(),
        y.value() == n * arithmetic_laws::one(),
        -0x20_0000_0000_0000 < m + n < 0x20_0000_0000_0000,
    ensures
        x.sum(y).finite(),
        x.sum(y).value() == (m + n) * arithmetic_laws::one(),
        m + n > 0 ==> !x.sum(y).negative(),
{
    let one = arithmetic_laws::one() as int;
    let k = arithmetic_laws::size(m + n);
    lemma_pow2_pos(ONE_SCALE as nat);
    assert(m * one + n * one == (m + n) * one) by (nonlinear_arith);
    assert(arithmetic_laws::size((m + n) * one) == k * one) by (nonlinear_arith)
        requires
            one > 0,
            k == arithmetic_laws::size(m + n),
    ;
    assert(m + n > 0 ==> (m + n) * one > 0) by (nonlinear_arith)
        requires
            one > 0,
    ;
    arithmetic_laws::law_whole_numbers_exact(k);
    arithmetic_laws::law_sum_exact(x, y, Binary64::whole(k).code());
}

/// Reducing a whole number of degrees by whole turns loses nothing to rounding.
proof fn lemma_whole_remainder(x: Binary64, n: int)
    requires
        x.finite(),
        x.value() == n * arithmetic_laws::one(),
    ensures
        x.remainder(full_turn()).finite(),
        x.remainder(full_turn()).negative() == x.negative(),
        x.remainder(full_turn()).value() == arithmetic_laws::one() * if n < 0 {
            -((-n) % 360)
        } else {
            n % 360
        },
{
    let one = arithmetic_laws::one() as int;
    let k = arithmetic_laws::size(n) as int;
    lemma_turns();
    arithmetic_laws::law_remainder_exact(x, full_turn());
    lemma_truncate_middle(k, one, 360);
    assert(arithmetic_laws::size(n * one) == one * k) by (nonlinear_arith)
        requires
            one > 0,
            k == arithmetic_laws::size(n),
    ;
    assert(n < 0 ==> n * one < 0) by (nonlinear_arith)
        requires
            one > 0,
    ;
    assert(n > 0 ==> n * one > 0) by (nonlinear_arith)
        requires
            one > 0,
    ;
    assert(one * -(k % 360) == -(one * (k % 360))) by (nonlinear_arith);
}

/// Whole degrees, negative ones among them, are normalized exactly.
pub proof fn law_whole_degrees_normalized(x: Binary64, n: int)
    requires
        x.finite(),
        x.value() == n * arithmetic_laws::one(),
    ensures
        normalized(x).finite(),
        !normalized(x).negative(),
        normalized(x).value() == (n % 360) * arithmetic_laws::one(),
        normalized(x) == Binary64::whole((n % 360) as nat),
{
    let one = arithmetic_laws::one() as int;
    lemma_turns();
    lemma_whole_remainder(x, n);
    let r = x.remainder(full_turn());
    let k = if n < 0 {
        -((-n) % 360)
    } else {
        n % 360
    };
    assert(one * k == k * one) by (nonlinear_arith);
    lemma_whole_sum(r, full_turn(), k, 360);
    lemma_whole_remainder(r.sum(full_turn()), k + 360);
    assert((k + 360) % 360 == n % 360);
    assert(one * (n % 360) == (n % 360) * one) by (nonlinear_arith);
    lemma_whole_by_value(normalized(x), (n % 360) as nat);
}

/// The angle between whole degrees is the exact distance on the circle.
pub proof fn law_whole_degrees_between(a: nat, b: nat)
    requires
        a < 360,
        b < 360,
    ensures
        angle_between(Binary64::whole(a), Binary64::whole(b)) == Binary64::whole(
            circular_distance(a as int, b as int, 360) as nat,
        ),
{
    let one = arithmetic_laws::one() as int;
    lemma_turns();
    arithmetic_laws::law_whole_numbers_exact(a);
    arithmetic_laws::law_whole_numbers_exact(b);
    let (x, y) = (Binary64::whole(a), Binary64::whole(b));
    arithmetic_laws::law_opposite_value(y);
    arithmetic_laws::law_opposite_value(half_turn());
    assert(-(b * one) == (-b) * one) by (nonlinear_arith);
    lemma_whole_sum(x, y.opposite(), a as int, -b);
    let t = x.difference(y).sum(one_and_a_half_turns());
    lemma_whole_sum(x.difference(y), one_and_a_half_turns(), a - b, 540);
    let n = (a - b + 540) as nat;
    lemma_whole_remainder(t, n as int);
    assert(one * (n % 360) == (n % 360) * one) by (nonlinear_arith);
    let w = t.remainder(full_turn());
    lemma_whole_sum(w, half_turn().opposite(), (n % 360) as int, -180);
    let v = n % 360 - 180;
    let c = circular_distance(a as int, b as int, 360);
    assert(arithmetic_laws::size(v) == c);
    assert(arithmetic_laws::size(v * one) == c * one) by (nonlinear_arith)
        requires
            one > 0,
            c == arithmetic_laws::size(v),
    ;
    lemma_whole_by_value(angle_between(x, y), c as nat);
}

} // verus!
