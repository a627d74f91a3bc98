//! Sums, differences and remainders of finite magnitudes, rounded to the nearest magnitude.
use crate::rounding;
use crate::rounding::{round_scaled, split, IMPLICIT_BIT, INFINITY_CODE};
use vstd::arithmetic::div_mod::{
    lemma_mul_mod_noop_right, lemma_small_mod, lemma_truncate_middle,
};
use vstd::arithmetic::power2::{
    lemma2_to64, lemma2_to64_rest, lemma_pow2_adds, lemma_pow2_pos, lemma_pow2_strictly_increases,
    lemma_pow2_unfold, pow2,
};
use vstd::prelude::*;

verus! {

/// Exponents are ordered as the codes are.
pub proof fn lemma_exponent_order(j: nat, k: nat)
    requires
        j <= k,
    ensures
        rounding::exponent(j) <= rounding::exponent(k),
{
}

/// A magnitude expressed at the scale of a smaller exponent.
proof fn lemma_rescale(k: nat, e: nat)
    requires
        e <= rounding::exponent(k),
    ensures
        rounding::units(k) == rounding::significand(k) * pow2((rounding::exponent(k) - e) as nat)
            * pow2(e),
{
    let d = (rounding::exponent(k) - e) as nat;
    lemma_pow2_adds(d, e);
    assert(rounding::significand(k) * (pow2(d) * pow2(e)) == rounding::significand(k) * pow2(d)
        * pow2(e)) by (nonlinear_arith);
}

/// A magnitude far below another one does not move it.
proof fn lemma_absorbed(hi: nat, lo: nat)
    requires
        hi < INFINITY_CODE,
        rounding::exponent(hi) >= rounding::exponent(lo) + 55,
    ensures
        rounding::is_nearest(hi, rounding::units(hi) + rounding::units(lo)),
        rounding::is_nearest(hi, (rounding::units(hi) - rounding::units(lo)) as nat),
{
    let (eh, el) = (rounding::exponent(hi), rounding::exponent(lo));
    rounding::lemma_gap(hi);
    rounding::lemma_gap((hi - 1) as nat);
    let below = rounding::exponent((hi - 1) as nat);
    assert(below >= eh - 1);
    lemma2_to64_rest();
    lemma_pow2_adds(53, el);
    lemma_pow2_pos(el);
    assert(rounding::units(lo) < pow2(53 + el)) by {
        assert(rounding::significand(lo) * pow2(el) < pow2(53) * pow2(el)) by (nonlinear_arith)
            requires
                rounding::significand(lo) < pow2(53),
                pow2(el) > 0,
        ;
    }
    lemma_pow2_unfold(54 + el);
    if 54 + el < below {
        lemma_pow2_strictly_increases(54 + el, below);
    }
    if 54 + el < eh {
        lemma_pow2_strictly_increases(54 + el, eh);
    }
    assert(rounding::units(hi) >= rounding::units(lo)) by {
        rounding::lemma_units_order(lo, hi);
        if hi < lo {
            lemma_exponent_order(hi, lo);
        }
    }
}

/// The code nearest to the sum of two finite magnitudes, or to their difference.
pub(crate) fn combine(hi: u64, lo: u64, subtract: bool) -> (k: u64)
    requires
        lo <= hi < INFINITY_CODE,
    ensures
        k <= INFINITY_CODE,
        k == rounding::rounded(
            if subtract {
                (rounding::units(hi as nat) - rounding::units(lo as nat)) as nat
            } else {
                rounding::units(hi as nat) + rounding::units(lo as nat)
            },
        ),
        rounding::units(lo as nat) <= rounding::units(hi as nat),
{
    let (mh, eh) = split(hi);
    let (ml, el) = split(lo);
    proof {
        lemma_exponent_order(lo as nat, hi as nat);
        rounding::lemma_units_order(lo as nat, hi as nat);
    }
    let d: u32 = eh - el;
    if d >= 55 {
        proof {
            lemma_absorbed(hi as nat, lo as nat);
            if subtract {
                rounding::lemma_rounded(
                    hi as nat,
                    (rounding::units(hi as nat) - rounding::units(lo as nat)) as nat,
                );
            } else {
                rounding::lemma_rounded(
                    hi as nat,
                    rounding::units(hi as nat) + rounding::units(lo as nat),
                );
            }
        }
        hi
    } else {
        let p: u64 = 1u64 << d;
        let ghost g = pow2(el as nat);
        proof {
            lemma2_to64();
            lemma2_to64_rest();
            if d < 54 {
                lemma_pow2_strictly_increases(d as nat, 54);
            }
            vstd::bits::lemma_u64_shl_is_mul(1, d as u64);
            assert(p == pow2(d as nat));
            lemma_rescale(hi as nat, el as nat);
            lemma_pow2_pos(el as nat);
            assert(mh * p < 0x20_0000_0000_0000 * 0x40_0000_0000_0001) by (nonlinear_arith)
                requires
                    mh < 0x20_0000_0000_0000,
                    p <= 0x40_0000_0000_0000,
            ;
            assert(ml <= mh * p) by (nonlinear_arith)
                requires
                    ml * g <= mh * p * g,
                    g > 0,
            ;
            assert((mh * p - ml) * g == mh * p * g - ml * g) by (nonlinear_arith);
            assert((mh * p + ml) * g == mh * p * g + ml * g) by (nonlinear_arith);
        }
        let scaled: u128 = mh as u128 * p as u128;
        if subtract {
            round_scaled(scaled - ml as u128, el)
        } else {
            round_scaled(scaled + ml as u128, el)
        }
    }
}

/// Dividing two magnitudes leaves a remainder that fits a significand at the divisor's scale.
proof fn lemma_remainder_scaled(a: nat, b: nat)
    requires
        0 < b <= a,
    ensures
        ({
            let d = (rounding::exponent(a) - rounding::exponent(b)) as nat;
            let r = (rounding::significand(a) * pow2(d)) % rounding::significand(b);
            &&& r < rounding::significand(b)
            &&& rounding::units(a) % rounding::units(b) == r * pow2(rounding::exponent(b))
        }),
{
    let e = rounding::exponent(b);
    let g = pow2(e);
    let m = rounding::significand(b);
    lemma_exponent_order(b, a);
    lemma_rescale(a, e);
    lemma_pow2_pos(e);
    let d = (rounding::exponent(a) - e) as nat;
    let x = rounding::significand(a) * pow2(d);
    lemma_truncate_middle(x as int, g as int, m as int);
    assert(g * x == x * g && g * m == m * g && g * (x % m) == x % m * g) by (nonlinear_arith);
}

/// The remainder of two finite magnitudes is a magnitude: taking it loses nothing to rounding.
pub proof fn lemma_remainder_exact(a: nat, b: nat)
    requires
        a < INFINITY_CODE,
        0 < b < INFINITY_CODE,
    ensures
        ({
            let n = rounding::units(a) % rounding::units(b);
            let k = rounding::rounded(n);
            &&& rounding::units(k) == n
            &&& k < b
            &&& n < rounding::units(b)
        }),
{
    let n = rounding::units(a) % rounding::units(b);
    rounding::lemma_units_order(0, b);
    assert(rounding::units(0) == 0 * pow2(0));
    rounding::lemma_units_order(a, b);
    if a < b {
        lemma_small_mod(rounding::units(a), rounding::units(b));
        rounding::lemma_exact(a);
    } else {
        lemma_remainder_scaled(a, b);
        let d = (rounding::exponent(a) - rounding::exponent(b)) as nat;
        let r = (rounding::significand(a) * pow2(d)) % rounding::significand(b);
        rounding::lemma_representable(r, rounding::exponent(b));
    }
    rounding::lemma_units_order(rounding::rounded(n), b);
}

/// The code of the remainder of two finite magnitudes.
pub(crate) fn remainder(a: u64, b: u64) -> (k: u64)
    requires
        a < INFINITY_CODE,
        0 < b < INFINITY_CODE,
    ensures
        k < INFINITY_CODE,
        k == rounding::rounded(rounding::units(a as nat) % rounding::units(b as nat)),
{
    proof {
        lemma_remainder_exact(a as nat, b as nat);
    }
    if a < b {
        proof {
            rounding::lemma_units_order(a as nat, b as nat);
            lemma_small_mod(rounding::units(a as nat), rounding::units(b as nat));
            rounding::lemma_exact(a as nat);
        }
        return a;
    }
    let (ma, ea) = split(a);
    let (mb, eb) = split(b);
    proof {
        lemma_exponent_order(b as nat, a as nat);
        lemma2_to64();
    }
    let d: u32 = ea - eb;
    let mut r: u64 = ma % mb;
    let mut i: u32 = 0;
    while i < d
        invariant
            i <= d,
            0 < mb < 2 * IMPLICIT_BIT,
            r < mb,
            r as int == (ma as nat * pow2(i as nat)) % (mb as nat),
        decreases d - i,
    {
        proof {
            let x = ma as nat * pow2(i as nat);
            lemma_pow2_unfold((i + 1) as nat);
            assert(ma as nat * (2 * pow2(i as nat)) == 2 * x) by (nonlinear_arith)
                requires
                    x == ma as nat * pow2(i as nat),
            ;
            lemma_mul_mod_noop_right(2, x as int, mb as int);
        }
        r = (2 * r) % mb;
        i = i + 1;
    }
    proof {
        lemma_remainder_scaled(a as nat, b as nat);
    }
    round_scaled(r as u128, eb)
}

} // verus!
