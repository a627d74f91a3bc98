//! Magnitudes of binary64 numbers and rounding to the nearest of them.
//!
//! The low 63 bits of a binary64 number, its *code*, order the non-negative numbers: the code of
//! a larger number is larger. Every finite magnitude is a whole multiple of the smallest positive
//! one, so magnitudes are measured here in that unit and are natural numbers.
use vstd::arithmetic::div_mod::{
    lemma_div_denominator, lemma_fundamental_div_mod, lemma_fundamental_div_mod_converse,
};
use vstd::arithmetic::mul::lemma_mul_is_distributive_add_other_way;
use vstd::arithmetic::power2::{
    lemma2_to64, lemma2_to64_rest, lemma_pow2_adds, lemma_pow2_pos, lemma_pow2_strictly_increases,
    lemma_pow2_unfold, pow2,
};
use vstd::prelude::*;

verus! {

/// The weight of the bit that a normal number's significand has and its code leaves out.
pub const IMPLICIT_BIT: u64 = 0x10_0000_0000_0000;

/// The code of infinity, one past the code of the largest finite magnitude.
pub const INFINITY_CODE: u64 = 0x7ff0_0000_0000_0000;

/// The power of two by which the significand of the magnitude coded `k` is scaled.
pub open spec fn exponent(k: nat) -> nat {
    if k < IMPLICIT_BIT {
        0
    } else {
        (k / (IMPLICIT_BIT as nat) - 1) as nat
    }
}

/// The significand of the magnitude coded `k`.
pub open spec fn significand(k: nat) -> nat {
    if k < IMPLICIT_BIT {
        k
    } else {
        IMPLICIT_BIT as nat + k % (IMPLICIT_BIT as nat)
    }
}

/// The magnitude coded `k`, in units of the smallest positive magnitude.
///
/// At [`INFINITY_CODE`] this is the power of two that would follow the largest finite magnitude,
/// which is where rounding starts to overflow.
pub open spec fn units(k: nat) -> nat {
    significand(k) * pow2(exponent(k))
}

/// Whether `k` codes the magnitude nearest to `n`, with ties going to the even code.
pub open spec fn is_nearest(k: nat, n: nat) -> bool {
    &&& k <= INFINITY_CODE
    &&& k > 0 ==> {
        let below = units((k - 1) as nat) + units(k);
        2 * n > below || (2 * n == below && k % 2 == 0)
    }
    &&& k < INFINITY_CODE ==> {
        let above = units(k) + units(k + 1);
        2 * n < above || (2 * n == above && k % 2 == 0)
    }
}

/// The code of the magnitude nearest to `n`.
pub open spec fn rounded(n: nat) -> nat {
    choose|k: nat| is_nearest(k, n)
}

/// Neighbouring magnitudes differ by the scale of the smaller one.
pub proof fn lemma_gap(k: nat)
    ensures
        units(k + 1) == units(k) + pow2(exponent(k)),
        pow2(exponent(k)) > 0,
{
    let b = IMPLICIT_BIT as nat;
    let e = exponent(k);
    lemma_pow2_pos(e);
    lemma2_to64();
    if k + 1 < b {
        assert(units(k) == k * 1);
        assert(units(k + 1) == (k + 1) * 1);
    } else if k + 1 == b {
        assert(units(k) == k * 1);
        assert((k + 1) / b == 1 && (k + 1) % b == 0);
        assert(units(k + 1) == b * 1);
    } else if (k + 1) % b != 0 {
        assert((k + 1) / b == k / b && (k + 1) % b == k % b + 1) by {
            lemma_fundamental_div_mod(k as int, b as int);
            lemma_fundamental_div_mod_converse(
                (k + 1) as int,
                b as int,
                (k / b) as int,
                (k % b + 1) as int,
            );
        }
        lemma_mul_is_distributive_add_other_way(
            pow2(e) as int,
            significand(k) as int,
            1,
        );
    } else {
        assert((k + 1) / b == k / b + 1 && k % b == b - 1) by {
            lemma_fundamental_div_mod(k as int, b as int);
            if k % b + 1 < b {
                lemma_fundamental_div_mod_converse(
                    (k + 1) as int,
                    b as int,
                    (k / b) as int,
                    (k % b + 1) as int,
                );
            }
            lemma_fundamental_div_mod_converse(
                (k + 1) as int,
                b as int,
                (k / b + 1) as int,
                0,
            );
        }
        assert(k / b >= 1);
        assert(exponent(k + 1) == e + 1);
        lemma_pow2_unfold(e + 1);
        assert(b * (2 * pow2(e)) == (2 * b - 1) * pow2(e) + pow2(e)) by (nonlinear_arith);
    }
}

/// A larger code stands for a larger magnitude.
pub proof fn lemma_units_increase(j: nat, k: nat)
    requires
        j < k,
    ensures
        units(j) < units(k),
    decreases k,
{
    lemma_gap((k - 1) as nat);
    if j + 1 < k {
        lemma_units_increase(j, (k - 1) as nat);
    }
}

/// Codes are ordered as the magnitudes are.
pub proof fn lemma_units_order(j: nat, k: nat)
    ensures
        j < k <==> units(j) < units(k),
        j == k <==> units(j) == units(k),
{
    if j < k {
        lemma_units_increase(j, k);
    } else if k < j {
        lemma_units_increase(k, j);
    }
}

/// At most one code is the nearest one.
pub proof fn lemma_nearest_unique(j: nat, k: nat, n: nat)
    requires
        is_nearest(j, n),
        is_nearest(k, n),
    ensures
        j == k,
{
    if j < k {
        lemma_units_order(j, (k - 1) as nat);
        lemma_units_order(j + 1, k);
    } else if k < j {
        lemma_units_order(k, (j - 1) as nat);
        lemma_units_order(k + 1, j);
    }
}

/// A code that is known to be nearest is the one that rounding gives.
pub proof fn lemma_rounded(k: nat, n: nat)
    requires
        is_nearest(k, n),
    ensures
        rounded(n) == k,
{
    lemma_nearest_unique(rounded(n), k, n);
}

/// A magnitude that has a code is rounded to itself.
pub proof fn lemma_exact(k: nat)
    requires
        k <= INFINITY_CODE,
    ensures
        is_nearest(k, units(k)),
        rounded(units(k)) == k,
{
    lemma_gap(k);
    if k > 0 {
        lemma_gap((k - 1) as nat);
    }
    lemma_rounded(k, units(k));
}

/// Up to a magnitude that has a code, there is a nearest code.
proof fn lemma_nearest_exists(n: nat, c: nat) -> (k: nat)
    requires
        c <= INFINITY_CODE,
        n <= units(c),
    ensures
        is_nearest(k, n),
    decreases c,
{
    if n == units(c) || c == 0 {
        assert(units(0) == 0 * pow2(0));
        lemma_exact(c);
        c
    } else {
        let j = (c - 1) as nat;
        if n <= units(j) {
            lemma_nearest_exists(n, j)
        } else {
            let middle = units(j) + units(c);
            lemma_gap(j);
            if 2 * n < middle || (2 * n == middle && j % 2 == 0) {
                if j > 0 {
                    lemma_gap((j - 1) as nat);
                }
                assert(is_nearest(j, n));
                j
            } else {
                lemma_gap(c);
                assert(is_nearest(c, n));
                c
            }
        }
    }
}

/// Rounding always finds a nearest code.
pub proof fn law_rounded_is_nearest(n: nat)
    ensures
        is_nearest(rounded(n), n),
{
    let inf = INFINITY_CODE as nat;
    if n <= units(inf) {
        let k = lemma_nearest_exists(n, inf);
        lemma_rounded(k, n);
    } else {
        lemma_gap((inf - 1) as nat);
        lemma_rounded(inf, n);
    }
}

/// No magnitude is closer to `n` than the one that `n` is rounded to.
pub proof fn law_rounding_minimizes_error(n: nat, k: nat)
    requires
        k <= INFINITY_CODE,
    ensures
        ({
            let r = units(rounded(n));
            &&& r <= n ==> n - r <= n - units(k) || n - r <= units(k) - n
            &&& r > n ==> r - n <= n - units(k) || r - n <= units(k) - n
        }),
{
    law_rounded_is_nearest(n);
    let j = rounded(n);
    lemma_units_order(j, k);
    if k < j {
        lemma_units_order(k, (j - 1) as nat);
    } else if j < k {
        lemma_units_order(j + 1, k);
    }
}

/// Rounding does not cross a magnitude that has a code.
pub proof fn lemma_rounding_bounds(j: nat, n: nat, k: nat)
    requires
        is_nearest(j, n),
        k <= INFINITY_CODE,
    ensures
        n <= units(k) ==> j <= k,
        n >= units(k) ==> j >= k,
{
    lemma_exact(k);
    if n < units(k) && j > k {
        lemma_units_order(k, (j - 1) as nat);
        lemma_units_order(k, j);
    }
    if n > units(k) && j < k {
        lemma_units_order(j, k);
        lemma_units_order(j + 1, k);
    }
    if n == units(k) {
        lemma_nearest_unique(j, k, n);
    }
}

/// Splits a code into significand and exponent.
pub(crate) fn split(k: u64) -> (parts: (u64, u32))
    requires
        k < INFINITY_CODE,
    ensures
        parts.0 == significand(k as nat),
        parts.1 == exponent(k as nat),
        parts.0 < 2 * IMPLICIT_BIT,
        parts.1 <= 2045,
        parts.1 > 0 ==> parts.0 >= IMPLICIT_BIT,
{
    if k < IMPLICIT_BIT {
        (k, 0)
    } else {
        let field: u64 = k / IMPLICIT_BIT;
        assert(1 <= field <= 2046);
        (IMPLICIT_BIT + k % IMPLICIT_BIT, (field - 1) as u32)
    }
}

/// The code with the given significand and exponent.
proof fn lemma_join(m: nat, e: nat)
    requires
        IMPLICIT_BIT <= m < 2 * IMPLICIT_BIT,
    ensures
        units((e + 1) * IMPLICIT_BIT as nat + (m - IMPLICIT_BIT) as nat) == m * pow2(e),
        exponent((e + 1) * IMPLICIT_BIT as nat + (m - IMPLICIT_BIT) as nat) == e,
{
    let b = IMPLICIT_BIT as int;
    lemma_fundamental_div_mod_converse((e + 1) * b + (m - b), b, (e + 1) as int, m - b);
    assert((e + 1) * b >= b) by (nonlinear_arith)
        requires
            b > 0,
    ;
}

/// A number that fits a significand after scaling is a magnitude and rounds to itself.
pub proof fn lemma_representable(m: nat, e: nat)
    requires
        m < 2 * IMPLICIT_BIT,
        e <= 2045,
    ensures
        units(rounded(m * pow2(e))) == m * pow2(e),
        rounded(m * pow2(e)) < INFINITY_CODE,
    decreases e,
{
    let b = IMPLICIT_BIT as nat;
    if m >= b {
        let k = (e + 1) * b + (m - b) as nat;
        lemma_join(m, e);
        assert((e + 1) * b <= 2046 * b) by (nonlinear_arith)
            requires
                e <= 2045,
        ;
        lemma_exact(k);
    } else if e == 0 {
        lemma_exact(m);
    } else {
        lemma_pow2_unfold(e);
        let half = pow2((e - 1) as nat);
        assert(m * (2 * half) == (2 * m) * half) by (nonlinear_arith);
        lemma_representable(2 * m, (e - 1) as nat);
    }
}

/// Everything from the magnitude that [`INFINITY_CODE`] stands for upwards rounds to infinity.
proof fn lemma_overflow(m: nat, e: nat)
    requires
        m >= IMPLICIT_BIT,
        e >= 2046,
    ensures
        is_nearest(INFINITY_CODE as nat, m * pow2(e)),
{
    let inf = INFINITY_CODE as nat;
    lemma_join(IMPLICIT_BIT as nat, 2046);
    assert(pow2(e) >= pow2(2046)) by {
        if e > 2046 {
            lemma_pow2_strictly_increases(2046, e);
        }
    }
    assert(m * pow2(e) >= IMPLICIT_BIT * pow2(2046)) by (nonlinear_arith)
        requires
            m >= IMPLICIT_BIT,
            pow2(e) >= pow2(2046),
    ;
    lemma_gap((inf - 1) as nat);
}

/// The code of `m` scaled by two to the power `e`, or of infinity if that is too large.
fn join(m: u64, e: u32) -> (k: u64)
    requires
        m < 2 * IMPLICIT_BIT,
        e <= 2046,
        e > 0 ==> m >= IMPLICIT_BIT,
    ensures
        is_nearest(k as nat, m as nat * pow2(e as nat)),
{
    if m < IMPLICIT_BIT {
        proof {
            lemma_exact(m as nat);
        }
        m
    } else if e == 2046 {
        proof {
            lemma_overflow(m as nat, e as nat);
        }
        INFINITY_CODE
    } else {
        proof {
            lemma_join(m as nat, e as nat);
            lemma_exact((e + 1) as nat * IMPLICIT_BIT as nat + (m - IMPLICIT_BIT) as nat);
        }
        (e as u64 + 1) * IMPLICIT_BIT + (m - IMPLICIT_BIT)
    }
}

/// What is left of `m` scaled by two to the power `e` when its low `s` bits are split off.
proof fn lemma_round_split(m: nat, e: nat, s: nat)
    ensures
        m / pow2(s) * pow2(e + s) + m % pow2(s) * pow2(e) == m * pow2(e),
        pow2(e + s) == pow2(s) * pow2(e),
        m % pow2(s) * pow2(e) < pow2(e + s),
        pow2(e) > 0,
{
    let (p, g) = (pow2(s), pow2(e));
    let (q, r) = (m / p, m % p);
    lemma_pow2_pos(s);
    lemma_pow2_pos(e);
    lemma_pow2_adds(e, s);
    lemma_fundamental_div_mod(m as int, p as int);
    assert(q * (p * g) + r * g == (p * q + r) * g) by (nonlinear_arith);
    assert(p * g == g * p) by (nonlinear_arith);
    assert(r * g < p * g) by (nonlinear_arith)
        requires
            r < p,
            g > 0,
    ;
}

/// Rounds `m` scaled by two to the power `e`, where `m` has more bits than a significand holds.
fn round_wide(m: u128, e: u32) -> (k: u64)
    requires
        2 * IMPLICIT_BIT <= m < 0x1000_0000_0000_0000_0000_0000_0000,
        e <= 2046,
    ensures
        is_nearest(k as nat, m as nat * pow2(e as nat)),
{
    let bit: u128 = IMPLICIT_BIT as u128;
    let mut p: u128 = 1;
    let mut s: u32 = 0;
    proof {
        lemma2_to64();
    }
    while m / p >= 2 * bit
        invariant
            bit == IMPLICIT_BIT,
            m < 0x1000_0000_0000_0000_0000_0000_0000,
            0 < p <= 0x100_0000_0000_0000,
            p == pow2(s as nat),
            s <= 56,
            m / p >= bit,
        decreases m / p,
    {
        let ghost prev = p;
        proof {
            lemma_pow2_unfold((s + 1) as nat);
            lemma_div_denominator(m as int, p as int, 2);
            lemma_fundamental_div_mod(m as int, p as int);
            assert(p < 0x80_0000_0000_0001) by (nonlinear_arith)
                requires
                    p * (m / p) <= m,
                    m < 0x1000_0000_0000_0000_0000_0000_0000,
                    m / p >= 0x20_0000_0000_0000,
            ;
            lemma2_to64_rest();
        }
        p = 2 * p;
        s = s + 1;
    }
    let q: u128 = m / p;
    let r: u128 = m % p;
    let x: u32 = e + s;
    proof {
        lemma_round_split(m as nat, e as nat, s as nat);
    }
    if x >= 2046 {
        proof {
            let inf = INFINITY_CODE as nat;
            lemma_overflow(q as nat, x as nat);
            lemma_gap((inf - 1) as nat);
        }
        INFINITY_CODE
    } else {
        let k: u64 = (x as u64 + 1) * IMPLICIT_BIT + (q as u64 - IMPLICIT_BIT);
        proof {
            lemma_join(q as nat, x as nat);
            lemma_gap(k as nat);
            lemma_gap((k - 1) as nat);
            lemma_gap((k + 1) as nat);
            let g = pow2(e as nat);
            assert(2 * r > p ==> 2 * (r * g) > p * g) by (nonlinear_arith)
                requires
                    g > 0,
            ;
            assert(2 * r < p ==> 2 * (r * g) < p * g) by (nonlinear_arith)
                requires
                    g > 0,
            ;
            assert(2 * r == p ==> 2 * (r * g) == p * g) by (nonlinear_arith);
        }
        if 2 * r > p || (2 * r == p && k % 2 == 1) {
            k + 1
        } else {
            k
        }
    }
}

/// Rounds `m` scaled by two to the power `e` to the nearest magnitude, ties to even.
pub(crate) fn round_scaled(m: u128, e: u32) -> (k: u64)
    requires
        m < 0x1000_0000_0000_0000_0000_0000_0000,
        e <= 2046,
    ensures
        is_nearest(k as nat, m as nat * pow2(e as nat)),
        k == rounded(m as nat * pow2(e as nat)),
{
    let ghost n = m as nat * pow2(e as nat);
    let double_bit: u128 = 2 * IMPLICIT_BIT as u128;
    let k: u64 = if m == 0 {
        proof {
            lemma_exact(0);
        }
        0
    } else if m < double_bit {
        let mut s: u64 = m as u64;
        let mut x: u32 = e;
        while s < IMPLICIT_BIT && x > 0
            invariant
                s < 2 * IMPLICIT_BIT,
                x <= 2046,
                s as nat * pow2(x as nat) == n,
            decreases x,
        {
            proof {
                lemma_pow2_unfold(x as nat);
                let half = pow2((x - 1) as nat);
                assert(s as nat * (2 * half) == (2 * s) as nat * half) by (nonlinear_arith);
            }
            s = 2 * s;
            x = x - 1;
        }
        join(s, x)
    } else {
        round_wide(m, e)
    };
    proof {
        lemma_rounded(k as nat, n);
    }
    k
}

} // verus!
