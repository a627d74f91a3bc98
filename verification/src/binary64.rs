//! IEEE 754 binary64 numbers, held as bit patterns.
//!
//! Distances, speeds and angles reach this crate as 64-bit floating-point numbers. [`Binary64`]
//! carries such a number unchanged and offers the comparisons and the arithmetic that deviation
//! detection needs, each with the result that the standard prescribes.
use std::cmp::Ordering;

use crate::magnitude::{combine, remainder};
use crate::rounding;
use crate::rounding::{round_scaled, INFINITY_CODE};
use vstd::arithmetic::power2::pow2;
use vstd::prelude::*;

verus! {

/// The bit that marks a number as negative.
pub const SIGN_BIT: u64 = 0x8000_0000_0000_0000;

/// The power of two that turns ones into units of the smallest positive magnitude.
pub const ONE_SCALE: u32 = 1074;

/// The bit pattern that every undefined operation gives here.
pub const NAN_BITS: u64 = 0x7ff8_0000_0000_0000;

/// A 64-bit floating-point number, given by its bit pattern.
#[derive(Debug, Clone, Copy)]
pub struct Binary64 {
    /// The bit pattern: sign, exponent and significand from the top down.
    pub bits: u64,
}

impl Binary64 {
    /// Whether the sign bit is set.
    pub open spec fn negative(self) -> bool {
        self.bits >= SIGN_BIT
    }

    /// The bits below the sign.
    pub open spec fn code(self) -> nat {
        if self.negative() {
            (self.bits - SIGN_BIT) as nat
        } else {
            self.bits as nat
        }
    }

    /// Whether this is not a number.
    pub open spec fn nan(self) -> bool {
        self.code() > INFINITY_CODE
    }

    /// Whether this is one of the two infinities.
    pub open spec fn infinite(self) -> bool {
        self.code() == INFINITY_CODE
    }

    /// Whether this is a real number.
    pub open spec fn finite(self) -> bool {
        self.code() < INFINITY_CODE
    }

    /// The place of this number in the order of all numbers, infinities included.
    pub open spec fn rank(self) -> int {
        if self.negative() {
            -(self.code() as int)
        } else {
            self.code() as int
        }
    }

    /// The value of a finite number, in units of the smallest positive magnitude.
    pub open spec fn value(self) -> int {
        if self.negative() {
            -(rounding::units(self.code()) as int)
        } else {
            rounding::units(self.code()) as int
        }
    }

    /// Whether this number is greater than `other`; nothing is greater or less than a NaN.
    pub open spec fn exceeds(self, other: Binary64) -> bool {
        !self.nan() && !other.nan() && self.rank() > other.rank()
    }

    /// Whether this number is at least `other`.
    pub open spec fn reaches(self, other: Binary64) -> bool {
        !self.nan() && !other.nan() && self.rank() >= other.rank()
    }

    /// Whether this number equals `other`; the two zeros are equal.
    pub open spec fn equals(self, other: Binary64) -> bool {
        !self.nan() && !other.nan() && self.rank() == other.rank()
    }

    /// The number nearest to `n` units, ties to even, with the given sign.
    pub open spec fn nearest(negative: bool, n: nat) -> Binary64 {
        Binary64 {
            bits: (rounding::rounded(n) + if negative {
                SIGN_BIT as nat
            } else {
                0
            }) as u64,
        }
    }

    /// The number nearest to the whole number `n`.
    pub open spec fn whole(n: nat) -> Binary64 {
        Binary64::nearest(false, n * pow2(ONE_SCALE as nat))
    }

    /// The same number with the opposite sign.
    pub open spec fn opposite(self) -> Binary64 {
        Binary64 {
            bits: if self.negative() {
                (self.bits - SIGN_BIT) as u64
            } else {
                (self.bits + SIGN_BIT) as u64
            },
        }
    }

    /// The same number without its sign.
    pub open spec fn absolute(self) -> Binary64 {
        Binary64 { bits: self.code() as u64 }
    }

    /// The rounded sum. An exact zero is negative only if both operands are.
    pub open spec fn sum(self, other: Binary64) -> Binary64 {
        if self.nan() || other.nan() {
            Binary64 { bits: NAN_BITS }
        } else if self.infinite() {
            if other.infinite() && self.negative() != other.negative() {
                Binary64 { bits: NAN_BITS }
            } else {
                self
            }
        } else if other.infinite() {
            other
        } else {
            let s = self.value() + other.value();
            Binary64::nearest(
                s < 0 || (s == 0 && self.negative() && other.negative()),
                if s < 0 {
                    (-s) as nat
                } else {
                    s as nat
                },
            )
        }
    }

    /// The rounded difference.
    pub open spec fn difference(self, other: Binary64) -> Binary64 {
        self.sum(other.opposite())
    }

    /// The remainder of the division that rounds its quotient towards zero; it has the sign of
    /// the dividend.
    pub open spec fn remainder(self, other: Binary64) -> Binary64 {
        if self.nan() || other.nan() || self.infinite() || other.code() == 0 {
            Binary64 { bits: NAN_BITS }
        } else if other.infinite() {
            self
        } else {
            Binary64::nearest(
                self.negative(),
                rounding::units(self.code()) % rounding::units(other.code()),
            )
        }
    }

    /// The greater of two numbers, or the one that is a number.
    pub open spec fn maximum(self, other: Binary64) -> Binary64 {
        if self.nan() || other.exceeds(self) {
            other
        } else {
            self
        }
    }

    /// Whether the sign bit is set.
    fn is_negative(self) -> (r: bool)
        ensures
            r == self.negative(),
    {
        self.bits >= SIGN_BIT
    }

    /// The bits below the sign.
    fn magnitude_code(self) -> (r: u64)
        ensures
            r == self.code(),
            r < SIGN_BIT,
    {
        if self.bits >= SIGN_BIT {
            self.bits - SIGN_BIT
        } else {
            self.bits
        }
    }
}

impl PartialEq for Binary64 {
    fn eq(&self, other: &Binary64) -> (r: bool) {
        let (a, b) = (self.magnitude_code(), other.magnitude_code());
        a <= INFINITY_CODE && b <= INFINITY_CODE && ((a == 0 && b == 0) || self.bits == other.bits)
    }
}

impl vstd::std_specs::cmp::PartialEqSpecImpl for Binary64 {
    open spec fn obeys_eq_spec() -> bool {
        true
    }

    open spec fn eq_spec(&self, other: &Binary64) -> bool {
        self.equals(*other)
    }
}

impl PartialOrd for Binary64 {
    fn partial_cmp(&self, other: &Binary64) -> (r: Option<Ordering>) {
        let (a, b) = (self.magnitude_code(), other.magnitude_code());
        if a > INFINITY_CODE || b > INFINITY_CODE {
            None
        } else if (a == 0 && b == 0) || self.bits == other.bits {
            Some(Ordering::Equal)
        } else if self.is_negative() {
            if !other.is_negative() || b < a {
                Some(Ordering::Less)
            } else {
                Some(Ordering::Greater)
            }
        } else if other.is_negative() || b < a {
            Some(Ordering::Greater)
        } else {
            Some(Ordering::Less)
        }
    }
}

impl vstd::std_specs::cmp::PartialOrdSpecImpl for Binary64 {
    open spec fn obeys_partial_cmp_spec() -> bool {
        true
    }

    open spec fn partial_cmp_spec(&self, other: &Binary64) -> Option<Ordering> {
        if self.exceeds(*other) {
            Some(Ordering::Greater)
        } else if other.exceeds(*self) {
            Some(Ordering::Less)
        } else if self.equals(*other) {
            Some(Ordering::Equal)
        } else {
            None
        }
    }
}

impl Binary64 {
    /// Puts a code and a sign together.
    fn with_sign(negative: bool, code: u64) -> (r: Binary64)
        requires
            code < SIGN_BIT,
        ensures
            r.negative() == negative,
            r.code() == code,
            r.bits == code + if negative {
                SIGN_BIT as int
            } else {
                0
            },
    {
        Binary64 {
            bits: if negative {
                SIGN_BIT + code
            } else {
                code
            },
        }
    }

    /// Converts a whole number; no such number is too long to be held exactly.
    pub fn from_u16(n: u16) -> (r: Binary64)
        ensures
            r == Binary64::whole(n as nat),
            r.finite(),
            r.value() == n * pow2(ONE_SCALE as nat),
    {
        proof {
            rounding::lemma_representable(n as nat, ONE_SCALE as nat);
        }
        Binary64 { bits: round_scaled(n as u128, ONE_SCALE) }
    }

    /// Adds, rounding to nearest.
    pub fn add(self, other: Binary64) -> (r: Binary64)
        ensures
            r == self.sum(other),
    {
        let (a, b) = (self.magnitude_code(), other.magnitude_code());
        let (a_negative, b_negative) = (self.is_negative(), other.is_negative());
        if a > INFINITY_CODE || b > INFINITY_CODE {
            Binary64 { bits: NAN_BITS }
        } else if a == INFINITY_CODE {
            if b == INFINITY_CODE && a_negative != b_negative {
                Binary64 { bits: NAN_BITS }
            } else {
                self
            }
        } else if b == INFINITY_CODE {
            other
        } else {
            proof {
                rounding::lemma_units_order(a as nat, b as nat);
            }
            let subtract: bool = a_negative != b_negative;
            if a == b && subtract {
                proof {
                    rounding::lemma_exact(0);
                    assert(rounding::units(0) == 0 * pow2(0));
                }
                Binary64 { bits: 0 }
            } else {
                proof {
                    rounding::lemma_units_order(0, a as nat);
                    rounding::lemma_units_order(0, b as nat);
                    assert(rounding::units(0) == 0 * pow2(0));
                }
                if a >= b {
                    Binary64::with_sign(a_negative, combine(a, b, subtract))
                } else {
                    Binary64::with_sign(b_negative, combine(b, a, subtract))
                }
            }
        }
    }

    /// Subtracts, rounding to nearest.
    pub fn sub(self, other: Binary64) -> (r: Binary64)
        ensures
            r == self.difference(other),
    {
        self.add(Binary64::with_sign(!other.is_negative(), other.magnitude_code()))
    }

    /// The remainder of a division that rounds its quotient towards zero.
    pub fn rem(self, other: Binary64) -> (r: Binary64)
        ensures
            r == self.remainder(other),
    {
        let (a, b) = (self.magnitude_code(), other.magnitude_code());
        if a >= INFINITY_CODE || b > INFINITY_CODE || b == 0 {
            Binary64 { bits: NAN_BITS }
        } else if b == INFINITY_CODE {
            self
        } else {
            Binary64::with_sign(self.is_negative(), remainder(a, b))
        }
    }

    /// Drops the sign.
    pub fn abs(self) -> (r: Binary64)
        ensures
            r == self.absolute(),
    {
        Binary64 { bits: self.magnitude_code() }
    }

    /// The greater of two numbers; a NaN gives way to the other number.
    pub fn max(self, other: Binary64) -> (r: Binary64)
        ensures
            r == self.maximum(other),
    {
        if self.magnitude_code() > INFINITY_CODE || self < other {
            other
        } else {
            self
        }
    }
}

} // verus!
