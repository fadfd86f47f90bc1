//! Real numbers as callers hand them over: IEEE 754 binary64 values, held by
//! their 64-bit pattern so that every question asked of them is a question
//! about integers.
//!
//! A pattern is one sign bit, eleven bits of biased exponent and fifty-two
//! bits of fraction. A finite pattern stands for
//! `(-1)^sign * significand * 2^exponent`, where both `significand` and
//! `exponent` are the integers defined below.

use vstd::arithmetic::div_mod::lemma_basic_div;
use vstd::arithmetic::div_mod::lemma_div_non_zero;
use vstd::arithmetic::mul::lemma_mul_inequality;
use vstd::arithmetic::power2::lemma2_to64;
use vstd::arithmetic::power2::lemma2_to64_rest;
use vstd::arithmetic::power2::lemma_pow2_pos;
use vstd::arithmetic::power2::lemma_pow2_strictly_increases;
use vstd::arithmetic::power2::pow2;
use vstd::bits::lemma_u64_shl_is_mul;
use vstd::bits::lemma_u64_shr_is_div;
use vstd::prelude::*;

verus! {

/// The sign bit, alone.
pub const SIGN_BIT: u64 = 0x8000_0000_0000_0000;

/// The pattern of positive infinity: every exponent bit set, no fraction bit.
pub const INFINITY_BITS: u64 = 0x7ff0_0000_0000_0000;

/// The pattern of the number one.
pub const ONE_BITS: u64 = 0x3ff0_0000_0000_0000;

/// Two to the fifty-second: the lowest exponent bit, and the leading bit
/// that a normal number's significand has on top of its fraction.
pub const HIDDEN_BIT: u64 = 0x0010_0000_0000_0000;

/// A binary64 number, given by its bit pattern.
#[derive(Clone, Copy, Debug)]
pub struct Number {
    pub bits: u64,
}

impl Number {
    /// The sign bit is set. True of negative numbers, of negative zero and
    /// of half of the NaN patterns.
    pub open spec fn sign(self) -> bool {
        self.bits >= SIGN_BIT
    }

    /// The pattern without its sign bit.
    pub open spec fn magnitude_bits(self) -> nat {
        if self.bits >= SIGN_BIT {
            (self.bits - SIGN_BIT) as nat
        } else {
            self.bits as nat
        }
    }

    /// The eleven exponent bits, read as a number.
    pub open spec fn biased_exponent(self) -> nat {
        self.magnitude_bits() / (HIDDEN_BIT as nat)
    }

    /// The fifty-two fraction bits, read as a number.
    pub open spec fn fraction(self) -> nat {
        self.magnitude_bits() % (HIDDEN_BIT as nat)
    }

    /// Not a number.
    pub open spec fn is_nan(self) -> bool {
        self.magnitude_bits() > INFINITY_BITS
    }

    /// Positive or negative infinity.
    pub open spec fn is_infinite(self) -> bool {
        self.magnitude_bits() == INFINITY_BITS
    }

    /// Zero, subnormal or normal.
    pub open spec fn is_finite(self) -> bool {
        self.magnitude_bits() < INFINITY_BITS
    }

    /// The integer `m` in the magnitude `m * 2^exponent` of a finite number.
    /// Subnormal numbers and zero lack the hidden bit.
    pub open spec fn significand(self) -> nat {
        if self.biased_exponent() == 0 {
            self.fraction()
        } else {
            HIDDEN_BIT as nat + self.fraction()
        }
    }

    /// The integer `e` in the magnitude `significand * 2^e` of a finite
    /// number.
    pub open spec fn exponent(self) -> int {
        if self.biased_exponent() == 0 {
            -1074
        } else {
            self.biased_exponent() - 1075
        }
    }

    /// The magnitude of a finite number, rounded down to an integer.
    pub open spec fn integer_part(self) -> nat {
        if self.exponent() >= 0 {
            self.significand() * pow2(self.exponent() as nat)
        } else {
            self.significand() / pow2((-self.exponent()) as nat)
        }
    }

    /// The number is strictly greater than zero. Positive infinity is; no NaN
    /// and neither zero is.
    pub open spec fn spec_is_positive(self) -> bool {
        &&& !self.sign()
        &&& !self.is_nan()
        &&& self.significand() > 0
    }

    /// The number is strictly less than one. Every negative number, both
    /// zeros and negative infinity are; no NaN is.
    pub open spec fn spec_is_below_one(self) -> bool {
        &&& !self.is_nan()
        &&& (self.sign() || (self.is_finite() && self.integer_part() == 0))
    }

    /// The number as a count: rounded toward zero, and brought into the range
    /// of `usize`. A NaN counts as zero, as every number below zero does.
    pub open spec fn spec_truncate(self) -> usize {
        if self.is_nan() || self.sign() {
            0
        } else if self.is_infinite() || self.integer_part() > usize::MAX {
            usize::MAX
        } else {
            self.integer_part() as usize
        }
    }

    /// Whether the number is strictly greater than zero.
    #[verifier::when_used_as_spec(spec_is_positive)]
    pub fn is_positive(self) -> (r: bool)
        ensures
            r == self.spec_is_positive(),
    {
        self.bits != 0 && self.bits <= INFINITY_BITS
    }

    /// Whether the number is strictly less than one.
    #[verifier::when_used_as_spec(spec_is_below_one)]
    pub fn is_below_one(self) -> (r: bool)
        ensures
            r == self.spec_is_below_one(),
    {
        proof {
            if self.is_finite() {
                self.lemma_integer_part_is_zero();
            }
        }
        if self.bits >= SIGN_BIT {
            self.bits - SIGN_BIT <= INFINITY_BITS
        } else {
            self.bits < ONE_BITS
        }
    }

    /// The number rounded toward zero and brought into the range of `usize`.
    #[verifier::when_used_as_spec(spec_truncate)]
    pub fn truncate(self) -> (r: usize)
        ensures
            r == self.spec_truncate(),
    {
        if self.bits >= SIGN_BIT || self.bits > INFINITY_BITS {
            return 0;
        }
        if self.bits < ONE_BITS {
            proof {
                self.lemma_integer_part_is_zero();
            }
            return 0;
        }
        let biased: u64 = self.bits / HIDDEN_BIT;
        let significand: u64 = HIDDEN_BIT + self.bits % HIDDEN_BIT;
        if biased >= 1087 {
            proof {
                if self.is_finite() {
                    self.lemma_integer_part_is_huge();
                }
            }
            return usize::MAX;
        }
        let whole: u64 = if biased >= 1075 {
            let shift: u64 = biased - 1075;
            proof {
                lemma2_to64();
                if shift < 11 {
                    lemma_pow2_strictly_increases(shift as nat, 11);
                }
                let scale: nat = pow2(shift as nat);
                assert(significand * scale <= u64::MAX) by (nonlinear_arith)
                    requires
                        significand < 0x0020_0000_0000_0000,
                        scale <= 0x800,
                ;
                lemma_u64_shl_is_mul(significand, shift);
            }
            significand << shift
        } else {
            let shift: u64 = 1075 - biased;
            proof {
                lemma_u64_shr_is_div(significand, shift);
            }
            significand >> shift
        };
        if whole > usize::MAX as u64 {
            usize::MAX
        } else {
            whole as usize
        }
    }

    /// A finite number has no integer part exactly when its pattern, sign
    /// aside, lies below the pattern of one.
    pub proof fn lemma_integer_part_is_zero(self)
        requires
            self.is_finite(),
        ensures
            self.integer_part() == 0 <==> self.magnitude_bits() < ONE_BITS,
    {
        lemma2_to64();
        lemma2_to64_rest();
        let m: nat = self.significand();
        let e: int = self.exponent();
        if self.magnitude_bits() < ONE_BITS {
            let n: nat = (-e) as nat;
            if n > 53 {
                lemma_pow2_strictly_increases(53, n);
            }
            lemma_basic_div(m as int, pow2(n) as int);
        } else if e >= 0 {
            lemma_pow2_pos(e as nat);
            lemma_mul_inequality(1, pow2(e as nat) as int, m as int);
        } else {
            let n: nat = (-e) as nat;
            if n < 52 {
                lemma_pow2_strictly_increases(n, 52);
            }
            lemma_pow2_pos(n);
            lemma_div_non_zero(m as int, pow2(n) as int);
        }
    }

    /// A finite number whose biased exponent is 1087 or more is at least two
    /// to the sixty-fourth, and so beyond every `usize`.
    pub proof fn lemma_integer_part_is_huge(self)
        requires
            self.is_finite(),
            self.biased_exponent() >= 1087,
        ensures
            self.integer_part() > usize::MAX,
    {
        lemma2_to64();
        lemma2_to64_rest();
        let n: nat = self.exponent() as nat;
        if n > 12 {
            lemma_pow2_strictly_increases(12, n);
        }
        lemma_mul_inequality(0x1000, pow2(n) as int, self.significand() as int);
        lemma_mul_inequality(
            HIDDEN_BIT as int,
            self.significand() as int,
            0x1000,
        );
    }
}

} // verus!
