//! From a number to an integer: what is left of it without its fraction.
//!
//! A finite number is its significand times a power of two.  Its whole part
//! is read off the bits, so nothing is rounded and nothing is asked of a
//! unit of arithmetic.

use crate::scalar::{Real, INFINITY_BITS, SIGN_BIT};
use vstd::arithmetic::div_mod::{lemma_basic_div, lemma_div_denominator};
use vstd::arithmetic::power2::{
    lemma2_to64, lemma_pow2_pos, lemma_pow2_strictly_increases, lemma_pow2_unfold, pow2,
};
use vstd::prelude::*;

verus! {

/// The value of the lowest exponent bit: two to the 23rd.
pub const HIDDEN_BIT: u32 = 0x0080_0000;

/// The exponent of the numbers from two to the 23rd to below two to the
/// 24th, whose significand is their value.
pub const WHOLE_EXPONENT: u32 = 150;

impl Real {
    /// The exponent as the bits hold it.
    pub open spec fn exponent(self) -> int {
        self.magnitude() / (HIDDEN_BIT as int)
    }

    /// The fraction as the bits hold it.
    pub open spec fn fraction(self) -> int {
        self.magnitude() % (HIDDEN_BIT as int)
    }

    /// The significand: the fraction with the bit before it that the bits
    /// do not hold; with the exponent zero, the fraction alone.
    pub open spec fn significand(self) -> int {
        if self.exponent() == 0 {
            self.fraction()
        } else {
            self.fraction() + HIDDEN_BIT
        }
    }

    /// The whole part of the magnitude: the magnitude without its
    /// fraction.
    pub open spec fn whole(self) -> int {
        if self.exponent() >= WHOLE_EXPONENT {
            self.significand() * pow2((self.exponent() - WHOLE_EXPONENT) as nat)
        } else {
            self.significand() / (pow2((WHOLE_EXPONENT - self.exponent()) as nat) as int)
        }
    }

    /// The number without its fraction, as an integer: the nearest end of
    /// `i32` where it does not fit, and 0 for what is not a number.
    pub open spec fn cut(self) -> int {
        if self.is_nan() {
            0
        } else if self.is_negative() {
            if self.whole() >= 0x8000_0000 {
                i32::MIN as int
            } else {
                -self.whole()
            }
        } else {
            if self.whole() > i32::MAX {
                i32::MAX as int
            } else {
                self.whole()
            }
        }
    }

    /// The number without its fraction, as an integer: the nearest end of
    /// `i32` where it does not fit, and 0 for what is not a number.
    pub fn truncate(self) -> (n: i32)
        ensures
            n == self.cut(),
    {
        let negative = self.bits >= SIGN_BIT;
        let magnitude = if negative {
            self.bits - SIGN_BIT
        } else {
            self.bits
        };
        if magnitude > INFINITY_BITS {
            return 0;
        }
        let exponent = magnitude / HIDDEN_BIT;
        let fraction = magnitude % HIDDEN_BIT;
        if exponent < 127 {
            proof {
                lemma_below_one_is_nothing(self);
            }
            return 0;
        }
        let significand: u64 = (fraction + HIDDEN_BIT) as u64;
        if exponent >= 158 {
            proof {
                lemma_beyond_the_ends(self);
            }
            return if negative {
                i32::MIN
            } else {
                i32::MAX
            };
        }
        let mut whole: u64 = significand;
        let mut k: u32 = 0;
        if exponent >= WHOLE_EXPONENT {
            let steps = exponent - WHOLE_EXPONENT;
            proof {
                lemma2_to64();
            }
            while k < steps
                invariant
                    k <= steps,
                    steps < 8,
                    significand < 0x100_0000,
                    whole == significand * pow2(k as nat),
                    whole < 0x100_0000 * pow2(k as nat),
                decreases steps - k,
            {
                proof {
                    lemma_pow2_unfold((k + 1) as nat);
                    lemma_pow2_strictly_increases(k as nat, 8);
                    lemma2_to64();
                    assert(whole * 2 == significand * pow2((k + 1) as nat)) by (nonlinear_arith)
                        requires
                            whole == significand * pow2(k as nat),
                            pow2((k + 1) as nat) == 2 * pow2(k as nat),
                    ;
                }
                whole = whole * 2;
                k += 1;
            }
            proof {
                lemma_pow2_strictly_increases(k as nat, 8);
                lemma2_to64();
            }
        } else {
            let steps = WHOLE_EXPONENT - exponent;
            proof {
                lemma2_to64();
            }
            while k < steps
                invariant
                    k <= steps,
                    steps <= 23,
                    whole == significand as int / (pow2(k as nat) as int),
                    whole <= significand,
                decreases steps - k,
            {
                proof {
                    lemma_pow2_unfold((k + 1) as nat);
                    lemma_pow2_pos(k as nat);
                    lemma_div_denominator(significand as int, pow2(k as nat) as int, 2);
                    assert(pow2(k as nat) * 2 == pow2((k + 1) as nat));
                }
                whole = whole / 2;
                k += 1;
            }
        }
        assert(whole == self.whole());
        assert(whole < 0x8000_0000);
        if negative {
            -(whole as i64) as i32
        } else {
            whole as i32
        }
    }
}

/// A number below one has no whole part.
proof fn lemma_below_one_is_nothing(r: Real)
    requires
        r.exponent() < 127,
    ensures
        r.whole() == 0,
{
    let down = (WHOLE_EXPONENT - r.exponent()) as nat;
    lemma2_to64();
    if down > 24 {
        lemma_pow2_strictly_increases(24, down);
    }
    assert(r.significand() < pow2(down));
    lemma_basic_div(r.significand(), pow2(down) as int);
}

/// A number of two to the 31st or more does not fit.
proof fn lemma_beyond_the_ends(r: Real)
    requires
        r.exponent() >= 158,
    ensures
        r.whole() >= 0x8000_0000,
{
    let up = (r.exponent() - WHOLE_EXPONENT) as nat;
    lemma2_to64();
    if up > 8 {
        lemma_pow2_strictly_increases(8, up);
    }
    assert(r.significand() >= 0x80_0000);
    assert(r.significand() * pow2(up) >= 0x80_0000 * 0x100) by (nonlinear_arith)
        requires
            r.significand() >= 0x80_0000,
            pow2(up) >= 0x100,
    ;
}

} // verus!
