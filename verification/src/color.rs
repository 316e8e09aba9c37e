//! A color as three numbers: red, green and blue.

use crate::render::batch::{byte_of, to_byte, BRIGHTEST_BITS};
use crate::scalar::{
    difference, is_difference, is_product, is_root, is_sum, product, root, sum,
    Arithmetic, Real, HALF_BITS, ONE_BITS, ZERO_BITS,
};
use vstd::prelude::*;

verus! {

/// A color.  Its numbers may lie outside `[0, 1]` until it is normalized.
#[derive(Clone, Copy)]
pub struct Color {
    channels: [Real; 3],
}

/// `byte` is what `unit` gave for `channel * 255`, brought into `[0, 255]`
/// and cut down to a byte.
pub open spec fn is_rgb_byte<A: Arithmetic>(unit: &A, channel: Real, byte: u8) -> bool {
    exists|full: Real| #[trigger]
        is_product(unit, channel, Real { bits: BRIGHTEST_BITS }, full) && byte == byte_of(
            full.clamped(Real { bits: ZERO_BITS }, Real { bits: BRIGHTEST_BITS }).cut(),
        )
}

/// `r` is what `unit` gave for `(a + b) * 0.5`, brought into `[0, 1]`.
pub open spec fn is_blend<A: Arithmetic>(unit: &A, a: Real, b: Real, r: Real) -> bool {
    exists|both: Real, half: Real|
        #![trigger is_sum(unit, a, b, both), is_product(unit, Real { bits: HALF_BITS }, both, half)]
        is_sum(unit, a, b, both) && is_product(unit, Real { bits: HALF_BITS }, both, half) && r
            == half.clamped(Real { bits: ZERO_BITS }, Real { bits: ONE_BITS })
}

/// `r` is what `unit` gave for `a * coef + b * (1 - coef)`, brought into
/// `[0, 1]`.
pub open spec fn is_mix<A: Arithmetic>(unit: &A, a: Real, b: Real, coef: Real, r: Real) -> bool {
    exists|rest: Real, one: Real, other: Real, both: Real|
        #![trigger is_difference(unit, Real { bits: ONE_BITS }, coef, rest), is_product(unit, coef, a, one), is_product(unit, rest, b, other), is_sum(unit, one, other, both)]
        is_difference(unit, Real { bits: ONE_BITS }, coef, rest) && is_product(unit, coef, a, one)
            && is_product(unit, rest, b, other) && is_sum(unit, one, other, both) && r
            == both.clamped(Real { bits: ZERO_BITS }, Real { bits: ONE_BITS })
}

impl Color {
    /// The first number.
    pub closed spec fn red(self) -> Real {
        self.channels[0]
    }

    /// The second number.
    pub closed spec fn green(self) -> Real {
        self.channels[1]
    }

    /// The third number.
    pub closed spec fn blue(self) -> Real {
        self.channels[2]
    }

    /// The color with the given numbers.
    pub open spec fn is(self, r: Real, g: Real, b: Real) -> bool {
        self.red() == r && self.green() == g && self.blue() == b
    }

    /// The color with the given red, green and blue.
    pub fn new(r: Real, g: Real, b: Real) -> (color: Self)
        ensures
            color.is(r, g, b),
    {
        Color { channels: [r, g, b] }
    }

    /// The color with every number brought into `[0, 1]`.
    pub fn normalize(&self) -> (color: Self)
        ensures
            color.is(
                self.red().clamped(Real { bits: ZERO_BITS }, Real { bits: ONE_BITS }),
                self.green().clamped(Real { bits: ZERO_BITS }, Real { bits: ONE_BITS }),
                self.blue().clamped(Real { bits: ZERO_BITS }, Real { bits: ONE_BITS }),
            ),
    {
        let zero = Real::zero();
        let one = Real::one();
        Color {
            channels: [
                self.channels[0].clamp(zero, one),
                self.channels[1].clamp(zero, one),
                self.channels[2].clamp(zero, one),
            ],
        }
    }

    /// The color as three bytes, 255 for a number of one or more.
    pub fn into_rgb<A: Arithmetic>(self, unit: &A) -> (rgb: [u8; 3])
        ensures
            is_rgb_byte(unit, self.red(), rgb[0]),
            is_rgb_byte(unit, self.green(), rgb[1]),
            is_rgb_byte(unit, self.blue(), rgb[2]),
    {
        [
            rgb_byte(unit, self.channels[0]),
            rgb_byte(unit, self.channels[1]),
            rgb_byte(unit, self.channels[2]),
        ]
    }

    /// The red of the color.
    pub fn r(&self) -> (r: Real)
        ensures
            r == self.red(),
    {
        self.channels[0]
    }

    /// The green of the color.
    pub fn g(&self) -> (g: Real)
        ensures
            g == self.green(),
    {
        self.channels[1]
    }

    /// The blue of the color.
    pub fn b(&self) -> (b: Real)
        ensures
            b == self.blue(),
    {
        self.channels[2]
    }

    /// The color half way between the two, brought into `[0, 1]`.
    pub fn blend<A: Arithmetic>(&self, unit: &A, rhs: Color) -> (color: Self)
        ensures
            is_blend(unit, self.red(), rhs.red(), color.red()),
            is_blend(unit, self.green(), rhs.green(), color.green()),
            is_blend(unit, self.blue(), rhs.blue(), color.blue()),
    {
        let both = self.add(unit, rhs);
        let half = both.mul(unit, Real::half());
        half.normalize()
    }

    /// `coef` parts of `self` and the rest of `rhs`, brought into `[0,
    /// 1]`.
    pub fn blend_with_coef<A: Arithmetic>(&self, unit: &A, rhs: Color, coef: Real) -> (color: Self)
        requires
            coef.at_most(Real { bits: ONE_BITS }),
        ensures
            is_mix(unit, self.red(), rhs.red(), coef, color.red()),
            is_mix(unit, self.green(), rhs.green(), coef, color.green()),
            is_mix(unit, self.blue(), rhs.blue(), coef, color.blue()),
    {
        let rest = difference(unit, Real::one(), coef);
        let one = self.mul(unit, coef);
        let other = rhs.mul(unit, rest);
        let both = one.add(unit, other);
        both.normalize()
    }

    /// The square root of every number.
    pub fn sqrt<A: Arithmetic>(&self, unit: &A) -> (color: Self)
        ensures
            is_root(unit, self.red(), color.red()),
            is_root(unit, self.green(), color.green()),
            is_root(unit, self.blue(), color.blue()),
    {
        Color {
            channels: [
                root(unit, self.channels[0]),
                root(unit, self.channels[1]),
                root(unit, self.channels[2]),
            ],
        }
    }

    /// Every number times `rhs`.
    pub fn mul<A: Arithmetic>(self, unit: &A, rhs: Real) -> (color: Self)
        ensures
            is_product(unit, rhs, self.red(), color.red()),
            is_product(unit, rhs, self.green(), color.green()),
            is_product(unit, rhs, self.blue(), color.blue()),
    {
        Color {
            channels: [
                product(unit, rhs, self.channels[0]),
                product(unit, rhs, self.channels[1]),
                product(unit, rhs, self.channels[2]),
            ],
        }
    }

    /// Every number times `rhs`, in place.
    pub fn mul_assign<A: Arithmetic>(&mut self, unit: &A, rhs: Real)
        ensures
            is_product(unit, old(self).red(), rhs, final(self).red()),
            is_product(unit, old(self).green(), rhs, final(self).green()),
            is_product(unit, old(self).blue(), rhs, final(self).blue()),
    {
        let r = product(unit, self.channels[0], rhs);
        let g = product(unit, self.channels[1], rhs);
        let b = product(unit, self.channels[2], rhs);
        self.channels = [r, g, b];
    }

    /// Number by number, the product of the two: `self` tinted by `rhs`.
    pub fn tint<A: Arithmetic>(self, unit: &A, rhs: Color) -> (color: Self)
        ensures
            is_product(unit, rhs.red(), self.red(), color.red()),
            is_product(unit, rhs.green(), self.green(), color.green()),
            is_product(unit, rhs.blue(), self.blue(), color.blue()),
    {
        Color {
            channels: [
                product(unit, rhs.channels[0], self.channels[0]),
                product(unit, rhs.channels[1], self.channels[1]),
                product(unit, rhs.channels[2], self.channels[2]),
            ],
        }
    }

    /// Number by number, the product of the two, in place.
    pub fn tint_assign<A: Arithmetic>(&mut self, unit: &A, rhs: Color)
        ensures
            is_product(unit, old(self).red(), rhs.red(), final(self).red()),
            is_product(unit, old(self).green(), rhs.green(), final(self).green()),
            is_product(unit, old(self).blue(), rhs.blue(), final(self).blue()),
    {
        let r = product(unit, self.channels[0], rhs.channels[0]);
        let g = product(unit, self.channels[1], rhs.channels[1]);
        let b = product(unit, self.channels[2], rhs.channels[2]);
        self.channels = [r, g, b];
    }

    /// Number by number, the sum of the two.
    pub fn add<A: Arithmetic>(self, unit: &A, rhs: Color) -> (color: Self)
        ensures
            is_sum(unit, self.red(), rhs.red(), color.red()),
            is_sum(unit, self.green(), rhs.green(), color.green()),
            is_sum(unit, self.blue(), rhs.blue(), color.blue()),
    {
        Color {
            channels: [
                sum(unit, self.channels[0], rhs.channels[0]),
                sum(unit, self.channels[1], rhs.channels[1]),
                sum(unit, self.channels[2], rhs.channels[2]),
            ],
        }
    }

    /// Number by number, the sum of the two, in place.
    pub fn add_assign<A: Arithmetic>(&mut self, unit: &A, rhs: Color)
        ensures
            is_sum(unit, old(self).red(), rhs.red(), final(self).red()),
            is_sum(unit, old(self).green(), rhs.green(), final(self).green()),
            is_sum(unit, old(self).blue(), rhs.blue(), final(self).blue()),
    {
        *self = self.add(unit, rhs);
    }
}

fn rgb_byte<A: Arithmetic>(unit: &A, channel: Real) -> (byte: u8)
    ensures
        is_rgb_byte(unit, channel, byte),
{
    let full = product(unit, channel, Real::from_bits(BRIGHTEST_BITS));
    let clamped = full.clamp(Real::zero(), Real::from_bits(BRIGHTEST_BITS));
    to_byte(clamped.truncate())
}

} // verus!
