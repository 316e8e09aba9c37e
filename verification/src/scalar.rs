//! Single-precision numbers by their bit patterns.
//!
//! The library computes with no floating point of its own.  It holds a
//! number by its bits, and
//!
//! * compares, selects and clamps on the bits, by the order of IEEE 754 as
//!   [`Real::key`] gives it, which is the order of the values that the
//!   bits stand for (see [`crate::exact`]);
//! * goes from a number to an integer and back on the bits too (see
//!   [`crate::whole`] and [`crate::nearest`]);
//! * asks an [`Arithmetic`] unit, which the caller supplies, for the
//!   arithmetic that rounds: sums, products, quotients, roots, powers.
//!
//! Nothing is taken for granted of the unit.  Where a contract depends on
//! what the unit returned, it says so with one of the `is_*` relations
//! below: `is_sum(unit, a, b, r)` holds of `r` only if `unit.add(a, b)` can
//! return `r`, and likewise for the others.  So a contract of this library
//! says which operations of the unit lead from the arguments to the result,
//! and in which order, whatever the unit makes of them.

use vstd::prelude::*;

verus! {

/// The bit that holds the sign.
pub const SIGN_BIT: u32 = 0x8000_0000;

/// The bits of positive infinity; every larger magnitude is not a number.
pub const INFINITY_BITS: u32 = 0x7f80_0000;

/// The bits of zero.
pub const ZERO_BITS: u32 = 0x0000_0000;

/// The bits of the single nearest to 0.3.
pub const THREE_TENTHS_BITS: u32 = 0x3e99_999a;

/// The bits of one half.
pub const HALF_BITS: u32 = 0x3f00_0000;

/// The bits of one.
pub const ONE_BITS: u32 = 0x3f80_0000;

/// The bits of two.
pub const TWO_BITS: u32 = 0x4000_0000;

/// The bits of the largest finite number.
pub const MAX_BITS: u32 = 0x7f7f_ffff;

/// A single-precision IEEE 754 number, held by its bit pattern: one sign
/// bit, eight exponent bits, twenty-three fraction bits.
#[derive(Clone, Copy, Debug)]
pub struct Real {
    pub bits: u32,
}

impl Real {
    /// The bits without the sign.
    pub open spec fn magnitude(self) -> int {
        if self.bits >= SIGN_BIT {
            self.bits - SIGN_BIT
        } else {
            self.bits as int
        }
    }

    /// Whether the sign bit is set.
    pub open spec fn is_negative(self) -> bool {
        self.bits >= SIGN_BIT
    }

    /// Whether the pattern is not a number.
    pub open spec fn is_nan(self) -> bool {
        self.magnitude() > INFINITY_BITS
    }

    /// Whether the pattern is a number other than an infinity.
    pub open spec fn is_finite(self) -> bool {
        self.magnitude() < INFINITY_BITS
    }

    /// Whether the pattern is one of the two zeros.
    pub open spec fn is_zero(self) -> bool {
        self.magnitude() == 0
    }

    /// An integer that orders the numbers as IEEE 754 does: the two zeros
    /// share the key 0, and a larger number has a larger key.  It says
    /// nothing of a pattern that is not a number.
    pub open spec fn key(self) -> int {
        if self.is_negative() {
            -self.magnitude()
        } else {
            self.magnitude()
        }
    }

    /// `self < other`: false as soon as either is not a number.
    pub open spec fn less(self, other: Real) -> bool {
        !self.is_nan() && !other.is_nan() && self.key() < other.key()
    }

    /// `self <= other`: false as soon as either is not a number.
    pub open spec fn at_most(self, other: Real) -> bool {
        !self.is_nan() && !other.is_nan() && self.key() <= other.key()
    }

    /// `self == other` as numbers: the two zeros are equal, and what is not
    /// a number equals nothing.
    pub open spec fn same(self, other: Real) -> bool {
        !self.is_nan() && !other.is_nan() && self.key() == other.key()
    }

    /// The larger of two numbers; where one is not a number, the other.
    pub open spec fn larger(self, other: Real) -> Real {
        if self.is_nan() {
            other
        } else if other.is_nan() {
            self
        } else if self.less(other) {
            other
        } else {
            self
        }
    }

    /// The smaller of two numbers; where one is not a number, the other.
    pub open spec fn smaller(self, other: Real) -> Real {
        if self.is_nan() {
            other
        } else if other.is_nan() {
            self
        } else if other.less(self) {
            other
        } else {
            self
        }
    }

    /// The zero with the sign of the number.
    pub open spec fn zero_of_its_sign(self) -> Real {
        Real {
            bits: if self.bits >= SIGN_BIT {
                SIGN_BIT
            } else {
                ZERO_BITS
            },
        }
    }

    /// The same magnitude with the other sign.
    pub open spec fn opposite(self) -> Real {
        Real {
            bits: if self.bits >= SIGN_BIT {
                (self.bits - SIGN_BIT) as u32
            } else {
                (self.bits + SIGN_BIT) as u32
            },
        }
    }

    /// `self` brought into `[low, high]`; what is not a number stays so.
    pub open spec fn clamped(self, low: Real, high: Real) -> Real {
        if self.less(low) {
            low
        } else if high.less(self) {
            high
        } else {
            self
        }
    }

    /// The number with the given bits.
    pub fn from_bits(bits: u32) -> (r: Real)
        ensures
            r == (Real { bits }),
    {
        Real { bits }
    }

    /// The bits of the number.
    pub fn to_bits(self) -> (bits: u32)
        ensures
            bits == self.bits,
    {
        self.bits
    }

    /// Zero, with the sign bit clear.
    pub fn zero() -> (r: Real)
        ensures
            r == (Real { bits: ZERO_BITS }),
    {
        Real { bits: ZERO_BITS }
    }

    /// One half.
    pub fn half() -> (r: Real)
        ensures
            r == (Real { bits: HALF_BITS }),
    {
        Real { bits: HALF_BITS }
    }

    /// One.
    pub fn one() -> (r: Real)
        ensures
            r == (Real { bits: ONE_BITS }),
    {
        Real { bits: ONE_BITS }
    }

    /// Two.
    pub fn two() -> (r: Real)
        ensures
            r == (Real { bits: TWO_BITS }),
    {
        Real { bits: TWO_BITS }
    }

    /// The largest finite number.
    pub fn max_value() -> (r: Real)
        ensures
            r == (Real { bits: MAX_BITS }),
    {
        Real { bits: MAX_BITS }
    }

    fn abs_bits(self) -> (m: u32)
        ensures
            m == self.magnitude(),
    {
        if self.bits >= SIGN_BIT {
            self.bits - SIGN_BIT
        } else {
            self.bits
        }
    }

    fn order_key(self) -> (k: i64)
        ensures
            k == self.key(),
    {
        let m: i64 = self.abs_bits() as i64;
        if self.bits >= SIGN_BIT {
            -m
        } else {
            m
        }
    }

    /// Whether the pattern is not a number.
    pub fn not_a_number(self) -> (r: bool)
        ensures
            r == self.is_nan(),
    {
        self.abs_bits() > INFINITY_BITS
    }

    /// `self < other`.
    pub fn lt(self, other: Real) -> (r: bool)
        ensures
            r == self.less(other),
    {
        !self.not_a_number() && !other.not_a_number() && self.order_key() < other.order_key()
    }

    /// `self > other`.
    pub fn gt(self, other: Real) -> (r: bool)
        ensures
            r == other.less(self),
    {
        other.lt(self)
    }

    /// `self <= other`.
    pub fn le(self, other: Real) -> (r: bool)
        ensures
            r == self.at_most(other),
    {
        !self.not_a_number() && !other.not_a_number() && self.order_key() <= other.order_key()
    }

    /// `self >= other`.
    pub fn ge(self, other: Real) -> (r: bool)
        ensures
            r == other.at_most(self),
    {
        other.le(self)
    }

    /// `self == other` as numbers.
    pub fn eq(self, other: Real) -> (r: bool)
        ensures
            r == self.same(other),
    {
        !self.not_a_number() && !other.not_a_number() && self.order_key() == other.order_key()
    }

    /// The larger of the two; where one is not a number, the other.
    pub fn max(self, other: Real) -> (r: Real)
        ensures
            r == self.larger(other),
    {
        if self.not_a_number() {
            other
        } else if other.not_a_number() {
            self
        } else if self.lt(other) {
            other
        } else {
            self
        }
    }

    /// The smaller of the two; where one is not a number, the other.
    pub fn min(self, other: Real) -> (r: Real)
        ensures
            r == self.smaller(other),
    {
        if self.not_a_number() {
            other
        } else if other.not_a_number() {
            self
        } else if other.lt(self) {
            other
        } else {
            self
        }
    }

    /// `self` brought into `[low, high]`; what is not a number stays so.
    pub fn clamp(self, low: Real, high: Real) -> (r: Real)
        ensures
            r == self.clamped(low, high),
    {
        if self.lt(low) {
            low
        } else if high.lt(self) {
            high
        } else {
            self
        }
    }

    /// The same number with the other sign.
    pub fn neg(self) -> (r: Real)
        ensures
            r == self.opposite(),
    {
        if self.bits >= SIGN_BIT {
            Real { bits: self.bits - SIGN_BIT }
        } else {
            Real { bits: self.bits + SIGN_BIT }
        }
    }
}

/// The operations that round.  The library takes each result as it comes
/// and promises of it only what holds of every implementation.
///
/// An implementation for the numbers of the machine turns the bits into a
/// single, applies the operation of the same name, and turns the result
/// back into bits.
pub trait Arithmetic {
    /// `a + b`.
    fn add(&self, a: Real, b: Real) -> Real;

    /// `a - b`.
    fn sub(&self, a: Real, b: Real) -> Real;

    /// `a * b`.
    fn mul(&self, a: Real, b: Real) -> Real;

    /// `a / b`.
    fn div(&self, a: Real, b: Real) -> Real;

    /// The square root of `a`.
    fn sqrt(&self, a: Real) -> Real;

    /// `a` raised to the power `b`.
    fn powf(&self, a: Real, b: Real) -> Real;
}

/// `r` is what `unit` gave for `a + b`.
pub open spec fn is_sum<A: Arithmetic>(unit: &A, a: Real, b: Real, r: Real) -> bool {
    call_ensures(A::add, (unit, a, b), r)
}

/// `r` is what `unit` gave for `a - b`.
pub open spec fn is_difference<A: Arithmetic>(unit: &A, a: Real, b: Real, r: Real) -> bool {
    call_ensures(A::sub, (unit, a, b), r)
}

/// `r` is what `unit` gave for `a * b`.
pub open spec fn is_product<A: Arithmetic>(unit: &A, a: Real, b: Real, r: Real) -> bool {
    call_ensures(A::mul, (unit, a, b), r)
}

/// `r` is what `unit` gave for `a / b`.
pub open spec fn is_quotient<A: Arithmetic>(unit: &A, a: Real, b: Real, r: Real) -> bool {
    call_ensures(A::div, (unit, a, b), r)
}

/// `r` is what `unit` gave for the square root of `a`.
pub open spec fn is_root<A: Arithmetic>(unit: &A, a: Real, r: Real) -> bool {
    call_ensures(A::sqrt, (unit, a), r)
}

/// `r` is what `unit` gave for `a` raised to `b`.
pub open spec fn is_power<A: Arithmetic>(unit: &A, a: Real, b: Real, r: Real) -> bool {
    call_ensures(A::powf, (unit, a, b), r)
}

/// `r` is what `unit` gave for `a + b * c`: the product first, then the
/// sum, each rounded as `unit` rounds.
pub open spec fn is_multiply_add<A: Arithmetic>(unit: &A, a: Real, b: Real, c: Real, r: Real) -> bool {
    exists|p: Real| #[trigger] is_product(unit, b, c, p) && is_sum(unit, a, p, r)
}

/// `a + b`, as `unit` gives it.
pub fn sum<A: Arithmetic>(unit: &A, a: Real, b: Real) -> (r: Real)
    ensures
        is_sum(unit, a, b, r),
{
    let op = A::add;
    op(unit, a, b)
}

/// `a - b`, as `unit` gives it.
pub fn difference<A: Arithmetic>(unit: &A, a: Real, b: Real) -> (r: Real)
    ensures
        is_difference(unit, a, b, r),
{
    let op = A::sub;
    op(unit, a, b)
}

/// `a * b`, as `unit` gives it.
pub fn product<A: Arithmetic>(unit: &A, a: Real, b: Real) -> (r: Real)
    ensures
        is_product(unit, a, b, r),
{
    let op = A::mul;
    op(unit, a, b)
}

/// `a / b`, as `unit` gives it.
pub fn quotient<A: Arithmetic>(unit: &A, a: Real, b: Real) -> (r: Real)
    ensures
        is_quotient(unit, a, b, r),
{
    let op = A::div;
    op(unit, a, b)
}

/// The square root of `a`, as `unit` gives it.
pub fn root<A: Arithmetic>(unit: &A, a: Real) -> (r: Real)
    ensures
        is_root(unit, a, r),
{
    let op = A::sqrt;
    op(unit, a)
}

/// `a` raised to `b`, as `unit` gives it.
pub fn power<A: Arithmetic>(unit: &A, a: Real, b: Real) -> (r: Real)
    ensures
        is_power(unit, a, b, r),
{
    let op = A::powf;
    op(unit, a, b)
}

/// `a + b * c`, the product first.
pub fn multiply_add<A: Arithmetic>(unit: &A, a: Real, b: Real, c: Real) -> (r: Real)
    ensures
        is_multiply_add(unit, a, b, c, r),
{
    let p = product(unit, b, c);
    sum(unit, a, p)
}

/// `unit` is exact where there is nothing to round: a number times one,
/// or one times a number, is that number; a finite number times zero is
/// zero; and a number plus zero, or zero plus a number, is that number, but
/// perhaps for the sign of a zero.
pub open spec fn is_exact_on_zero_and_one<A: Arithmetic>(unit: &A) -> bool {
    let one = Real { bits: ONE_BITS };
    &&& forall|a: Real, p: Real| !a.is_nan() && #[trigger] is_product(unit, a, one, p) ==> p == a
    &&& forall|a: Real, p: Real| !a.is_nan() && #[trigger] is_product(unit, one, a, p) ==> p == a
    &&& forall|a: Real, z: Real, p: Real|
        a.is_finite() && z.is_zero() && #[trigger] is_product(unit, a, z, p) ==> p.is_zero()
    &&& forall|a: Real, z: Real, s: Real|
        !a.is_nan() && z.is_zero() && #[trigger] is_sum(unit, a, z, s) ==> s.same(a)
    &&& forall|a: Real, z: Real, s: Real|
        !a.is_nan() && z.is_zero() && #[trigger] is_sum(unit, z, a, s) ==> s.same(a)
}

/// `unit` rounds products in order: of two products of one finite number
/// that is not negative with finite factors, the one with the smaller
/// factor is not the larger.
pub open spec fn rounds_products_in_order<A: Arithmetic>(unit: &A) -> bool {
    forall|a: Real, b: Real, c: Real, p: Real, q: Real|
        #![trigger is_product(unit, a, b, p), is_product(unit, a, c, q)]
        a.is_finite() && b.is_finite() && c.is_finite() && (Real { bits: ZERO_BITS }).at_most(a)
            && b.at_most(c) && is_product(unit, a, b, p) && is_product(unit, a, c, q)
            ==> p.at_most(q)
}

/// `unit` may give a number itself for that number times one.
pub open spec fn keeps_times_one<A: Arithmetic>(unit: &A) -> bool {
    forall|a: Real| #[trigger] is_product(unit, a, Real { bits: ONE_BITS }, a)
}

/// With a unit that rounds products in order and keeps a number times one,
/// a finite factor of at most one never makes a finite number larger that
/// is not negative.
pub proof fn lemma_share_is_no_more<A: Arithmetic>(unit: &A, a: Real, share: Real, p: Real)
    requires
        rounds_products_in_order(unit),
        keeps_times_one(unit),
        a.is_finite(),
        (Real { bits: ZERO_BITS }).at_most(a),
        share.is_finite(),
        share.at_most(Real { bits: ONE_BITS }),
        is_product(unit, a, share, p),
    ensures
        p.at_most(a),
{
    assert(is_product(unit, a, Real { bits: ONE_BITS }, a));
}

/// `unit` may give zero for a finite number times zero, with the sign of the
/// number.
pub open spec fn keeps_times_zero<A: Arithmetic>(unit: &A) -> bool {
    forall|a: Real|
        a.is_finite() ==> #[trigger] is_product(
            unit,
            a,
            Real { bits: ZERO_BITS },
            a.zero_of_its_sign(),
        )
}

/// With a unit that rounds products in order and keeps zero for a number
/// times zero, a finite factor that is not negative never takes a finite
/// number below zero that is not negative.
pub proof fn lemma_share_is_no_less<A: Arithmetic>(unit: &A, a: Real, share: Real, p: Real)
    requires
        rounds_products_in_order(unit),
        keeps_times_zero(unit),
        a.is_finite(),
        (Real { bits: ZERO_BITS }).at_most(a),
        share.is_finite(),
        (Real { bits: ZERO_BITS }).at_most(share),
        is_product(unit, a, share, p),
    ensures
        (Real { bits: ZERO_BITS }).at_most(p),
{
    let zero = Real { bits: ZERO_BITS };
    assert(is_product(unit, a, zero, a.zero_of_its_sign()));
    assert(a.zero_of_its_sign().at_most(p));
}

/// `unit` multiplies either way round: what it may give for `a * b` it may
/// give for `b * a`.
pub open spec fn multiplies_either_way<A: Arithmetic>(unit: &A) -> bool {
    forall|a: Real, b: Real, p: Real| #[trigger] is_product(unit, a, b, p) ==> is_product(unit, b, a, p)
}

/// Among numbers, `less` is a strict order in which any two numbers
/// compare: no number is less than itself, less of less is less, and of two
/// numbers either one is less or they are the same.
pub proof fn lemma_numbers_are_ordered(a: Real, b: Real, c: Real)
    ensures
        !a.less(a),
        a.less(b) && b.less(c) ==> a.less(c),
        !a.is_nan() && !b.is_nan() ==> a.less(b) || b.less(a) || a.same(b),
        a.at_most(b) <==> a.less(b) || a.same(b),
        !(a.less(b) && b.less(a)),
{
}

/// What is not a number compares with nothing, not even with itself.
pub proof fn lemma_not_a_number_compares_with_nothing(a: Real, b: Real)
    requires
        a.is_nan(),
    ensures
        !a.less(b),
        !b.less(a),
        !a.at_most(b),
        !b.at_most(a),
        !a.same(b),
        !a.same(a),
{
}

/// The two zeros are the same number, and every number other than a zero
/// is the same only as the pattern that it is.
pub proof fn lemma_only_zeros_share_a_number(a: Real, b: Real)
    requires
        a.same(b),
    ensures
        a == b || (a.is_zero() && b.is_zero()),
{
}

/// Changing the sign turns the order around, and changing it twice
/// changes nothing.
pub proof fn lemma_opposite_turns_the_order(a: Real, b: Real)
    ensures
        a.opposite().opposite() == a,
        a.less(b) <==> b.opposite().less(a.opposite()),
        a.opposite().is_nan() == a.is_nan(),
{
}

/// A number brought into `[low, high]` lies from `low` to `high`, and is
/// itself where it did so before.
pub proof fn lemma_clamped_is_within(a: Real, low: Real, high: Real)
    requires
        !a.is_nan(),
        low.at_most(high),
    ensures
        low.at_most(a.clamped(low, high)),
        a.clamped(low, high).at_most(high),
        low.at_most(a) && a.at_most(high) ==> a.clamped(low, high) == a,
{
}

/// The larger of two numbers is at least each of them and is one of them,
/// and the smaller likewise.
pub proof fn lemma_larger_and_smaller(a: Real, b: Real)
    requires
        !a.is_nan(),
        !b.is_nan(),
    ensures
        a.at_most(a.larger(b)),
        b.at_most(a.larger(b)),
        a.larger(b) == a || a.larger(b) == b,
        a.smaller(b).at_most(a),
        a.smaller(b).at_most(b),
        a.smaller(b) == a || a.smaller(b) == b,
{
}

} // verus!
