//! What the bits of a number stand for.
//!
//! A finite number is its significand times a power of two.  Here that
//! value is written down as a real number, and the order that the library
//! reads off the bits is proved to be the order of the values.
//!
//! A unit of arithmetic rounds, and the library takes its results as they
//! come.  What they are worth where nothing needs rounding is said here
//! too: [`is_faithful`] holds of a unit that gives the true result wherever
//! a number stands for it, and the `lemma_true_*` laws say what such a unit
//! returns.

use crate::scalar::{
    is_difference, is_product, is_quotient, is_root, is_sum, Arithmetic, Real, HALF_BITS,
    ONE_BITS, THREE_TENTHS_BITS, TWO_BITS, ZERO_BITS,
};
use crate::whole::{HIDDEN_BIT, WHOLE_EXPONENT};
use vstd::arithmetic::div_mod::lemma_fundamental_div_mod;
use vstd::arithmetic::power2::{lemma_pow2_pos, lemma_pow2_unfold, pow2};
use vstd::prelude::*;

verus! {

/// Two to the power `e`, for any integer `e`.
pub open spec fn two_to(e: int) -> real
    decreases
            if e >= 0 {
                e
            } else {
                -e
            },
{
    if e > 0 {
        two_to(e - 1) * (2 as real)
    } else if e < 0 {
        two_to(e + 1) / (2 as real)
    } else {
        1 as real
    }
}

impl Real {
    /// The power of two that the significand is counted in.
    pub open spec fn unit_exponent(self) -> int {
        if self.exponent() == 0 {
            1 - WHOLE_EXPONENT
        } else {
            self.exponent() - WHOLE_EXPONENT
        }
    }

    /// The distance from zero that the bits stand for: the significand
    /// times its power of two.  For an infinity that is two to the 128th,
    /// and of what is not a number it says nothing of use.
    #[verifier::opaque]
    pub open spec fn size(self) -> real {
        (self.significand() as real) * two_to(self.unit_exponent())
    }

    /// The value that the bits stand for.
    pub open spec fn value(self) -> real {
        if self.is_negative() {
            -self.size()
        } else {
            self.size()
        }
    }
}

/// Two to any power is more than nothing, and the next power is twice as
/// much.
pub proof fn lemma_two_to_step(e: int)
    ensures
        two_to(e) > 0 as real,
        two_to(e + 1) == two_to(e) * (2 as real),
    decreases
            if e >= 0 {
                e
            } else {
                -e
            },
{
    if e > 0 {
        lemma_two_to_step(e - 1);
    } else if e < 0 {
        lemma_two_to_step(e + 1);
        if e + 1 < 0 {
            assert(two_to(e + 1) == two_to(e + 2) / (2 as real));
            assert(two_to(e + 2) == two_to(e + 1) * (2 as real));
        }
    } else {
        assert(two_to(1) == two_to(0) * (2 as real));
    }
}

/// A higher power of two is more.
pub proof fn lemma_two_to_grows(a: int, b: int)
    requires
        a < b,
    ensures
        two_to(a) < two_to(b),
    decreases b - a,
{
    lemma_two_to_step(a);
    if a + 1 < b {
        lemma_two_to_grows(a + 1, b);
    }
}

/// Of two magnitudes, the larger stands for the larger size, and no size
/// is less than nothing.
pub proof fn lemma_size_grows_with_magnitude(a: Real, b: Real)
    requires
        a.magnitude() < b.magnitude(),
    ensures
        (0 as real) <= a.size() < b.size(),
{
    reveal(Real::size);
    let ta = two_to(a.unit_exponent());
    let tb = two_to(b.unit_exponent());
    let sa = a.significand() as real;
    let sb = b.significand() as real;
    let hidden = HIDDEN_BIT as real;
    lemma_two_to_step(a.unit_exponent());
    lemma_two_to_step(b.unit_exponent());
    assert(sa * ta >= 0 as real) by (nonlinear_arith)
        requires
            sa >= 0 as real,
            ta > 0 as real,
    ;
    if a.exponent() == b.exponent() {
        assert(sa * ta < sb * ta) by (nonlinear_arith)
            requires
                sa < sb,
                ta > 0 as real,
        ;
    } else {
        assert(a.exponent() < b.exponent());
        // What `a` stands for lies below the least number of the next exponent.
        let next = two_to(a.unit_exponent() + 1);
        if a.exponent() == 0 {
            assert(sa * ta < hidden * ta) by (nonlinear_arith)
                requires
                    sa < hidden,
                    ta > 0 as real,
            ;
            assert(hidden * ta <= hidden * tb) by {
                if a.unit_exponent() < b.unit_exponent() {
                    lemma_two_to_grows(a.unit_exponent(), b.unit_exponent());
                }
                assert(hidden * ta <= hidden * tb) by (nonlinear_arith)
                    requires
                        ta <= tb,
                        hidden > 0 as real,
                ;
            }
        } else {
            assert(sa * ta < hidden * next) by (nonlinear_arith)
                requires
                    sa < hidden * (2 as real),
                    ta > 0 as real,
                    next == ta * (2 as real),
            ;
            assert(hidden * next <= hidden * tb) by {
                if a.unit_exponent() + 1 < b.unit_exponent() {
                    lemma_two_to_grows(a.unit_exponent() + 1, b.unit_exponent());
                }
                assert(hidden * next <= hidden * tb) by (nonlinear_arith)
                    requires
                        next <= tb,
                        hidden > 0 as real,
                ;
            }
        }
        assert(hidden * tb <= sb * tb) by (nonlinear_arith)
            requires
                hidden <= sb,
                tb > 0 as real,
        ;
    }
}

/// The order read off the bits is the order of the values: of two
/// patterns, the one with the smaller key stands for the smaller value,
/// and two with the same key stand for the same.
pub proof fn lemma_keys_order_as_values(a: Real, b: Real)
    ensures
        a.key() < b.key() <==> a.value() < b.value(),
        a.key() == b.key() <==> a.value() == b.value(),
{
    reveal(Real::size);
    let zero = Real { bits: ZERO_BITS };
    assert(zero.size() == 0 as real) by {
        assert(zero.significand() == 0);
        assert((0 as real) * two_to(zero.unit_exponent()) == 0 as real) by (nonlinear_arith);
    }
    if a.magnitude() < b.magnitude() {
        lemma_size_grows_with_magnitude(a, b);
    } else if b.magnitude() < a.magnitude() {
        lemma_size_grows_with_magnitude(b, a);
    } else {
        assert(a.size() == b.size());
    }
    if a.magnitude() > 0 {
        lemma_size_grows_with_magnitude(zero, a);
    } else {
        assert(a.size() == zero.size());
    }
    if b.magnitude() > 0 {
        lemma_size_grows_with_magnitude(zero, b);
    } else {
        assert(b.size() == zero.size());
    }
}

/// The other sign gives the opposite value.
pub proof fn lemma_opposite_value(a: Real)
    ensures
        a.opposite().value() == -a.value(),
{
    reveal(Real::size);
    assert(a.opposite().magnitude() == a.magnitude());
    assert(a.opposite().size() == a.size());
}

/// A power of two and the power with the opposite exponent multiply to
/// one.
pub proof fn lemma_two_to_opposite(e: int)
    ensures
        two_to(e) * two_to(-e) == 1 as real,
    decreases
            if e >= 0 {
                e
            } else {
                -e
            },
{
    if e > 0 {
        lemma_two_to_opposite(e - 1);
        lemma_two_to_step(e - 1);
        lemma_two_to_step(-e);
        let up = two_to(e - 1);
        let down = two_to(-e);
        assert((up * (2 as real)) * down == up * (down * (2 as real))) by (nonlinear_arith);
    } else if e < 0 {
        lemma_two_to_opposite(e + 1);
        lemma_two_to_step(e);
        lemma_two_to_step(-e - 1);
        let down = two_to(e);
        let up = two_to(-e - 1);
        assert(down * (up * (2 as real)) == (down * (2 as real)) * up) by (nonlinear_arith);
    }
}

/// For an exponent that is not negative, the power is the whole number
/// that it is among the integers.
pub proof fn lemma_two_to_is_whole(n: nat)
    ensures
        two_to(n as int) == pow2(n) as real,
    decreases n,
{
    if n > 0 {
        lemma_two_to_is_whole((n - 1) as nat);
        lemma_pow2_unfold(n);
        let below = pow2((n - 1) as nat);
        assert((below * 2) as real == (below as real) * (2 as real)) by (nonlinear_arith);
    } else {
        vstd::arithmetic::power2::lemma2_to64();
    }
}

/// The whole part is what is left of the size without its fraction.
pub proof fn lemma_whole_is_size_cut_down(a: Real)
    ensures
        (a.whole() as real) <= a.size() < ((a.whole() + 1) as real),
{
    reveal(Real::size);
    let sig = a.significand();
    if a.exponent() >= WHOLE_EXPONENT {
        let up = (a.exponent() - WHOLE_EXPONENT) as nat;
        lemma_two_to_is_whole(up);
        assert((sig * pow2(up)) as real == (sig as real) * (pow2(up) as real)) by (nonlinear_arith);
    } else {
        let down = (WHOLE_EXPONENT - a.exponent()) as nat;
        let parts = pow2(down) as int;
        lemma_pow2_pos(down);
        lemma_two_to_is_whole(down);
        lemma_two_to_opposite(down as int);
        lemma_fundamental_div_mod(sig, parts);
        let whole = sig / parts;
        let rest = sig % parts;
        let share = two_to(-(down as int));
        assert(share * (parts as real) == 1 as real) by {
            assert(parts as real == two_to(down as int));
            assert(share * two_to(down as int) == two_to(down as int) * share) by (nonlinear_arith);
        }
        // The size is at most the significand over `parts`.
        lemma_two_to_step(a.unit_exponent());
        if a.exponent() == 0 {
            lemma_two_to_step(-(down as int));
            assert(two_to(a.unit_exponent()) == share * (2 as real));
            vstd::arithmetic::power2::lemma2_to64();
            lemma_pow2_unfold(down);
            vstd::arithmetic::power2::lemma_pow2_strictly_increases(24, (down - 1) as nat);
            assert(2 * sig < parts);
            assert(whole == 0) by {
                vstd::arithmetic::div_mod::lemma_basic_div(sig, parts);
            }
            assert(a.size() < 1 as real && a.size() >= 0 as real) by (nonlinear_arith)
                requires
                    a.size() == (sig as real) * (share * (2 as real)),
                    share * (parts as real) == 1 as real,
                    0 <= 2 * sig < parts,
                    share > 0 as real,
            ;
        } else {
            assert(a.size() == (sig as real) * share);
            assert((whole as real) <= a.size() < ((whole + 1) as real)) by (nonlinear_arith)
                requires
                    a.size() == (sig as real) * share,
                    share * (parts as real) == 1 as real,
                    sig == parts * whole + rest,
                    0 <= rest < parts,
                    share > 0 as real,
            ;
        }
    }
}

/// For a number below two to the 24th that is not subnormal, the size is
/// the significand over a power of two.
pub proof fn lemma_size_in_parts(a: Real)
    requires
        1 <= a.exponent() <= WHOLE_EXPONENT,
    ensures
        a.size() * (pow2((WHOLE_EXPONENT - a.exponent()) as nat) as real)
            == a.significand() as real,
        two_to(a.unit_exponent()) * (pow2((WHOLE_EXPONENT - a.exponent()) as nat) as real)
            == 1 as real,
{
    reveal(Real::size);
    let down = (WHOLE_EXPONENT - a.exponent()) as nat;
    let parts = pow2(down) as real;
    let share = two_to(a.unit_exponent());
    let sig = a.significand() as real;
    lemma_two_to_is_whole(down);
    lemma_two_to_opposite(down as int);
    assert(share * parts == 1 as real) by (nonlinear_arith)
        requires
            parts * share == 1 as real,
    ;
    assert((sig * share) * parts == sig) by (nonlinear_arith)
        requires
            share * parts == 1 as real,
    ;
}

/// For a number of two to the 23rd or more, the size is the significand
/// times a power of two: a whole number.
pub proof fn lemma_size_of_wholes(a: Real)
    requires
        a.exponent() >= WHOLE_EXPONENT,
    ensures
        a.size() == (a.significand() * pow2((a.exponent() - WHOLE_EXPONENT) as nat)) as real,
{
    reveal(Real::size);
    let up = (a.exponent() - WHOLE_EXPONENT) as nat;
    let sig = a.significand();
    lemma_two_to_is_whole(up);
    assert((sig * pow2(up)) as real == (sig as real) * (pow2(up) as real)) by (nonlinear_arith);
}

/// A number of significand `sig`, counted in `parts`-th parts, stands for
/// the integer `n` if `sig` is `n` times `parts`.
pub proof fn lemma_integer_by_parts(a: Real, n: int, sig: int, parts: int)
    requires
        1 <= a.exponent() <= WHOLE_EXPONENT,
        parts == pow2((WHOLE_EXPONENT - a.exponent()) as nat),
        sig == if a.is_negative() {
            -a.significand()
        } else {
            a.significand()
        },
        sig == n * parts,
    ensures
        a.value() == n as real,
{
    lemma_size_in_parts(a);
    lemma_pow2_pos((WHOLE_EXPONENT - a.exponent()) as nat);
    let value = a.value();
    let p = parts as real;
    let s = sig as real;
    assert(value * p == s) by (nonlinear_arith)
        requires
            a.size() * p == a.significand() as real,
            value == a.size() && s == a.significand() as real || value == -a.size() && s == -(
            a.significand() as real),
    ;
    assert(value == n as real) by (nonlinear_arith)
        requires
            value * p == s,
            s == sig as real,
            p == parts as real,
            sig == n * parts,
            parts > 0,
    ;
}

/// A number of significand `sig`, counted in `parts`-th parts, stands for
/// the fraction `num / den` if `sig / parts` is that fraction.
pub proof fn lemma_fraction_by_parts(a: Real, num: int, den: int, sig: int, parts: int)
    requires
        1 <= a.exponent() <= WHOLE_EXPONENT,
        a.is_finite(),
        den > 0,
        parts == pow2((WHOLE_EXPONENT - a.exponent()) as nat),
        sig == if a.is_negative() {
            -a.significand()
        } else {
            a.significand()
        },
        sig * den == num * parts,
    ensures
        a.value() * (den as real) == num as real,
{
    lemma_size_in_parts(a);
    lemma_pow2_pos((WHOLE_EXPONENT - a.exponent()) as nat);
    let value = a.value();
    let p = parts as real;
    let s = sig as real;
    assert(value * p == s) by (nonlinear_arith)
        requires
            a.size() * p == a.significand() as real,
            value == a.size() && s == a.significand() as real || value == -a.size() && s == -(
            a.significand() as real),
    ;
    assert(value * (den as real) == num as real) by (nonlinear_arith)
        requires
            value * p == s,
            s == sig as real,
            p == parts as real,
            sig * den == num * parts,
            parts > 0,
    ;
}

/// Whether `a` lies within half a unit in its last place of the fraction
/// `num / den`: no number of its exponent lies nearer.
pub open spec fn is_nearest_to(a: Real, num: int, den: int) -> bool {
    let gap = a.value() * (den as real) - (num as real);
    &&& a.is_finite()
    &&& den > 0
    &&& -(den as real) * two_to(a.unit_exponent()) <= gap * (2 as real)
    &&& gap * (2 as real) <= (den as real) * two_to(a.unit_exponent())
}

/// A number of significand `sig`, counted in `parts`-th parts, is nearest
/// to `num / den` if `sig / parts` is within half a part of it.
pub proof fn lemma_nearest_by_parts(a: Real, num: int, den: int, sig: int, parts: int)
    requires
        1 <= a.exponent() <= WHOLE_EXPONENT,
        a.is_finite(),
        den > 0,
        parts == pow2((WHOLE_EXPONENT - a.exponent()) as nat),
        sig == if a.is_negative() {
            -a.significand()
        } else {
            a.significand()
        },
        -den <= (sig * den - num * parts) * 2 <= den,
    ensures
        is_nearest_to(a, num, den),
{
    lemma_size_in_parts(a);
    lemma_pow2_pos((WHOLE_EXPONENT - a.exponent()) as nat);
    let value = a.value();
    let share = two_to(a.unit_exponent());
    let p = parts as real;
    let s = sig as real;
    let n = num as real;
    let d = den as real;
    assert(value * p == s) by (nonlinear_arith)
        requires
            a.size() * p == a.significand() as real,
            value == a.size() && s == a.significand() as real || value == -a.size() && s == -(
            a.significand() as real),
    ;
    let slack = (sig * den - num * parts) * 2;
    assert((value * d - n) * (2 as real) * p == slack as real) by (nonlinear_arith)
        requires
            value * p == s,
            slack == (sig * den - num * parts) * 2,
            p == parts as real,
            s == sig as real,
            n == num as real,
            d == den as real,
    ;
    assert(-d * share <= (value * d - n) * (2 as real) && (value * d - n) * (2 as real) <= d
        * share) by (nonlinear_arith)
        requires
            (value * d - n) * (2 as real) * p == slack as real,
            share * p == 1 as real,
            p > 0 as real,
            -d <= slack as real <= d,
    ;
}

/// Cutting a number down to an integer drops its fraction: the integer
/// lies between zero and the value, less than one away from the value.
pub proof fn lemma_cut_drops_the_fraction(a: Real)
    requires
        !a.is_nan(),
        a.whole() < 0x8000_0000,
    ensures
        !a.is_negative() ==> (a.cut() as real) <= a.value() < ((a.cut() + 1) as real),
        a.is_negative() ==> ((a.cut() - 1) as real) < a.value() <= (a.cut() as real),
{
    lemma_whole_is_size_cut_down(a);
}

/// Of two numbers that are not negative and stand a whole one apart, the
/// larger is cut down to the next integer.
pub proof fn lemma_next_whole(a: Real, b: Real)
    requires
        !a.is_nan() && !a.is_negative(),
        !b.is_nan() && !b.is_negative(),
        b.value() == a.value() + 1 as real,
        b.whole() <= i32::MAX,
    ensures
        b.cut() == a.cut() + 1,
{
    lemma_whole_is_size_cut_down(a);
    lemma_whole_is_size_cut_down(b);
}

/// Cutting down goes with the order: of two numbers, the one that is not
/// the larger is cut down to an integer that is not the larger.
pub proof fn lemma_cut_goes_with_the_order(a: Real, b: Real)
    requires
        a.at_most(b),
    ensures
        a.cut() <= b.cut(),
{
    lemma_keys_order_as_values(a, b);
    lemma_whole_is_size_cut_down(a);
    lemma_whole_is_size_cut_down(b);
    let zero = Real { bits: ZERO_BITS };
    lemma_keys_order_as_values(zero, a);
    lemma_keys_order_as_values(zero, b);
    lemma_named_numbers();
    assert(a.value() <= b.value());
    assert(a.whole() >= 0 && b.whole() >= 0);
    if a.is_negative() && b.is_negative() {
        assert(b.size() <= a.size());
        assert(b.whole() <= a.whole());
    } else if !a.is_negative() && !b.is_negative() {
        assert(a.size() <= b.size());
        assert(a.whole() <= b.whole());
    } else if a.is_negative() {
        assert(a.cut() <= 0 <= b.cut());
    } else {
        // `a` is not negative and `b` is: both are zero.
        assert(a.size() <= -b.size());
        assert(a.whole() == 0 && b.whole() == 0);
    }
}

/// The named numbers are what their names say.
pub proof fn lemma_named_numbers()
    ensures
        (Real { bits: ZERO_BITS }).value() == 0 as real,
        (Real { bits: ONE_BITS }).value() == 1 as real,
        (Real { bits: TWO_BITS }).value() == 2 as real,
        (Real { bits: HALF_BITS }).value() * (2 as real) == 1 as real,
        is_nearest_to(Real { bits: THREE_TENTHS_BITS }, 3, 10),
{
    vstd::arithmetic::power2::lemma2_to64();
    let zero = Real { bits: ZERO_BITS };
    assert(zero.size() == 0 as real) by {
        reveal(Real::size);
        assert(zero.significand() == 0);
        assert((0 as real) * two_to(zero.unit_exponent()) == 0 as real) by (nonlinear_arith);
    }
    let one = Real { bits: ONE_BITS };
    assert(one.exponent() == 127 && one.fraction() == 0);
    lemma_integer_by_parts(one, 1, 0x80_0000, 0x80_0000);
    let two = Real { bits: TWO_BITS };
    assert(two.exponent() == 128 && two.fraction() == 0);
    lemma_integer_by_parts(two, 2, 0x80_0000, 0x40_0000);
    let half = Real { bits: HALF_BITS };
    assert(half.exponent() == 126 && half.fraction() == 0);
    lemma_size_in_parts(half);
    assert(half.size() * (0x100_0000 as real) == 0x80_0000 as real);
    let three_tenths = Real { bits: THREE_TENTHS_BITS };
    assert(three_tenths.exponent() == 125 && three_tenths.fraction() == 0x19_999a);
    lemma_nearest_by_parts(three_tenths, 3, 10, 0x99_999a, 0x200_0000);
}

/// Some finite number stands for `v`.
#[verifier::opaque]
pub open spec fn is_held(v: real) -> bool {
    exists|r: Real| r.is_finite() && #[trigger] r.value() == v
}

/// Some finite number that is not negative stands for the square root of
/// `v`.
#[verifier::opaque]
pub open spec fn is_root_held(v: real) -> bool {
    exists|r: Real|
        r.is_finite() && r.value() >= 0 as real && (#[trigger] r.value()) * r.value() == v
}

/// Whether `unit` rounds nothing that needs no rounding: of finite
/// numbers it gives the true sum, difference, product, quotient or square
/// root wherever some finite number stands for it.  A unit that rounds
/// every result to the number nearest to it, as IEEE 754 asks, does so.
#[verifier::opaque]
pub open spec fn is_faithful<A: Arithmetic>(unit: &A) -> bool {
    &&& forall|a: Real, b: Real, r: Real| #[trigger]
        is_sum(unit, a, b, r) && a.is_finite() && b.is_finite() && is_held(a.value() + b.value())
            ==> r.is_finite() && r.value() == a.value() + b.value()
    &&& forall|a: Real, b: Real, r: Real| #[trigger]
        is_difference(unit, a, b, r) && a.is_finite() && b.is_finite() && is_held(
            a.value() - b.value(),
        ) ==> r.is_finite() && r.value() == a.value() - b.value()
    &&& forall|a: Real, b: Real, r: Real| #[trigger]
        is_product(unit, a, b, r) && a.is_finite() && b.is_finite() && is_held(
            a.value() * b.value(),
        ) ==> r.is_finite() && r.value() == a.value() * b.value()
    &&& forall|a: Real, b: Real, r: Real| #[trigger]
        is_quotient(unit, a, b, r) && a.is_finite() && b.is_finite() && b.value() != 0 as real
            && is_held(a.value() / b.value()) ==> r.is_finite() && r.value() == a.value()
            / b.value()
    &&& forall|a: Real, r: Real| #[trigger]
        is_root(unit, a, r) && a.is_finite() && is_root_held(a.value()) ==> r.is_finite()
            && r.value() >= 0 as real && r.value() * r.value() == a.value()
}

/// A faithful unit gives the true sum `v` where a number holds it.
pub proof fn lemma_true_sum<A: Arithmetic>(unit: &A, a: Real, b: Real, r: Real, v: real)
    requires
        is_faithful(unit),
        is_sum(unit, a, b, r),
        a.is_finite() && b.is_finite(),
        a.value() + b.value() == v,
        is_held(v),
    ensures
        r.is_finite(),
        r.value() == v,
{
    reveal(is_faithful);
}

/// A faithful unit gives the true difference `v` where a number holds it.
pub proof fn lemma_true_difference<A: Arithmetic>(unit: &A, a: Real, b: Real, r: Real, v: real)
    requires
        is_faithful(unit),
        is_difference(unit, a, b, r),
        a.is_finite() && b.is_finite(),
        a.value() - b.value() == v,
        is_held(v),
    ensures
        r.is_finite(),
        r.value() == v,
{
    reveal(is_faithful);
}

/// A faithful unit gives the true product `v` where a number holds it.
pub proof fn lemma_true_product<A: Arithmetic>(unit: &A, a: Real, b: Real, r: Real, v: real)
    requires
        is_faithful(unit),
        is_product(unit, a, b, r),
        a.is_finite() && b.is_finite(),
        a.value() * b.value() == v,
        is_held(v),
    ensures
        r.is_finite(),
        r.value() == v,
{
    reveal(is_faithful);
}

/// A faithful unit gives the true quotient `v`, the number that times the
/// divisor is the dividend, where a number holds it.
pub proof fn lemma_true_quotient<A: Arithmetic>(unit: &A, a: Real, b: Real, r: Real, v: real)
    requires
        is_faithful(unit),
        is_quotient(unit, a, b, r),
        a.is_finite() && b.is_finite(),
        b.value() != 0 as real,
        v * b.value() == a.value(),
        is_held(v),
    ensures
        r.is_finite(),
        r.value() == v,
{
    assert(a.value() / b.value() == v) by (nonlinear_arith)
        requires
            b.value() != 0 as real,
            v * b.value() == a.value(),
    ;
    reveal(is_faithful);
}

/// A faithful unit gives the true square root where a number holds it.
pub proof fn lemma_true_root<A: Arithmetic>(unit: &A, a: Real, r: Real)
    requires
        is_faithful(unit),
        is_root(unit, a, r),
        a.is_finite(),
        is_root_held(a.value()),
    ensures
        r.is_finite(),
        r.value() >= 0 as real,
        r.value() * r.value() == a.value(),
{
    reveal(is_faithful);
}

/// A finite number holds its own value.
pub proof fn lemma_number_is_held(a: Real)
    requires
        a.is_finite(),
    ensures
        is_held(a.value()),
{
    reveal(is_held);
}

/// What holds a number that is not negative holds the square root of its
/// square.
pub proof fn lemma_held_is_root_held(v: real, square: real)
    requires
        is_held(v),
        v >= 0 as real,
        v * v == square,
    ensures
        is_root_held(square),
{
    reveal(is_held);
    reveal(is_root_held);
    let r = choose|r: Real| r.is_finite() && #[trigger] r.value() == v;
    assert(r.is_finite() && r.value() >= 0 as real && r.value() * r.value() == square);
}

/// What can be held can be held with the other sign.
pub proof fn lemma_opposite_is_held(v: real)
    requires
        is_held(v),
    ensures
        is_held(-v),
{
    reveal(is_held);
    let r = choose|r: Real| r.is_finite() && #[trigger] r.value() == v;
    lemma_opposite_value(r);
    assert(r.opposite().magnitude() == r.magnitude());
    assert(r.opposite().is_finite());
}

/// Nothing and one can be held.
pub proof fn lemma_zero_and_one_are_held()
    ensures
        is_held(0 as real),
        is_held(1 as real),
{
    lemma_named_numbers();
    lemma_number_is_held(Real { bits: ZERO_BITS });
    lemma_number_is_held(Real { bits: ONE_BITS });
}

/// Between two numbers, `larger` picks the one that stands for more and
/// `smaller` the one that stands for less.
pub proof fn lemma_larger_and_smaller_values(a: Real, b: Real)
    requires
        !a.is_nan(),
        !b.is_nan(),
    ensures
        a.larger(b).value() == if a.value() < b.value() {
            b.value()
        } else {
            a.value()
        },
        a.smaller(b).value() == if b.value() < a.value() {
            b.value()
        } else {
            a.value()
        },
        a.less(b) <==> a.value() < b.value(),
        a.at_most(b) <==> a.value() <= b.value(),
{
    lemma_keys_order_as_values(a, b);
    lemma_keys_order_as_values(b, a);
}

} // verus!
