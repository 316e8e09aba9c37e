//! From an integer to the number nearest to it.
//!
//! Not every integer is a single: beyond two to the 24th only every
//! second one is, then every fourth, and so on.  An integer that is none
//! goes to the nearer of its two neighbours, and from midway between them
//! to the one with the even significand.  Like the way back, this is read
//! off the bits and asks nothing of a unit of arithmetic.

use crate::exact::{
    lemma_keys_order_as_values, lemma_size_in_parts, lemma_size_of_wholes,
};
use crate::scalar::Real;
use crate::whole::{HIDDEN_BIT, WHOLE_EXPONENT};
use vstd::arithmetic::div_mod::{lemma_div_denominator, lemma_fundamental_div_mod};
use vstd::arithmetic::power2::{
    lemma2_to64, lemma2_to64_rest, lemma_pow2_pos, lemma_pow2_strictly_increases,
    lemma_pow2_unfold, pow2,
};
use vstd::prelude::*;

verus! {

/// How far the value of `s` lies from the integer `n`.
pub open spec fn off(s: Real, n: int) -> real {
    if s.value() >= n as real {
        s.value() - n as real
    } else {
        n as real - s.value()
    }
}

/// `r` is the single nearest to `n`: no finite number lies nearer, and
/// where another lies as near, the significand of `r` is even.
#[verifier::opaque]
pub open spec fn is_nearest_single(n: u64, r: Real) -> bool {
    &&& r.is_finite()
    &&& !r.is_negative()
    &&& forall|s: Real| s.is_finite() ==> off(r, n as int) <= #[trigger] off(s, n as int)
    &&& forall|s: Real|
        s.is_finite() && #[trigger] off(s, n as int) == off(r, n as int) && s.value() != r.value()
            ==> r.significand() % 2 == 0
}

/// Where some finite number stands for `n`, the single nearest to `n`
/// stands for `n`.
pub proof fn lemma_nearest_to_a_single(n: u64, r: Real, s: Real)
    requires
        is_nearest_single(n, r),
        s.is_finite(),
        s.value() == n as real,
    ensures
        r.value() == n as real,
{
    reveal(is_nearest_single);
    assert(off(r, n as int) <= off(s, n as int));
}

/// Of two numbers that are not negative and follow one another, one has an
/// even significand and the other an odd one.
proof fn lemma_neighbours_differ_in_parity(low: Real, high: Real)
    requires
        !low.is_negative(),
        !high.is_negative(),
        high.bits == low.bits + 1,
    ensures
        low.significand() % 2 != high.significand() % 2,
{
    assert(high.magnitude() == low.magnitude() + 1);
    if low.fraction() + 1 < HIDDEN_BIT {
        assert(high.exponent() == low.exponent());
        assert(high.fraction() == low.fraction() + 1);
    } else {
        assert(high.exponent() == low.exponent() + 1);
        assert(high.fraction() == 0);
        assert(low.fraction() == HIDDEN_BIT - 1);
    }
}

/// There is one single nearest to `n`.
pub proof fn lemma_one_nearest_single(n: u64, r: Real, s: Real)
    requires
        is_nearest_single(n, r),
        is_nearest_single(n, s),
    ensures
        r == s,
{
    reveal(is_nearest_single);
    assert(off(r, n as int) <= off(s, n as int));
    assert(off(s, n as int) <= off(r, n as int));
    lemma_keys_order_as_values(r, s);
    lemma_keys_order_as_values(s, r);
    if r.value() != s.value() {
        // Both lie as far from `n`, one below and one above it.
        assert(r.significand() % 2 == 0);
        assert(s.significand() % 2 == 0);
        let low = if r.bits < s.bits {
            r
        } else {
            s
        };
        let high = if r.bits < s.bits {
            s
        } else {
            r
        };
        assert(low.bits < high.bits);
        if low.bits + 1 < high.bits {
            // Then a number lies between them, nearer to `n` than either.
            let between = Real { bits: (low.bits + 1) as u32 };
            lemma_keys_order_as_values(low, between);
            lemma_keys_order_as_values(between, high);
            lemma_keys_order_as_values(low, high);
            assert(between.is_finite());
            assert(off(r, n as int) <= off(between, n as int));
            assert(false);
        }
        lemma_neighbours_differ_in_parity(low, high);
        assert(false);
    }
}

/// The number of significand `m`, or of `m` doubled until it has 24 bits,
/// with the exponent `e` lowered by one for each doubling.
spec fn lifted(m: int, e: int) -> Real
    decreases 0x100_0000 - m,
{
    if 1 <= m < 0x80_0000 {
        lifted(2 * m, e - 1)
    } else {
        Real { bits: #[verifier::truncate] ((e * HIDDEN_BIT + (m - 0x80_0000)) as u32) }
    }
}

/// `lifted(m, e)` stands for `m` counted in parts of two to the `150 - e`.
proof fn lemma_lifted(m: int, e: int)
    requires
        1 <= m < 0x100_0000,
        m >= pow2((WHOLE_EXPONENT - e) as nat),
        e <= WHOLE_EXPONENT,
    ensures
        lifted(m, e).is_finite(),
        !lifted(m, e).is_negative(),
        lifted(m, e).value() * (pow2((WHOLE_EXPONENT - e) as nat) as real) == m as real,
    decreases 0x100_0000 - m,
{
    let doubled = (WHOLE_EXPONENT - e) as nat;
    lemma2_to64();
    if doubled >= 24 {
        if doubled > 24 {
            lemma_pow2_strictly_increases(24, doubled);
        }
        assert(false);
    }
    if m < 0x80_0000 {
        if doubled == 23 {
            assert(false);
        }
        lemma_pow2_unfold(doubled + 1);
        lemma_lifted(2 * m, e - 1);
        let value = lifted(m, e).value();
        assert(value * (pow2(doubled) as real) == m as real) by (nonlinear_arith)
            requires
                value * (pow2(doubled + 1) as real) == (2 * m) as real,
                pow2(doubled + 1) == 2 * pow2(doubled),
        ;
    } else {
        let r = lifted(m, e);
        assert(r.bits == e * HIDDEN_BIT + (m - 0x80_0000));
        assert(r.exponent() == e && r.fraction() == m - 0x80_0000);
        lemma_size_in_parts(r);
    }
}

/// The single nearest to an integer below two to the 24th stands for that
/// integer.
pub proof fn lemma_small_integers_are_singles(n: u64, r: Real)
    requires
        is_nearest_single(n, r),
        n < 0x100_0000,
    ensures
        r.value() == n as real,
{
    if n == 0 {
        crate::exact::lemma_named_numbers();
        lemma_nearest_to_a_single(n, r, Real { bits: 0 });
    } else {
        lemma2_to64();
        lemma_lifted(n as int, WHOLE_EXPONENT as int);
        let s = lifted(n as int, WHOLE_EXPONENT as int);
        assert(s.value() == n as real) by (nonlinear_arith)
            requires
                s.value() * (pow2(0) as real) == n as real,
                pow2(0) == 1,
        ;
        lemma_nearest_to_a_single(n, r, s);
    }
}

/// A number that stands for `n` itself is the single nearest to `n`.
proof fn lemma_exact_is_nearest(n: u64, r: Real)
    requires
        r.is_finite(),
        !r.is_negative(),
        r.value() == n as real,
    ensures
        is_nearest_single(n, r),
{
    reveal(is_nearest_single);
}

/// Of two neighbours among the numbers that have `n` between them, `low`
/// at `below` from `n` and its successor at `above`, the nearer is the
/// single nearest to `n`, and from midway the one with the even
/// significand.
proof fn lemma_neighbour_is_nearest(n: u64, low: Real, high: Real, below: int, above: int, r: Real)
    requires
        low.is_finite() && !low.is_negative(),
        high.is_finite() && !high.is_negative(),
        high.bits == low.bits + 1,
        low.value() == (n - below) as real,
        high.value() == (n + above) as real,
        0 <= below,
        0 < above,
        r == if below < above || (below == above && low.significand() % 2 == 0) {
            low
        } else {
            high
        },
        below == above ==> (low.significand() % 2 == 0 || high.significand() % 2 == 0),
    ensures
        is_nearest_single(n, r),
{
    reveal(is_nearest_single);
    assert forall|s: Real| s.is_finite() implies off(r, n as int) <= #[trigger] off(s, n as int)
        && (off(s, n as int) == off(r, n as int) && s.value() != r.value() ==> r.significand()
        % 2 == 0) by {
        lemma_keys_order_as_values(s, low);
        lemma_keys_order_as_values(s, high);
        lemma_keys_order_as_values(low, high);
        assert(s.key() <= low.key() || s.key() >= high.key());
    }
}

impl Real {
    /// The single nearest to `n`.
    pub fn from_integer(n: u64) -> (r: Real)
        ensures
            is_nearest_single(n, r),
    {
        proof {
            lemma2_to64();
            lemma2_to64_rest();
        }
        if n == 0 {
            let r = Real { bits: 0 };
            proof {
                crate::exact::lemma_named_numbers();
                lemma_exact_is_nearest(n, r);
            }
            return r;
        }
        if n < 0x100_0000 {
            // Small enough to be a single itself: bring it up to 24 bits.
            let mut m: u64 = n;
            let mut exponent: u32 = WHOLE_EXPONENT;
            proof {
                assert(n * pow2(0) == n) by (nonlinear_arith)
                    requires
                        pow2(0) == 1,
                ;
            }
            while m < 0x80_0000
                invariant
                    1 <= m < 0x100_0000,
                    127 <= exponent <= WHOLE_EXPONENT,
                    m == n * pow2((WHOLE_EXPONENT - exponent) as nat),
                    m >= pow2((WHOLE_EXPONENT - exponent) as nat),
                decreases exponent,
            {
                proof {
                    let doubled = (WHOLE_EXPONENT - exponent) as nat;
                    lemma2_to64();
                    lemma_pow2_unfold(doubled + 1);
                    if doubled >= 23 {
                        if doubled > 23 {
                            lemma_pow2_strictly_increases(23, doubled);
                        }
                        assert(false);
                    }
                    assert(m * 2 == n * pow2(doubled + 1)) by (nonlinear_arith)
                        requires
                            m == n * pow2(doubled),
                            pow2(doubled + 1) == 2 * pow2(doubled),
                    ;
                }
                m = m * 2;
                exponent = exponent - 1;
            }
            let r = Real { bits: exponent * HIDDEN_BIT + (m - 0x80_0000) as u32 };
            proof {
                assert(r.exponent() == exponent && r.fraction() == m - 0x80_0000);
                assert(r.significand() == m);
                lemma_size_in_parts(r);
                let parts = pow2((WHOLE_EXPONENT - exponent) as nat);
                lemma_pow2_pos((WHOLE_EXPONENT - exponent) as nat);
                assert(r.value() == n as real) by (nonlinear_arith)
                    requires
                        r.value() * (parts as real) == m as real,
                        m == n * parts,
                        parts > 0,
                ;
                lemma_exact_is_nearest(n, r);
            }
            return r;
        }
        // Too large: cut it down to 24 bits, and round what was cut off.
        let mut parts: u64 = 1;
        let mut exponent: u32 = WHOLE_EXPONENT;
        proof {
            assert(n / 1 == n);
        }
        while n / parts >= 0x100_0000
            invariant
                WHOLE_EXPONENT <= exponent <= WHOLE_EXPONENT + 40,
                parts == pow2((exponent - WHOLE_EXPONENT) as nat),
                1 <= parts <= 0x100_0000_0000,
                n / parts >= 0x80_0000,
            decreases WHOLE_EXPONENT + 40 - exponent,
        {
            proof {
                let halved = (exponent - WHOLE_EXPONENT) as nat;
                lemma2_to64_rest();
                lemma_pow2_unfold(halved + 1);
                if halved >= 40 {
                    // Nothing of 64 bits is left to halve.
                    assert(parts == 0x100_0000_0000);
                    assert(n / 0x100_0000_0000 < 0x100_0000);
                    assert(false);
                }
                if halved + 1 < 40 {
                    lemma_pow2_strictly_increases(halved + 1, 40);
                }
                lemma_div_denominator(n as int, parts as int, 2);
            }
            parts = parts * 2;
            exponent = exponent + 1;
        }
        let kept = n / parts;
        let rest = n % parts;
        proof {
            lemma_fundamental_div_mod(n as int, parts as int);
        }
        let low = Real { bits: exponent * HIDDEN_BIT + (kept - 0x80_0000) as u32 };
        let high = Real { bits: low.bits + 1 };
        let up = rest > parts - rest || (rest == parts - rest && kept % 2 == 1);
        let r = if up {
            high
        } else {
            low
        };
        proof {
            let shift = (exponent - WHOLE_EXPONENT) as nat;
            assert(low.exponent() == exponent && low.fraction() == kept - 0x80_0000);
            assert(low.significand() == kept);
            lemma_size_of_wholes(low);
            assert(low.value() == (kept * parts) as real);
            if kept + 1 < 0x100_0000 {
                assert(high.exponent() == exponent && high.fraction() == kept + 1 - 0x80_0000);
                assert(high.significand() == kept + 1);
                lemma_size_of_wholes(high);
                assert((kept + 1) * parts == kept * parts + parts) by (nonlinear_arith);
            } else {
                assert(high.exponent() == exponent + 1 && high.fraction() == 0);
                assert(high.significand() == 0x80_0000);
                lemma_size_of_wholes(high);
                lemma_pow2_unfold(shift + 1);
                assert(0x80_0000 * (2 * parts) == kept * parts + parts) by (nonlinear_arith)
                    requires
                        kept + 1 == 0x100_0000,
                ;
            }
            assert(high.value() == (kept * parts + parts) as real);
            lemma_neighbour_is_nearest(n, low, high, rest as int, parts - rest, r);
        }
        r
    }
}

} // verus!
