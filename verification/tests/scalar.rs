use ray_ten::scalar::{
    difference, multiply_add, power, product, quotient, root, sum,
    Arithmetic, Real,
};

struct Ieee;

impl Arithmetic for Ieee {
    fn add(&self, a: Real, b: Real) -> Real {
        number(single(a) + single(b))
    }

    fn sub(&self, a: Real, b: Real) -> Real {
        number(single(a) - single(b))
    }

    fn mul(&self, a: Real, b: Real) -> Real {
        number(single(a) * single(b))
    }

    fn div(&self, a: Real, b: Real) -> Real {
        number(single(a) / single(b))
    }

    fn sqrt(&self, a: Real) -> Real {
        number(single(a).sqrt())
    }

    fn powf(&self, a: Real, b: Real) -> Real {
        number(single(a).powf(single(b)))
    }
}

fn number(x: f32) -> Real {
    Real::from_bits(x.to_bits())
}

fn single(x: Real) -> f32 {
    f32::from_bits(x.to_bits())
}

fn samples() -> Vec<f32> {
    vec![
        0.0,
        -0.0,
        1.0,
        -1.0,
        0.001,
        -0.001,
        3.5,
        -3.5,
        f32::MAX,
        f32::MIN,
        f32::INFINITY,
        f32::NEG_INFINITY,
        f32::NAN,
        -f32::NAN,
        f32::MIN_POSITIVE,
        1.0e-45,
        -1.0e-45,
    ]
}

#[test]
fn constants_are_the_numbers_they_name() {
    assert_eq!(Real::zero().to_bits(), 0.0f32.to_bits());
    assert_eq!(Real::half().to_bits(), 0.5f32.to_bits());
    assert_eq!(Real::one().to_bits(), 1.0f32.to_bits());
    assert_eq!(Real::two().to_bits(), 2.0f32.to_bits());
    assert_eq!(Real::max_value().to_bits(), f32::MAX.to_bits());
    assert_eq!(ray_ten::scalar::SIGN_BIT, (-0.0f32).to_bits());
    assert_eq!(ray_ten::scalar::INFINITY_BITS, f32::INFINITY.to_bits());
}

#[test]
fn bits_go_in_and_come_out_unchanged() {
    for &x in samples().iter() {
        assert_eq!(Real::from_bits(x.to_bits()).to_bits(), x.to_bits());
    }
    assert_eq!(Real::from_bits(0x1234_5678).bits, 0x1234_5678);
}

#[test]
fn order_follows_the_numbers() {
    for &a in samples().iter() {
        for &b in samples().iter() {
            assert_eq!(number(a).lt(number(b)), a < b, "{} < {}", a, b);
            assert_eq!(number(a).gt(number(b)), a > b, "{} > {}", a, b);
            assert_eq!(number(a).le(number(b)), a <= b, "{} <= {}", a, b);
            assert_eq!(number(a).ge(number(b)), a >= b, "{} >= {}", a, b);
            assert_eq!(number(a).eq(number(b)), a == b, "{} == {}", a, b);
        }
    }
}

#[test]
fn what_is_not_a_number_is_told_apart() {
    for &a in samples().iter() {
        assert_eq!(number(a).not_a_number(), a.is_nan());
    }
}

#[test]
fn the_two_zeros_are_equal_and_neither_is_less() {
    let plus = number(0.0);
    let minus = number(-0.0);
    assert!(plus.eq(minus));
    assert!(!plus.lt(minus));
    assert!(!minus.lt(plus));
    assert!(plus.le(minus));
    assert!(minus.ge(plus));
}

#[test]
fn larger_and_smaller_pass_over_what_is_not_a_number() {
    for &a in samples().iter() {
        for &b in samples().iter() {
            let larger = single(number(a).max(number(b)));
            let smaller = single(number(a).min(number(b)));
            if a.is_nan() && b.is_nan() {
                assert!(larger.is_nan() && smaller.is_nan());
            } else {
                assert!(larger == a.max(b), "max({}, {}) = {}", a, b, larger);
                assert!(smaller == a.min(b), "min({}, {}) = {}", a, b, smaller);
            }
        }
    }
}

#[test]
fn clamp_brings_into_the_unit_range() {
    let zero = Real::zero();
    let one = Real::one();
    assert_eq!(number(-3.0).clamp(zero, one).to_bits(), 0.0f32.to_bits());
    assert_eq!(number(0.25).clamp(zero, one).to_bits(), 0.25f32.to_bits());
    assert_eq!(number(7.5).clamp(zero, one).to_bits(), 1.0f32.to_bits());
    assert_eq!(number(f32::INFINITY).clamp(zero, one).to_bits(), 1.0f32.to_bits());
    assert_eq!(number(f32::NEG_INFINITY).clamp(zero, one).to_bits(), 0.0f32.to_bits());
    assert!(single(number(f32::NAN).clamp(zero, one)).is_nan());
    for &a in samples().iter() {
        if !a.is_nan() {
            assert!(single(number(a).clamp(zero, one)) == a.clamp(0.0, 1.0));
        }
    }
}

#[test]
fn neg_flips_the_sign_and_nothing_else() {
    for &a in samples().iter() {
        assert_eq!(number(a).neg().to_bits(), (-a).to_bits());
    }
    assert_eq!(number(2.5).neg().neg().to_bits(), 2.5f32.to_bits());
}

#[test]
fn sums_and_products_come_from_the_unit() {
    let unit = Ieee;
    assert_eq!(sum(&unit, number(1.5), number(2.25)).to_bits(), 3.75f32.to_bits());
    assert_eq!(difference(&unit, number(1.5), number(2.25)).to_bits(), (-0.75f32).to_bits());
    assert_eq!(product(&unit, number(1.5), number(-2.0)).to_bits(), (-3.0f32).to_bits());
    assert_eq!(quotient(&unit, number(1.0), number(8.0)).to_bits(), 0.125f32.to_bits());
    assert_eq!(root(&unit, number(6.25)).to_bits(), 2.5f32.to_bits());
    assert_eq!(power(&unit, number(2.0), number(10.0)).to_bits(), 1024.0f32.to_bits());
}

#[test]
fn multiply_add_rounds_the_product_first() {
    let unit = Ieee;
    let a = 1.0e-8f32;
    let b = 1.0f32 + f32::EPSILON;
    let c = 1.0f32 - f32::EPSILON;
    let expected = a + b * c;
    assert_eq!(multiply_add(&unit, number(a), number(b), number(c)).to_bits(), expected.to_bits());
    assert_eq!(multiply_add(&unit, number(1.0), number(2.0), number(3.0)).to_bits(), 7.0f32.to_bits());
}

#[test]
fn truncation_drops_the_fraction() {
    assert_eq!(number(1501.75).truncate(), 1501);
    assert_eq!(number(-2.9).truncate(), -2);
    assert_eq!(number(0.999).truncate(), 0);
    assert_eq!(number(-0.999).truncate(), 0);
    assert_eq!(number(1.0).truncate(), 1);
    assert_eq!(number(-1.0).truncate(), -1);
    assert_eq!(number(255.99).truncate(), 255);
    assert_eq!(number(16_777_216.0).truncate(), 16_777_216);
    assert_eq!(number(16_777_215.0).truncate(), 16_777_215);
    assert_eq!(number(8_388_607.5).truncate(), 8_388_607);
}

#[test]
fn truncation_stops_at_the_ends_of_the_integers() {
    assert_eq!(number(3.0e9).truncate(), i32::MAX);
    assert_eq!(number(-3.0e9).truncate(), i32::MIN);
    assert_eq!(number(2_147_483_648.0).truncate(), i32::MAX);
    assert_eq!(number(-2_147_483_648.0).truncate(), i32::MIN);
    assert_eq!(number(2_147_483_520.0).truncate(), 2_147_483_520);
    assert_eq!(number(-2_147_483_520.0).truncate(), -2_147_483_520);
    assert_eq!(number(f32::INFINITY).truncate(), i32::MAX);
    assert_eq!(number(f32::NEG_INFINITY).truncate(), i32::MIN);
    assert_eq!(number(f32::MAX).truncate(), i32::MAX);
}

#[test]
fn truncation_of_nothing_and_of_what_is_no_number_is_zero() {
    assert_eq!(number(0.0).truncate(), 0);
    assert_eq!(number(-0.0).truncate(), 0);
    assert_eq!(number(f32::NAN).truncate(), 0);
    assert_eq!(Real::from_bits(0xffc0_0001).truncate(), 0);
    assert_eq!(number(f32::MIN_POSITIVE).truncate(), 0);
    assert_eq!(Real::from_bits(1).truncate(), 0);
    assert_eq!(Real::from_bits(0x8000_0001).truncate(), 0);
}

#[test]
fn truncation_agrees_with_the_machine_on_many_bit_patterns() {
    let mut bits: u32 = 0x0123_4567;
    for _ in 0..200_000 {
        bits = bits.wrapping_mul(1_664_525).wrapping_add(1_013_904_223);
        assert_eq!(Real::from_bits(bits).truncate(), f32::from_bits(bits) as i32, "bits {bits:#x}");
    }
    for exponent in 0u32..256 {
        for fraction in [0u32, 1, 0x40_0000, 0x7f_ffff] {
            for sign in [0u32, 0x8000_0000] {
                let bits = sign | (exponent << 23) | fraction;
                assert_eq!(Real::from_bits(bits).truncate(), f32::from_bits(bits) as i32);
            }
        }
    }
}

#[test]
fn small_integers_are_singles_themselves() {
    for n in 0u64..5000 {
        assert_eq!(Real::from_integer(n).to_bits(), (n as f32).to_bits());
    }
    assert_eq!(single(Real::from_integer(1600)), 1600.0);
    assert_eq!(single(Real::from_integer(16_777_215)), 16_777_215.0);
    assert_eq!(single(Real::from_integer(16_777_216)), 16_777_216.0);
    assert_eq!(Real::from_integer(0).to_bits(), 0);
}

#[test]
fn large_integers_go_to_the_nearest_single() {
    // Beyond two to the 24th only every second integer is a single.
    assert_eq!(single(Real::from_integer(16_777_217)), 16_777_216.0);
    assert_eq!(single(Real::from_integer(16_777_218)), 16_777_218.0);
    assert_eq!(single(Real::from_integer(16_777_219)), 16_777_220.0);
    assert_eq!(single(Real::from_integer(16_777_221)), 16_777_220.0);
    // Midway, the even significand is taken: downwards here, upwards there.
    assert_eq!(single(Real::from_integer(33_554_434)), 33_554_432.0);
    assert_eq!(single(Real::from_integer(33_554_438)), 33_554_440.0);
    assert_eq!(single(Real::from_integer(1 << 33)), 8_589_934_592.0);
    assert_eq!(Real::from_integer(u64::MAX).to_bits(), (u64::MAX as f32).to_bits());
    assert_eq!(Real::from_integer(u64::MAX - (1 << 39)).to_bits(), 0x5f7f_ffff);
    assert_eq!(Real::from_integer(u64::MAX - (1 << 39) + 1).to_bits(), 0x5f80_0000);
}

#[test]
fn conversion_agrees_with_the_machine_on_many_integers() {
    let mut n: u64 = 0x0123_4567_89ab_cdef;
    for _ in 0..200_000 {
        n = n.wrapping_mul(6_364_136_223_846_793_005).wrapping_add(1_442_695_040_888_963_407);
        for shift in [0u32, 8, 16, 24, 32, 39, 40, 41, 48] {
            let m = n >> shift;
            assert_eq!(Real::from_integer(m).to_bits(), (m as f32).to_bits(), "{m}");
        }
    }
    for bit in 0..64u32 {
        for around in [-2i64, -1, 0, 1, 2] {
            let m = (1u64 << bit).wrapping_add(around as u64);
            assert_eq!(Real::from_integer(m).to_bits(), (m as f32).to_bits(), "{m}");
            let half = m.wrapping_add(1u64 << bit.saturating_sub(25));
            assert_eq!(Real::from_integer(half).to_bits(), (half as f32).to_bits(), "{half}");
        }
    }
}
