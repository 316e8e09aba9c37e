use ray_ten::lanes;
use ray_ten::math::{
    splat_reals, update_reals_if, Axis, Directions, Point, Points, Rays, Reals, LANES,
};
use ray_ten::scalar::{Arithmetic, Real};

struct Ieee;

impl Arithmetic for Ieee {
    fn add(&self, a: Real, b: Real) -> Real {
        number(single(a) + single(b))
    }

    fn sub(&self, a: Real, b: Real) -> Real {
        number(single(a) - single(b))
    }

    fn mul(&self, a: Real, b: Real) -> Real {
        number(single(a) * single(b))
    }

    fn div(&self, a: Real, b: Real) -> Real {
        number(single(a) / single(b))
    }

    fn sqrt(&self, a: Real) -> Real {
        number(single(a).sqrt())
    }

    fn powf(&self, a: Real, b: Real) -> Real {
        number(single(a).powf(single(b)))
    }
}

fn number(x: f32) -> Real {
    Real::from_bits(x.to_bits())
}

fn single(x: Real) -> f32 {
    f32::from_bits(x.to_bits())
}

fn batch(values: [f32; LANES]) -> Reals {
    let mut r = [Real::zero(); LANES];
    for i in 0..LANES {
        r[i] = number(values[i]);
    }
    r
}

fn singles(values: Reals) -> [f32; LANES] {
    let mut r = [0.0f32; LANES];
    for i in 0..LANES {
        r[i] = single(values[i]);
    }
    r
}

fn bits(values: Reals) -> [u32; LANES] {
    let mut r = [0u32; LANES];
    for i in 0..LANES {
        r[i] = values[i].to_bits();
    }
    r
}

const A: [f32; LANES] = [1.0, -2.5, 0.0, 1.0e-3, 7.0, -0.0, 1.0e30, 3.0];
const B: [f32; LANES] = [2.0, 0.5, -4.0, 3.0, 0.0, 9.0, 1.0e30, -3.0];
const C: [f32; LANES] = [0.5, 0.25, 8.0, -1.0, 2.0, 2.0, 2.0, 1.0e-3];

fn points() -> Points {
    Points::new(batch(A), batch(B), batch(C))
}

#[test]
fn there_are_eight_lanes() {
    assert_eq!(LANES, 8);
    assert_eq!(lanes::LANES, 8);
}

#[test]
fn splat_fills_every_lane() {
    assert_eq!(singles(splat_reals(number(1.25))), [1.25; LANES]);
    assert_eq!(singles(lanes::splat(number(-7.0))), [-7.0; LANES]);
    let p = Points::splat(number(1.0), number(2.0), number(3.0));
    assert_eq!(singles(p.xs), [1.0; LANES]);
    assert_eq!(singles(p.ys), [2.0; LANES]);
    assert_eq!(singles(p.zs), [3.0; LANES]);
    let q = Points::from_single(Point::new(number(4.0), number(5.0), number(6.0)));
    assert_eq!(singles(q.xs), [4.0; LANES]);
    assert_eq!(singles(q.ys), [5.0; LANES]);
    assert_eq!(singles(q.zs), [6.0; LANES]);
}

#[test]
fn lane_arithmetic_is_lane_by_lane() {
    let unit = Ieee;
    let sum = lanes::plus(&unit, batch(A), batch(B));
    let difference = lanes::minus(&unit, batch(A), batch(B));
    let product = lanes::times(&unit, batch(A), batch(B));
    let quotient = lanes::over(&unit, batch(A), batch(B));
    let roots = lanes::sqrt(&unit, batch(B));
    let both = lanes::plus_times(&unit, batch(A), batch(B), batch(C));
    for i in 0..LANES {
        assert_eq!(sum[i].to_bits(), (A[i] + B[i]).to_bits());
        assert_eq!(difference[i].to_bits(), (A[i] - B[i]).to_bits());
        assert_eq!(product[i].to_bits(), (A[i] * B[i]).to_bits());
        assert_eq!(quotient[i].to_bits(), (A[i] / B[i]).to_bits());
        assert_eq!(roots[i].to_bits(), B[i].sqrt().to_bits());
        assert_eq!(both[i].to_bits(), (A[i] + B[i] * C[i]).to_bits());
    }
}

#[test]
fn lanes_are_cut_down_to_integers() {
    let values = [1500.75f32, -2.5, 0.0, 3.0e9, -3.0e9, f32::NAN, 0.999, -0.999];
    let cut = lanes::truncate(batch(values));
    assert_eq!(cut, [1500, -2, 0, i32::MAX, i32::MIN, 0, 0, 0]);
}

#[test]
fn lane_comparisons_give_masks() {
    let less = lanes::lt(batch(A), batch(B));
    let greater = lanes::gt(batch(A), batch(B));
    let at_least = lanes::ge(batch(A), batch(B));
    let equal = lanes::eq(batch(A), batch(B));
    for i in 0..LANES {
        assert_eq!(less[i], A[i] < B[i]);
        assert_eq!(greater[i], A[i] > B[i]);
        assert_eq!(at_least[i], A[i] >= B[i]);
        assert_eq!(equal[i], A[i] == B[i]);
    }
    let mixed = [true, false, true, false, true, false, true, false];
    let other = [true, true, false, false, true, true, false, false];
    assert_eq!(
        lanes::both(mixed, other),
        [true, false, false, false, true, false, false, false]
    );
    assert!(lanes::any(mixed));
    assert!(!lanes::all(mixed));
    assert!(!lanes::any([false; LANES]));
    assert!(lanes::all([true; LANES]));
    let mut one = [false; LANES];
    one[7] = true;
    assert!(lanes::any(one));
    let mut but_one = [true; LANES];
    but_one[7] = false;
    assert!(!lanes::all(but_one));
}

#[test]
fn larger_smaller_and_clamp_work_lane_by_lane() {
    let larger = lanes::max(batch(A), batch(B));
    let smaller = lanes::min(batch(A), batch(B));
    let clamped = lanes::clamp(batch(A), number(0.0), number(1.0));
    for i in 0..LANES {
        assert!(single(larger[i]) == A[i].max(B[i]));
        assert!(single(smaller[i]) == A[i].min(B[i]));
        assert!(single(clamped[i]) == A[i].clamp(0.0, 1.0));
    }
}

#[test]
fn select_takes_the_set_lanes_and_leaves_the_others() {
    let mask = [true, false, false, true, true, false, true, false];
    let chosen = lanes::select(mask, batch(A), batch(B));
    for i in 0..LANES {
        assert_eq!(chosen[i].to_bits(), if mask[i] { A[i].to_bits() } else { B[i].to_bits() });
    }
    let mut values = batch(B);
    update_reals_if(&mut values, mask, batch(A));
    assert_eq!(bits(values), bits(chosen));
    let mut untouched = batch(B);
    update_reals_if(&mut untouched, [false; LANES], batch(A));
    assert_eq!(bits(untouched), bits(batch(B)));
}

#[test]
fn points_update_only_where_the_mask_is_set() {
    let mask = [false, true, false, false, true, true, false, false];
    let mut p = points();
    let with = Points::splat(number(10.0), number(20.0), number(30.0));
    p.update_if(mask, with);
    for i in 0..LANES {
        if mask[i] {
            assert_eq!(single(p.xs[i]), 10.0);
            assert_eq!(single(p.ys[i]), 20.0);
            assert_eq!(single(p.zs[i]), 30.0);
        } else {
            assert_eq!(p.xs[i].to_bits(), A[i].to_bits());
            assert_eq!(p.ys[i].to_bits(), B[i].to_bits());
            assert_eq!(p.zs[i].to_bits(), C[i].to_bits());
        }
    }
}

#[test]
fn points_get_axis_names_the_batches() {
    let p = points();
    assert_eq!(bits(*p.get_axis(Axis::XS)), bits(batch(A)));
    assert_eq!(bits(*p.get_axis(Axis::YS)), bits(batch(B)));
    assert_eq!(bits(*p.get_axis(Axis::ZS)), bits(batch(C)));
}

#[test]
fn points_arithmetic() {
    let unit = Ieee;
    let p = points();
    let q = Points::new(batch(C), batch(A), batch(B));
    let sum = p.add(&unit, q);
    let difference = p.sub(&unit, q);
    let product = p.mul(&unit, q);
    let scaled = p.scale(&unit, batch(C));
    let halved = p.scale_all(&unit, number(0.5));
    let divided = p.div(&unit, batch(B));
    let dot = p.dot(&unit, q);
    for i in 0..LANES {
        assert_eq!(sum.xs[i].to_bits(), (A[i] + C[i]).to_bits());
        assert_eq!(sum.ys[i].to_bits(), (B[i] + A[i]).to_bits());
        assert_eq!(sum.zs[i].to_bits(), (C[i] + B[i]).to_bits());
        assert_eq!(difference.xs[i].to_bits(), (A[i] - C[i]).to_bits());
        assert_eq!(difference.zs[i].to_bits(), (C[i] - B[i]).to_bits());
        assert_eq!(product.ys[i].to_bits(), (B[i] * A[i]).to_bits());
        assert_eq!(scaled.xs[i].to_bits(), (A[i] * C[i]).to_bits());
        assert_eq!(scaled.ys[i].to_bits(), (B[i] * C[i]).to_bits());
        assert_eq!(scaled.zs[i].to_bits(), (C[i] * C[i]).to_bits());
        assert_eq!(halved.ys[i].to_bits(), (B[i] * 0.5).to_bits());
        assert_eq!(divided.zs[i].to_bits(), (C[i] / B[i]).to_bits());
        assert_eq!(dot[i].to_bits(), (A[i] * C[i] + B[i] * A[i] + C[i] * B[i]).to_bits());
    }
}

#[test]
fn points_arithmetic_in_place() {
    let unit = Ieee;
    let q = Points::new(batch(C), batch(A), batch(B));
    let mut sum = points();
    sum.add_assign(&unit, q);
    assert_eq!(bits(sum.xs), bits(points().add(&unit, q).xs));
    let mut difference = points();
    difference.sub_assign(&unit, q);
    assert_eq!(bits(difference.ys), bits(points().sub(&unit, q).ys));
    let mut product = points();
    product.mul_assign(&unit, q);
    assert_eq!(bits(product.zs), bits(points().mul(&unit, q).zs));
    let mut scaled = points();
    scaled.scale_assign(&unit, batch(C));
    assert_eq!(bits(scaled.xs), bits(points().scale(&unit, batch(C)).xs));
    let mut halved = points();
    halved.scale_all_assign(&unit, number(0.5));
    assert_eq!(bits(halved.ys), bits(points().scale_all(&unit, number(0.5)).ys));
    let mut divided = points();
    divided.div_assign(&unit, batch(B));
    assert_eq!(bits(divided.zs), bits(points().div(&unit, batch(B)).zs));
}

#[test]
fn points_sqrt_and_normalize() {
    let unit = Ieee;
    let p = Points::new(
        batch([4.0, 0.25, 0.0, 2.0, 9.0, 1.0, 16.0, 1.0e-8]),
        batch([1.5, -0.5, 0.5, 1.0, 0.0, -0.0, 2.0, f32::INFINITY]),
        batch([0.1; LANES]),
    );
    let roots = p.sqrt(&unit);
    assert_eq!(single(roots.xs[0]), 2.0);
    assert_eq!(single(roots.xs[1]), 0.5);
    assert_eq!(single(roots.xs[4]), 3.0);
    let unit_range = p.normalize();
    assert_eq!(singles(unit_range.xs), [1.0, 0.25, 0.0, 1.0, 1.0, 1.0, 1.0, 1.0e-8]);
    assert_eq!(singles(unit_range.ys), [1.0, 0.0, 0.5, 1.0, 0.0, 0.0, 1.0, 1.0]);
    assert_eq!(singles(unit_range.zs), [0.1; LANES]);
}

#[test]
fn a_point_is_three_numbers() {
    let mut p = Point::new(number(1.0), number(2.0), number(3.0));
    assert_eq!(single(p.x()), 1.0);
    assert_eq!(single(p.y()), 2.0);
    assert_eq!(single(p.z()), 3.0);
    assert_eq!(single(p.get_axis(Axis::XS)), 1.0);
    assert_eq!(single(p.get_axis(Axis::YS)), 2.0);
    assert_eq!(single(p.get_axis(Axis::ZS)), 3.0);
    *p.x_mut() = number(10.0);
    *p.y_mut() = number(20.0);
    *p.z_mut() = number(30.0);
    assert_eq!((single(p.x()), single(p.y()), single(p.z())), (10.0, 20.0, 30.0));
    *p.get_axis_mut(Axis::YS) = number(-1.0);
    assert_eq!((single(p.x()), single(p.y()), single(p.z())), (10.0, -1.0, 30.0));
    *p.get_axis_mut(Axis::XS) = number(-2.0);
    *p.get_axis_mut(Axis::ZS) = number(-3.0);
    assert_eq!((single(p.x()), single(p.y()), single(p.z())), (-2.0, -1.0, -3.0));
}

#[test]
fn point_arithmetic() {
    let unit = Ieee;
    let p = Point::new(number(1.0), number(2.0), number(3.0));
    let q = Point::new(number(0.5), number(-4.0), number(8.0));
    let sum = p.add(&unit, q);
    assert_eq!((single(sum.x()), single(sum.y()), single(sum.z())), (1.5, -2.0, 11.0));
    let difference = p.sub(&unit, q);
    assert_eq!(
        (single(difference.x()), single(difference.y()), single(difference.z())),
        (0.5, 6.0, -5.0)
    );
    let scaled = p.mul(&unit, number(2.0));
    assert_eq!((single(scaled.x()), single(scaled.y()), single(scaled.z())), (2.0, 4.0, 6.0));
    let divided = p.div(&unit, number(4.0));
    assert_eq!(
        (single(divided.x()), single(divided.y()), single(divided.z())),
        (0.25, 0.5, 0.75)
    );
    assert_eq!(single(p.dot(&unit, q)), 0.5 - 8.0 + 24.0);
}

#[test]
fn rays_hold_origins_and_directions() {
    let rays = Rays::new(points(), Points::splat(number(0.0), number(0.0), number(-1.0)));
    assert_eq!(bits(rays.origins.xs), bits(batch(A)));
    assert_eq!(singles(rays.dirs.zs), [-1.0; LANES]);
}

#[test]
fn directions_add_up_to_a_push() {
    let unit = Ieee;
    let speed = number(2.0);
    let cases = [
        ((false, false, false, false), (0.0, 0.0)),
        ((true, false, false, false), (0.0, 2.0)),
        ((false, true, false, false), (0.0, -2.0)),
        ((false, false, true, false), (-2.0, 0.0)),
        ((false, false, false, true), (2.0, 0.0)),
        ((true, true, false, false), (0.0, 0.0)),
        ((false, false, true, true), (0.0, 0.0)),
        ((true, false, false, true), (2.0, 2.0)),
        ((false, true, true, false), (-2.0, -2.0)),
    ];
    for ((up, down, left, right), (x, y)) in cases {
        let directions = Directions::new(up, down, left, right);
        assert_eq!(
            (directions.up, directions.down, directions.left, directions.right),
            (up, down, left, right)
        );
        let push = directions.to_vector(&unit, speed);
        assert!(single(push.x()) == x);
        assert!(single(push.y()) == y);
        assert_eq!(push.z().to_bits(), 0);
    }
}
