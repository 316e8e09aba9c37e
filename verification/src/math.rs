//! Points, vectors and colors, one at a time and eight to a batch.
//!
//! A `Point` is three numbers.  `Points` holds eight of them, one per lane,
//! as three batches: every x together, every y, every z.  Positions,
//! directions, normals and colors share the two types; the first number is x
//! or red, the second y or green, the third z or blue.

use crate::lanes::{
    are_differences, are_products, are_quotients, are_roots, are_sums, clamp, minus, over, plus,
    select, splat, sqrt, times,
};
pub use crate::lanes::{Integers, Mask, Reals, LANES};
use crate::scalar::{
    difference, is_difference, is_product, is_quotient, is_sum, product, quotient, sum,
    Arithmetic, Real, ONE_BITS, ZERO_BITS,
};
use vstd::prelude::*;

verus! {

/// The batch that holds `x` in every lane.
pub fn splat_reals(x: Real) -> (r: Reals)
    ensures
        forall|i: int| 0 <= i < LANES ==> r[i] == x,
{
    splat(x)
}

/// Overwrites the lanes of `values` that `mask` selects with those of
/// `update_with`; the other lanes keep what they hold.
pub fn update_reals_if(values: &mut Reals, mask: Mask, update_with: Reals)
    ensures
        forall|i: int|
            0 <= i < LANES ==> #[trigger] final(values)[i] == if mask[i] {
                update_with[i]
            } else {
                old(values)[i]
            },
{
    *values = select(mask, update_with, *values);
}

/// One of the three axes, named as the batches of a [`Points`] are.
#[derive(Copy, Clone, Debug)]
pub enum Axis {
    XS,
    YS,
    ZS,
}

/// One point, vector or color.
#[derive(Clone, Copy, Debug)]
pub struct Point {
    pub x: Real,
    pub y: Real,
    pub z: Real,
}

/// A color: red, green and blue as x, y and z.
pub type Color = Point;

/// A direction, or a speed.
pub type Vector = Point;

/// `r` is what `unit` gave for the dot product of `a` and `b`, summed from
/// x to z.
pub open spec fn is_dot<A: Arithmetic>(unit: &A, a: Point, b: Point, r: Real) -> bool {
    exists|px: Real, py: Real, pz: Real, s: Real|
        #![trigger is_product(unit, a.x, b.x, px), is_product(unit, a.y, b.y, py), is_product(unit, a.z, b.z, pz), is_sum(unit, px, py, s)]
        is_product(unit, a.x, b.x, px) && is_product(unit, a.y, b.y, py) && is_product(
            unit,
            a.z,
            b.z,
            pz,
        ) && is_sum(unit, px, py, s) && is_sum(unit, s, pz, r)
}

impl Point {
    /// The number that lies along `axis`.
    pub open spec fn along(self, axis: Axis) -> Real {
        match axis {
            Axis::XS => self.x,
            Axis::YS => self.y,
            Axis::ZS => self.z,
        }
    }

    /// The point with `value` along `axis` and the rest of `self`.
    pub open spec fn with(self, axis: Axis, value: Real) -> Point {
        match axis {
            Axis::XS => Point { x: value, ..self },
            Axis::YS => Point { y: value, ..self },
            Axis::ZS => Point { z: value, ..self },
        }
    }

    /// The point `(x, y, z)`.
    pub fn new(x: Real, y: Real, z: Real) -> (p: Point)
        ensures
            p == (Point { x, y, z }),
    {
        Point { x, y, z }
    }

    /// The first number.
    pub fn x(&self) -> (r: Real)
        ensures
            r == self.x,
    {
        self.x
    }

    /// The second number.
    pub fn y(&self) -> (r: Real)
        ensures
            r == self.y,
    {
        self.y
    }

    /// The third number.
    pub fn z(&self) -> (r: Real)
        ensures
            r == self.z,
    {
        self.z
    }

    /// The number that lies along `axis`.
    pub fn get_axis(&self, axis: Axis) -> (r: Real)
        ensures
            r == self.along(axis),
    {
        match axis {
            Axis::XS => self.x,
            Axis::YS => self.y,
            Axis::ZS => self.z,
        }
    }

    /// The first number, to be changed.
    pub fn x_mut(&mut self) -> (r: &mut Real)
        ensures
            *r == old(self).x,
            *final(self) == old(self).with(Axis::XS, *final(r)),
    {
        &mut self.x
    }

    /// The second number, to be changed.
    pub fn y_mut(&mut self) -> (r: &mut Real)
        ensures
            *r == old(self).y,
            *final(self) == old(self).with(Axis::YS, *final(r)),
    {
        &mut self.y
    }

    /// The third number, to be changed.
    pub fn z_mut(&mut self) -> (r: &mut Real)
        ensures
            *r == old(self).z,
            *final(self) == old(self).with(Axis::ZS, *final(r)),
    {
        &mut self.z
    }

    /// The number that lies along `axis`, to be changed.
    pub fn get_axis_mut(&mut self, axis: Axis) -> (r: &mut Real)
        ensures
            *r == old(self).along(axis),
            *final(self) == old(self).with(axis, *final(r)),
    {
        match axis {
            Axis::XS => &mut self.x,
            Axis::YS => &mut self.y,
            Axis::ZS => &mut self.z,
        }
    }

    /// The dot product with `rhs`, summed from x to z.
    pub fn dot<A: Arithmetic>(&self, unit: &A, rhs: Point) -> (r: Real)
        ensures
            is_dot(unit, *self, rhs, r),
    {
        let px = product(unit, self.x, rhs.x);
        let py = product(unit, self.y, rhs.y);
        let pz = product(unit, self.z, rhs.z);
        let s = sum(unit, px, py);
        sum(unit, s, pz)
    }

    /// Number by number, the sum of the two.
    pub fn add<A: Arithmetic>(self, unit: &A, rhs: Point) -> (r: Point)
        ensures
            is_sum(unit, self.x, rhs.x, r.x),
            is_sum(unit, self.y, rhs.y, r.y),
            is_sum(unit, self.z, rhs.z, r.z),
    {
        Point {
            x: sum(unit, self.x, rhs.x),
            y: sum(unit, self.y, rhs.y),
            z: sum(unit, self.z, rhs.z),
        }
    }

    /// Number by number, `self` less `rhs`.
    pub fn sub<A: Arithmetic>(self, unit: &A, rhs: Point) -> (r: Point)
        ensures
            is_difference(unit, self.x, rhs.x, r.x),
            is_difference(unit, self.y, rhs.y, r.y),
            is_difference(unit, self.z, rhs.z, r.z),
    {
        Point {
            x: difference(unit, self.x, rhs.x),
            y: difference(unit, self.y, rhs.y),
            z: difference(unit, self.z, rhs.z),
        }
    }

    /// Every number times `rhs`.
    pub fn mul<A: Arithmetic>(self, unit: &A, rhs: Real) -> (r: Point)
        ensures
            is_product(unit, self.x, rhs, r.x),
            is_product(unit, self.y, rhs, r.y),
            is_product(unit, self.z, rhs, r.z),
    {
        Point {
            x: product(unit, self.x, rhs),
            y: product(unit, self.y, rhs),
            z: product(unit, self.z, rhs),
        }
    }

    /// Every number over `rhs`.
    pub fn div<A: Arithmetic>(self, unit: &A, rhs: Real) -> (r: Point)
        ensures
            is_quotient(unit, self.x, rhs, r.x),
            is_quotient(unit, self.y, rhs, r.y),
            is_quotient(unit, self.z, rhs, r.z),
    {
        Point {
            x: quotient(unit, self.x, rhs),
            y: quotient(unit, self.y, rhs),
            z: quotient(unit, self.z, rhs),
        }
    }
}

/// Eight points, vectors or colors: lane `i` holds `(xs[i], ys[i], zs[i])`.
#[derive(Copy, Clone, Debug)]
pub struct Points {
    pub xs: Reals,
    pub ys: Reals,
    pub zs: Reals,
}

/// Eight colors.
pub type Colors = Points;

/// Eight directions.
pub type Vectors = Points;

impl Points {
    /// The point that lane `i` holds.
    pub open spec fn lane(self, i: int) -> Point {
        Point { x: self.xs[i], y: self.ys[i], z: self.zs[i] }
    }

    /// The batch that lies along `axis`.
    pub open spec fn along(self, axis: Axis) -> Reals {
        match axis {
            Axis::XS => self.xs,
            Axis::YS => self.ys,
            Axis::ZS => self.zs,
        }
    }

    /// Every lane holds `point`.
    pub open spec fn all_lanes_are(self, point: Point) -> bool {
        forall|i: int| 0 <= i < LANES ==> #[trigger] self.lane(i) == point
    }

    /// The points with the given batches of numbers.
    pub fn new(xs: Reals, ys: Reals, zs: Reals) -> (r: Points)
        ensures
            r == (Points { xs, ys, zs }),
    {
        Points { xs, ys, zs }
    }

    /// The point `(x, y, z)` in every lane.
    pub fn splat(x: Real, y: Real, z: Real) -> (r: Points)
        ensures
            r.all_lanes_are(Point { x, y, z }),
    {
        let r = Points { xs: splat_reals(x), ys: splat_reals(y), zs: splat_reals(z) };
        assert forall|i: int| 0 <= i < LANES implies #[trigger] r.lane(i) == (Point { x, y, z }) by {
            assert(r.xs[i] == x && r.ys[i] == y && r.zs[i] == z);
        }
        r
    }

    /// `point` in every lane.
    pub fn from_single(point: Point) -> (r: Points)
        ensures
            r.all_lanes_are(point),
    {
        Self::splat(point.x(), point.y(), point.z())
    }

    /// The batch that lies along `axis`.
    pub fn get_axis(&self, axis: Axis) -> (r: &Reals)
        ensures
            *r == self.along(axis),
    {
        match axis {
            Axis::XS => &self.xs,
            Axis::YS => &self.ys,
            Axis::ZS => &self.zs,
        }
    }

    /// The square root of every number.
    pub fn sqrt<A: Arithmetic>(self, unit: &A) -> (r: Points)
        ensures
            are_roots(unit, self.xs, r.xs),
            are_roots(unit, self.ys, r.ys),
            are_roots(unit, self.zs, r.zs),
    {
        Points { xs: sqrt(unit, self.xs), ys: sqrt(unit, self.ys), zs: sqrt(unit, self.zs) }
    }

    /// Every number brought into `[0, 1]`.
    pub fn normalize(self) -> (r: Points)
        ensures
            forall|i: int|
                0 <= i < LANES ==> #[trigger] r.lane(i) == (Point {
                    x: self.xs[i].clamped(Real { bits: ZERO_BITS }, Real { bits: ONE_BITS }),
                    y: self.ys[i].clamped(Real { bits: ZERO_BITS }, Real { bits: ONE_BITS }),
                    z: self.zs[i].clamped(Real { bits: ZERO_BITS }, Real { bits: ONE_BITS }),
                }),
    {
        let zero = Real::zero();
        let one = Real::one();
        Points {
            xs: clamp(self.xs, zero, one),
            ys: clamp(self.ys, zero, one),
            zs: clamp(self.zs, zero, one),
        }
    }

    /// Lane by lane, the dot product with `rhs`.
    pub fn dot<A: Arithmetic>(&self, unit: &A, rhs: Points) -> (r: Reals)
        ensures
            forall|i: int| 0 <= i < LANES ==> is_dot(unit, self.lane(i), rhs.lane(i), #[trigger] r[i]),
    {
        let px = times(unit, self.xs, rhs.xs);
        let py = times(unit, self.ys, rhs.ys);
        let pz = times(unit, self.zs, rhs.zs);
        let s = plus(unit, px, py);
        let r = plus(unit, s, pz);
        assert forall|i: int| 0 <= i < LANES implies is_dot(
            unit,
            self.lane(i),
            rhs.lane(i),
            #[trigger] r[i],
        ) by {
            let a = self.lane(i);
            let b = rhs.lane(i);
            assert(is_product(unit, a.x, b.x, px[i]));
            assert(is_product(unit, a.y, b.y, py[i]));
            assert(is_product(unit, a.z, b.z, pz[i]));
            assert(is_sum(unit, px[i], py[i], s[i]));
            assert(is_sum(unit, s[i], pz[i], r[i]));
        }
        r
    }

    /// Overwrites the lanes that `mask` selects with those of `update_with`;
    /// the other lanes keep what they hold.
    pub fn update_if(&mut self, mask: Mask, update_with: Points)
        ensures
            forall|i: int|
                0 <= i < LANES ==> #[trigger] final(self).lane(i) == if mask[i] {
                    update_with.lane(i)
                } else {
                    old(self).lane(i)
                },
    {
        self.xs = select(mask, update_with.xs, self.xs);
        self.ys = select(mask, update_with.ys, self.ys);
        self.zs = select(mask, update_with.zs, self.zs);
    }

    /// Number by number and lane by lane, the sum of the two.
    pub fn add<A: Arithmetic>(self, unit: &A, rhs: Points) -> (r: Points)
        ensures
            are_sums(unit, self.xs, rhs.xs, r.xs),
            are_sums(unit, self.ys, rhs.ys, r.ys),
            are_sums(unit, self.zs, rhs.zs, r.zs),
    {
        Points {
            xs: plus(unit, self.xs, rhs.xs),
            ys: plus(unit, self.ys, rhs.ys),
            zs: plus(unit, self.zs, rhs.zs),
        }
    }

    /// Adds `rhs`, number by number and lane by lane.
    pub fn add_assign<A: Arithmetic>(&mut self, unit: &A, rhs: Points)
        ensures
            are_sums(unit, old(self).xs, rhs.xs, final(self).xs),
            are_sums(unit, old(self).ys, rhs.ys, final(self).ys),
            are_sums(unit, old(self).zs, rhs.zs, final(self).zs),
    {
        *self = self.add(unit, rhs);
    }

    /// Number by number and lane by lane, `self` less `rhs`.
    pub fn sub<A: Arithmetic>(self, unit: &A, rhs: Points) -> (r: Points)
        ensures
            are_differences(unit, self.xs, rhs.xs, r.xs),
            are_differences(unit, self.ys, rhs.ys, r.ys),
            are_differences(unit, self.zs, rhs.zs, r.zs),
    {
        Points {
            xs: minus(unit, self.xs, rhs.xs),
            ys: minus(unit, self.ys, rhs.ys),
            zs: minus(unit, self.zs, rhs.zs),
        }
    }

    /// Takes `rhs` away, number by number and lane by lane.
    pub fn sub_assign<A: Arithmetic>(&mut self, unit: &A, rhs: Points)
        ensures
            are_differences(unit, old(self).xs, rhs.xs, final(self).xs),
            are_differences(unit, old(self).ys, rhs.ys, final(self).ys),
            are_differences(unit, old(self).zs, rhs.zs, final(self).zs),
    {
        *self = self.sub(unit, rhs);
    }

    /// Number by number, the product with `rhs`: how one color tints another.
    pub fn mul<A: Arithmetic>(self, unit: &A, rhs: Points) -> (r: Points)
        ensures
            are_products(unit, self.xs, rhs.xs, r.xs),
            are_products(unit, self.ys, rhs.ys, r.ys),
            are_products(unit, self.zs, rhs.zs, r.zs),
    {
        Points {
            xs: times(unit, self.xs, rhs.xs),
            ys: times(unit, self.ys, rhs.ys),
            zs: times(unit, self.zs, rhs.zs),
        }
    }

    /// Tints by `rhs`, number by number and lane by lane.
    pub fn mul_assign<A: Arithmetic>(&mut self, unit: &A, rhs: Points)
        ensures
            are_products(unit, old(self).xs, rhs.xs, final(self).xs),
            are_products(unit, old(self).ys, rhs.ys, final(self).ys),
            are_products(unit, old(self).zs, rhs.zs, final(self).zs),
    {
        *self = self.mul(unit, rhs);
    }

    /// Each lane's three numbers times that lane of `rhs`.
    pub fn scale<A: Arithmetic>(self, unit: &A, rhs: Reals) -> (r: Points)
        ensures
            are_products(unit, self.xs, rhs, r.xs),
            are_products(unit, self.ys, rhs, r.ys),
            are_products(unit, self.zs, rhs, r.zs),
    {
        Points {
            xs: times(unit, self.xs, rhs),
            ys: times(unit, self.ys, rhs),
            zs: times(unit, self.zs, rhs),
        }
    }

    /// Scales each lane by that lane of `rhs`.
    pub fn scale_assign<A: Arithmetic>(&mut self, unit: &A, rhs: Reals)
        ensures
            are_products(unit, old(self).xs, rhs, final(self).xs),
            are_products(unit, old(self).ys, rhs, final(self).ys),
            are_products(unit, old(self).zs, rhs, final(self).zs),
    {
        *self = self.scale(unit, rhs);
    }

    /// Every number times `rhs`.
    pub fn scale_all<A: Arithmetic>(self, unit: &A, rhs: Real) -> (r: Points)
        ensures
            forall|i: int| 0 <= i < LANES ==> is_product(unit, self.xs[i], rhs, #[trigger] r.xs[i]),
            forall|i: int| 0 <= i < LANES ==> is_product(unit, self.ys[i], rhs, #[trigger] r.ys[i]),
            forall|i: int| 0 <= i < LANES ==> is_product(unit, self.zs[i], rhs, #[trigger] r.zs[i]),
    {
        let by = splat_reals(rhs);
        self.scale(unit, by)
    }

    /// Scales every number by `rhs`.
    pub fn scale_all_assign<A: Arithmetic>(&mut self, unit: &A, rhs: Real)
        ensures
            forall|i: int|
                0 <= i < LANES ==> is_product(
                    unit,
                    old(self).xs[i],
                    rhs,
                    #[trigger] final(self).xs[i],
                ),
            forall|i: int|
                0 <= i < LANES ==> is_product(
                    unit,
                    old(self).ys[i],
                    rhs,
                    #[trigger] final(self).ys[i],
                ),
            forall|i: int|
                0 <= i < LANES ==> is_product(
                    unit,
                    old(self).zs[i],
                    rhs,
                    #[trigger] final(self).zs[i],
                ),
    {
        *self = self.scale_all(unit, rhs);
    }

    /// Each lane's three numbers over that lane of `rhs`.
    pub fn div<A: Arithmetic>(self, unit: &A, rhs: Reals) -> (r: Points)
        ensures
            are_quotients(unit, self.xs, rhs, r.xs),
            are_quotients(unit, self.ys, rhs, r.ys),
            are_quotients(unit, self.zs, rhs, r.zs),
    {
        Points {
            xs: over(unit, self.xs, rhs),
            ys: over(unit, self.ys, rhs),
            zs: over(unit, self.zs, rhs),
        }
    }

    /// Divides each lane by that lane of `rhs`.
    pub fn div_assign<A: Arithmetic>(&mut self, unit: &A, rhs: Reals)
        ensures
            are_quotients(unit, old(self).xs, rhs, final(self).xs),
            are_quotients(unit, old(self).ys, rhs, final(self).ys),
            are_quotients(unit, old(self).zs, rhs, final(self).zs),
    {
        *self = self.div(unit, rhs);
    }
}

/// One ray: where it starts and where it heads.  The direction need not
/// have length one.
#[derive(Clone, Copy, Debug)]
pub struct Ray {
    pub origin: Point,
    pub dir: Vector,
}

/// Eight rays, one per lane: where each starts and where it heads.  A
/// direction need not have length one.
#[derive(Clone, Copy, Debug)]
pub struct Rays {
    pub origins: Points,
    pub dirs: Vectors,
}

impl Rays {
    /// The rays that start at `origins` and head along `dirs`.
    pub fn new(origins: Points, dirs: Points) -> (r: Rays)
        ensures
            r == (Rays { origins, dirs }),
    {
        Rays { origins, dirs }
    }
}

/// The four ways a paddle can be pushed; any of them may be held at once.
#[derive(Clone, Copy, Debug)]
pub struct Directions {
    pub up: bool,
    pub down: bool,
    pub left: bool,
    pub right: bool,
}

/// One where `held`, zero where not.
pub open spec fn indicator(held: bool) -> Real {
    if held {
        Real { bits: ONE_BITS }
    } else {
        Real { bits: ZERO_BITS }
    }
}

/// `r` is what `unit` gave for `speed * forth + (-speed) * back`.
pub open spec fn is_push<A: Arithmetic>(
    unit: &A,
    speed: Real,
    forth: bool,
    back: bool,
    r: Real,
) -> bool {
    exists|p: Real, q: Real|
        #![trigger is_product(unit, speed, indicator(forth), p), is_product(unit, speed.opposite(), indicator(back), q)]
        is_product(unit, speed, indicator(forth), p) && is_product(
            unit,
            speed.opposite(),
            indicator(back),
            q,
        ) && is_sum(unit, p, q, r)
}

fn indicate(held: bool) -> (r: Real)
    ensures
        r == indicator(held),
{
    if held {
        Real::one()
    } else {
        Real::zero()
    }
}

fn push<A: Arithmetic>(unit: &A, speed: Real, forth: bool, back: bool) -> (r: Real)
    ensures
        is_push(unit, speed, forth, back, r),
{
    let opposite = speed.neg();
    let p = product(unit, speed, indicate(forth));
    let q = product(unit, opposite, indicate(back));
    sum(unit, p, q)
}

impl Directions {
    /// The directions that are held.
    pub fn new(up: bool, down: bool, left: bool, right: bool) -> (r: Directions)
        ensures
            r == (Directions { up, down, left, right }),
    {
        Self { up, down, left, right }
    }

    /// The push that the held directions add up to: `speed` to the right
    /// and upwards, as much the other way for left and down, nothing along
    /// z.
    pub fn to_vector<A: Arithmetic>(self, unit: &A, speed: Real) -> (v: Vector)
        ensures
            is_push(unit, speed, self.right, self.left, v.x),
            is_push(unit, speed, self.up, self.down, v.y),
            v.z.bits == ZERO_BITS,
    {
        Vector::new(
            push(unit, speed, self.right, self.left),
            push(unit, speed, self.up, self.down),
            Real::zero(),
        )
    }
}

} // verus!
