//! How a batch of rays is tested against a sphere.
//!
//! Whether the line of a ray comes within the radius is read off a
//! discriminant: the squared radius times the squared length of the
//! direction, less the squared cross product of the direction and the way
//! from the centre to where the ray starts.  Where it is not negative, the
//! ray meets the sphere at the smaller root of a quadratic, neither root
//! taken below zero.

use crate::lanes::{
    any, both, ge, gt, lt, max, min, minus, over, plus, plus_times, select, splat, sqrt, times,
};
use crate::math::{
    is_dot, update_reals_if, Color, Colors, Point, Points, Rays, Reals, Vector, Vectors, LANES,
};
use crate::render::tracer::{is_closer, nearer, Hit, RaysProjections, MIN_TOI_BITS};
use crate::scalar::{
    is_difference, is_multiply_add, is_product, is_quotient, is_root, is_sum, product,
    Arithmetic, Real, ZERO_BITS,
};
use vstd::prelude::*;

verus! {

impl RaysProjections {
    /// `after` is `self` once a sphere has been tested: the rays' lines come
    /// within its radius where `discriminant` is not negative, and meet it
    /// at `toi` with the normals `normals`.
    pub open spec fn meets_sphere(
        self,
        after: RaysProjections,
        discriminant: Reals,
        toi: Reals,
        normals: Vectors,
        color: Color,
        reflectance: Real,
    ) -> bool {
        &&& after.same_course(self)
        &&& forall|i: int|
            0 <= i < LANES ==> #[trigger] after.winner(i) == nearer(
                self.winner(i),
                Hit { toi: toi[i], color, normal: normals.lane(i), reflectance },
                (Real { bits: ZERO_BITS }).at_most(discriminant[i]),
            )
    }

    /// Takes a sphere into account.  A lane counts where `discriminant` is
    /// not negative; there the ray meets the sphere at `toi` with the
    /// normal in `normals`.
    pub fn record_sphere(
        &mut self,
        discriminant: Reals,
        toi: Reals,
        normals: Vectors,
        color: Color,
        reflectance: Real,
    )
        ensures
            old(self).meets_sphere(*final(self), discriminant, toi, normals, color, reflectance),
    {
        let mask = both(
            both(
                ge(discriminant, splat(Real::zero())),
                gt(toi, splat(Real::from_bits(MIN_TOI_BITS))),
            ),
            lt(toi, self.min_toi),
        );
        update_reals_if(&mut self.min_toi, mask, toi);
        self.obstacle_colors.update_if(mask, Colors::from_single(color));
        self.obstacle_normals.update_if(mask, normals);
        update_reals_if(&mut self.obstacle_reflectances, mask, splat(reflectance));
        proof {
            assert forall|i: int| 0 <= i < LANES implies #[trigger] self.winner(i) == nearer(
                old(self).winner(i),
                Hit { toi: toi[i], color, normal: normals.lane(i), reflectance },
                (Real { bits: ZERO_BITS }).at_most(discriminant[i]),
            ) by {
                assert(mask[i] == ((Real { bits: ZERO_BITS }).at_most(discriminant[i])
                    && is_closer(toi[i], old(self).min_toi[i])));
                assert(self.obstacle_colors.lane(i) == if mask[i] {
                    color
                } else {
                    old(self).obstacle_colors.lane(i)
                });
                assert(self.obstacle_normals.lane(i) == if mask[i] {
                    normals.lane(i)
                } else {
                    old(self).obstacle_normals.lane(i)
                });
            }
        }
    }
}

/// `r` is what `unit` gave for `p * q - u * v`.
pub open spec fn is_cross<A: Arithmetic>(
    unit: &A,
    p: Real,
    q: Real,
    u: Real,
    v: Real,
    r: Real,
) -> bool {
    exists|m: Real, n: Real|
        #![trigger is_product(unit, p, q, m), is_product(unit, u, v, n)]
        is_product(unit, p, q, m) && is_product(unit, u, v, n) && is_difference(unit, m, n, r)
}

/// `r` is what `unit` gave for `d - a * a`.
pub open spec fn is_reduced<A: Arithmetic>(unit: &A, d: Real, a: Real, r: Real) -> bool {
    exists|square: Real| #[trigger]
        is_product(unit, a, a, square) && is_difference(unit, d, square, r)
}

/// `r` is what `unit` gave for `d - (p * q - u * v)^2`: `d` less the
/// square of one part of a cross product.
pub open spec fn is_less_part<A: Arithmetic>(
    unit: &A,
    d: Real,
    p: Real,
    q: Real,
    u: Real,
    v: Real,
    r: Real,
) -> bool {
    exists|part: Real| #[trigger] is_cross(unit, p, q, u, v, part) && is_reduced(unit, d, part, r)
}

/// `d` is what `unit` gave for the squared radius times the squared length
/// `square` of `dir`, less the square of the first part of the cross
/// product of `dir` and `delta`.
pub open spec fn is_discriminant_start<A: Arithmetic>(
    unit: &A,
    dir: Vector,
    delta: Vector,
    square: Real,
    radius: Real,
    d: Real,
) -> bool {
    exists|radius_squared: Real, d0: Real|
        #![trigger is_product(unit, radius_squared, square, d0)]
        {
            &&& is_product(unit, radius, radius, radius_squared)
            &&& is_product(unit, radius_squared, square, d0)
            &&& is_less_part(unit, d0, dir.x, delta.y, dir.y, delta.x, d)
        }
}

/// `d` is what `unit` gave for the squared radius times the squared length
/// `square` of `dir`, less the squares of the first `terms` parts of the
/// cross product of `dir` and `delta`.  With all three parts it is not
/// negative exactly where the line of the ray comes within the radius.
pub open spec fn is_discriminant<A: Arithmetic>(
    unit: &A,
    dir: Vector,
    delta: Vector,
    square: Real,
    radius: Real,
    terms: int,
    d: Real,
) -> bool {
    if terms == 1 {
        is_discriminant_start(unit, dir, delta, square, radius, d)
    } else if terms == 2 {
        exists|d1: Real| #[trigger]
            is_discriminant_start(unit, dir, delta, square, radius, d1) && is_less_part(
                unit,
                d1,
                dir.x,
                delta.z,
                dir.z,
                delta.x,
                d,
            )
    } else {
        exists|d1: Real, d2: Real|
            #![trigger is_discriminant_start(unit, dir, delta, square, radius, d1), is_less_part(unit, d1, dir.x, delta.z, dir.z, delta.x, d2)]
            is_discriminant_start(unit, dir, delta, square, radius, d1) && is_less_part(
                unit,
                d1,
                dir.x,
                delta.z,
                dir.z,
                delta.x,
                d2,
            ) && is_less_part(unit, d2, dir.y, delta.z, dir.z, delta.y, d)
    }
}

/// `r` is what `unit` gave for `0 - delta.x * dir.x - delta.y * dir.y -
/// delta.z * dir.z`, taken from left to right: how far the centre of the
/// sphere lies along the ray, times the squared length of `dir`.
pub open spec fn is_toward<A: Arithmetic>(unit: &A, delta: Vector, dir: Vector, r: Real) -> bool {
    exists|px: Real, sx: Real, py: Real, sy: Real, pz: Real|
        #![trigger is_product(unit, delta.x, dir.x, px), is_difference(unit, Real { bits: ZERO_BITS }, px, sx), is_product(unit, delta.y, dir.y, py), is_difference(unit, sx, py, sy), is_product(unit, delta.z, dir.z, pz)]
        {
            &&& is_product(unit, delta.x, dir.x, px)
            &&& is_difference(unit, Real { bits: ZERO_BITS }, px, sx)
            &&& is_product(unit, delta.y, dir.y, py)
            &&& is_difference(unit, sx, py, sy)
            &&& is_product(unit, delta.z, dir.z, pz)
            &&& is_difference(unit, sy, pz, r)
        }
}

/// `toi` is the smaller root of the ray's quadratic, neither root taken
/// below zero: with `root` what `unit` gave for the square root of `d`
/// (of zero where `d` is below it), the roots are `(toward + root) /
/// square` and `(toward - root) / square`.
pub open spec fn is_sphere_toi<A: Arithmetic>(
    unit: &A,
    toward: Real,
    square: Real,
    d: Real,
    toi: Real,
) -> bool {
    exists|root: Real, far_sum: Real, far: Real, near_sum: Real, near: Real|
        #![trigger is_root(unit, d.larger(Real { bits: ZERO_BITS }), root), is_sum(unit, toward, root, far_sum), is_quotient(unit, far_sum, square, far), is_difference(unit, toward, root, near_sum), is_quotient(unit, near_sum, square, near)]
        {
            &&& is_root(unit, d.larger(Real { bits: ZERO_BITS }), root)
            &&& is_sum(unit, toward, root, far_sum)
            &&& is_quotient(unit, far_sum, square, far)
            &&& is_difference(unit, toward, root, near_sum)
            &&& is_quotient(unit, near_sum, square, near)
            &&& toi == far.larger(Real { bits: ZERO_BITS }).smaller(
                near.larger(Real { bits: ZERO_BITS }),
            )
        }
}

/// How the vector from the centre of a sphere to a point on it is brought
/// to length one: divided by the radius, or by its own length.
#[derive(Clone, Copy, Debug, PartialEq, Eq, Structural)]
pub enum NormalRule {
    ByRadius,
    ByLength,
}

/// `r` is what `unit` gave for `v` over its own length, the square root of
/// its dot product with itself.
pub open spec fn is_normalized<A: Arithmetic>(unit: &A, v: Vector, r: Vector) -> bool {
    exists|square: Real, length: Real|
        #![trigger is_dot(unit, v, v, square), is_root(unit, square, length)]
        {
            &&& is_dot(unit, v, v, square)
            &&& is_root(unit, square, length)
            &&& is_quotient(unit, v.x, length, r.x)
            &&& is_quotient(unit, v.y, length, r.y)
            &&& is_quotient(unit, v.z, length, r.z)
        }
}

/// `normal` is what `unit` gave for `(origin + dir * toi) - center`,
/// number by number, brought to length one as `rule` says: the direction
/// from the centre to the meeting point.
pub open spec fn is_sphere_normal<A: Arithmetic>(
    unit: &A,
    rule: NormalRule,
    origin: Point,
    dir: Vector,
    toi: Real,
    center: Point,
    radius: Real,
    normal: Vector,
) -> bool {
    exists|poi: Point, out: Vector|
        #![trigger is_multiply_add(unit, origin.x, dir.x, toi, poi.x), is_difference(unit, poi.x, center.x, out.x)]
        {
            &&& is_multiply_add(unit, origin.x, dir.x, toi, poi.x)
            &&& is_multiply_add(unit, origin.y, dir.y, toi, poi.y)
            &&& is_multiply_add(unit, origin.z, dir.z, toi, poi.z)
            &&& is_difference(unit, poi.x, center.x, out.x)
            &&& is_difference(unit, poi.y, center.y, out.y)
            &&& is_difference(unit, poi.z, center.z, out.z)
            &&& match rule {
                NormalRule::ByRadius => {
                    &&& is_quotient(unit, out.x, radius, normal.x)
                    &&& is_quotient(unit, out.y, radius, normal.y)
                    &&& is_quotient(unit, out.z, radius, normal.z)
                },
                NormalRule::ByLength => is_normalized(unit, out, normal),
            }
        }
}

/// Lane by lane, `p * q - u * v`.
pub(crate) fn cross_terms<A: Arithmetic>(unit: &A, p: Reals, q: Reals, u: Reals, v: Reals) -> (r: Reals)
    ensures
        forall|i: int| 0 <= i < LANES ==> is_cross(unit, p[i], q[i], u[i], v[i], #[trigger] r[i]),
{
    let m = times(unit, p, q);
    let n = times(unit, u, v);
    let r = minus(unit, m, n);
    proof {
        assert forall|i: int| 0 <= i < LANES implies is_cross(
            unit,
            p[i],
            q[i],
            u[i],
            v[i],
            #[trigger] r[i],
        ) by {
            assert(is_product(unit, p[i], q[i], m[i]));
            assert(is_product(unit, u[i], v[i], n[i]));
            assert(is_difference(unit, m[i], n[i], r[i]));
        }
    }
    r
}

/// Lane by lane, `d - a * a`.
pub(crate) fn reduced<A: Arithmetic>(unit: &A, d: Reals, a: Reals) -> (r: Reals)
    ensures
        forall|i: int| 0 <= i < LANES ==> is_reduced(unit, d[i], a[i], #[trigger] r[i]),
{
    let squares = times(unit, a, a);
    let r = minus(unit, d, squares);
    proof {
        assert forall|i: int| 0 <= i < LANES implies is_reduced(unit, d[i], a[i], #[trigger] r[i]) by {
            assert(is_product(unit, a[i], a[i], squares[i]));
            assert(is_difference(unit, d[i], squares[i], r[i]));
        }
    }
    r
}

/// Lane by lane, `0 - delta.x * dir.x - delta.y * dir.y - delta.z * dir.z`.
pub(crate) fn toward<A: Arithmetic>(unit: &A, deltas: Vectors, dirs: Vectors) -> (r: Reals)
    ensures
        forall|i: int| 0 <= i < LANES ==> is_toward(unit, deltas.lane(i), dirs.lane(i), #[trigger] r[i]),
{
    let zeros = splat(Real::zero());
    let px = times(unit, deltas.xs, dirs.xs);
    let sx = minus(unit, zeros, px);
    let py = times(unit, deltas.ys, dirs.ys);
    let sy = minus(unit, sx, py);
    let pz = times(unit, deltas.zs, dirs.zs);
    let r = minus(unit, sy, pz);
    proof {
        assert forall|i: int| 0 <= i < LANES implies is_toward(
            unit,
            deltas.lane(i),
            dirs.lane(i),
            #[trigger] r[i],
        ) by {
            let delta = deltas.lane(i);
            let dir = dirs.lane(i);
            assert(is_product(unit, delta.x, dir.x, px[i]));
            assert(is_difference(unit, zeros[i], px[i], sx[i]));
            assert(is_product(unit, delta.y, dir.y, py[i]));
            assert(is_difference(unit, sx[i], py[i], sy[i]));
            assert(is_product(unit, delta.z, dir.z, pz[i]));
            assert(is_difference(unit, sy[i], pz[i], r[i]));
        }
    }
    r
}

/// Lane by lane, the smaller root that is not below zero.
pub(crate) fn sphere_tois<A: Arithmetic>(unit: &A, towards: Reals, squares: Reals, d: Reals) -> (toi: Reals)
    ensures
        forall|i: int|
            0 <= i < LANES ==> is_sphere_toi(unit, towards[i], squares[i], d[i], #[trigger] toi[i]),
{
    let zeros = splat(Real::zero());
    let floored = max(d, zeros);
    let roots = sqrt(unit, floored);
    let far_sums = plus(unit, towards, roots);
    let far = over(unit, far_sums, squares);
    let near_sums = minus(unit, towards, roots);
    let near = over(unit, near_sums, squares);
    let t1s = max(far, zeros);
    let t2s = max(near, zeros);
    let toi = min(t1s, t2s);
    proof {
        assert forall|i: int| 0 <= i < LANES implies is_sphere_toi(
            unit,
            towards[i],
            squares[i],
            d[i],
            #[trigger] toi[i],
        ) by {
            let zero = Real { bits: ZERO_BITS };
            assert(zeros[i] == zero);
            assert(floored[i] == d[i].larger(zero));
            assert(is_root(unit, d[i].larger(zero), roots[i]));
            assert(is_sum(unit, towards[i], roots[i], far_sums[i]));
            assert(is_quotient(unit, far_sums[i], squares[i], far[i]));
            assert(is_difference(unit, towards[i], roots[i], near_sums[i]));
            assert(is_quotient(unit, near_sums[i], squares[i], near[i]));
            assert(t1s[i] == far[i].larger(zero));
            assert(t2s[i] == near[i].larger(zero));
            assert(toi[i] == t1s[i].smaller(t2s[i]));
        }
    }
    toi
}

/// Lane by lane, `v` over its own length.
pub(crate) fn normalized<A: Arithmetic>(unit: &A, v: Vectors) -> (r: Vectors)
    ensures
        forall|i: int| 0 <= i < LANES ==> is_normalized(unit, v.lane(i), #[trigger] r.lane(i)),
{
    let squares = v.dot(unit, v);
    let lengths = sqrt(unit, squares);
    let r = v.div(unit, lengths);
    proof {
        assert forall|i: int| 0 <= i < LANES implies is_normalized(
            unit,
            v.lane(i),
            #[trigger] r.lane(i),
        ) by {
            let from = v.lane(i);
            let to = r.lane(i);
            assert(is_dot(unit, from, from, squares[i]));
            assert(is_root(unit, squares[i], lengths[i]));
            assert(is_quotient(unit, from.x, lengths[i], to.x));
            assert(is_quotient(unit, from.y, lengths[i], to.y));
            assert(is_quotient(unit, from.z, lengths[i], to.z));
        }
    }
    r
}

/// Lane by lane, `(origin + dir * toi) - center` brought to length one.
pub(crate) fn sphere_normals<A: Arithmetic>(
    unit: &A,
    rule: NormalRule,
    rays: Rays,
    toi: Reals,
    center: Point,
    radius: Real,
) -> (normals: Vectors)
    ensures
        forall|i: int|
            0 <= i < LANES ==> is_sphere_normal(
                unit,
                rule,
                rays.origins.lane(i),
                rays.dirs.lane(i),
                toi[i],
                center,
                radius,
                #[trigger] normals.lane(i),
            ),
{
    let centers = Points::from_single(center);
    let pois = Points {
        xs: plus_times(unit, rays.origins.xs, rays.dirs.xs, toi),
        ys: plus_times(unit, rays.origins.ys, rays.dirs.ys, toi),
        zs: plus_times(unit, rays.origins.zs, rays.dirs.zs, toi),
    };
    let out = pois.sub(unit, centers);
    let radii = splat(radius);
    let normals = match rule {
        NormalRule::ByRadius => out.div(unit, radii),
        NormalRule::ByLength => normalized(unit, out),
    };
    proof {
        assert forall|i: int| 0 <= i < LANES implies is_sphere_normal(
            unit,
            rule,
            rays.origins.lane(i),
            rays.dirs.lane(i),
            toi[i],
            center,
            radius,
            #[trigger] normals.lane(i),
        ) by {
            let o = rays.origins.lane(i);
            let d = rays.dirs.lane(i);
            let poi = pois.lane(i);
            let from = out.lane(i);
            let n = normals.lane(i);
            assert(centers.lane(i) == center);
            assert(radii[i] == radius);
            assert(is_multiply_add(unit, o.x, d.x, toi[i], poi.x));
            assert(is_multiply_add(unit, o.y, d.y, toi[i], poi.y));
            assert(is_multiply_add(unit, o.z, d.z, toi[i], poi.z));
            assert(is_difference(unit, poi.x, center.x, from.x));
            assert(is_difference(unit, poi.y, center.y, from.y));
            assert(is_difference(unit, poi.z, center.z, from.z));
            match rule {
                NormalRule::ByRadius => {
                    assert(is_quotient(unit, from.x, radius, n.x));
                    assert(is_quotient(unit, from.y, radius, n.y));
                    assert(is_quotient(unit, from.z, radius, n.z));
                },
                NormalRule::ByLength => {
                    assert(is_normalized(unit, from, n));
                },
            }
        }
    }
    normals
}

/// `delta` is what `unit` gave for `origin - center`, number by number.
pub open spec fn is_apart<A: Arithmetic>(
    unit: &A,
    origin: Point,
    center: Point,
    delta: Vector,
) -> bool {
    &&& is_difference(unit, origin.x, center.x, delta.x)
    &&& is_difference(unit, origin.y, center.y, delta.y)
    &&& is_difference(unit, origin.z, center.z, delta.z)
}

/// No lane holds a number that is zero or more.
pub open spec fn all_negative(d: Reals) -> bool {
    forall|i: int| 0 <= i < LANES ==> !(Real { bits: ZERO_BITS }).at_most(#[trigger] d[i])
}

impl RaysProjections {
    /// Whether lane `i` takes the sphere for its nearest meeting, given the
    /// discriminant and the root of the test.
    pub open spec fn sphere_wins(self, d: Reals, toi: Reals, i: int) -> bool {
        (Real { bits: ZERO_BITS }).at_most(d[i]) && is_closer(toi[i], self.min_toi[i])
    }

    /// What a test against the sphere at `center` works out, lane by lane:
    /// `deltas` from the centre to where the rays start, the squared
    /// lengths `squares` of the directions, and the discriminant `d` as far
    /// as its first `terms` parts.
    pub open spec fn sphere_terms<A: Arithmetic>(
        self,
        unit: &A,
        center: Point,
        radius: Real,
        terms: int,
        deltas: Vectors,
        squares: Reals,
        d: Reals,
    ) -> bool {
        forall|i: int|
            0 <= i < LANES ==> {
                &&& is_apart(unit, self.rays.origins.lane(i), center, deltas.lane(i))
                &&& is_dot(unit, self.rays.dirs.lane(i), self.rays.dirs.lane(i), squares[i])
                &&& is_discriminant(
                    unit,
                    self.rays.dirs.lane(i),
                    deltas.lane(i),
                    squares[i],
                    radius,
                    terms,
                    #[trigger] d[i],
                )
            }
    }

    /// What a test against the sphere goes on to work out where some lane's
    /// discriminant is not negative: the roots `toi`, and the normals in
    /// the lanes that the sphere wins.
    pub open spec fn sphere_roots<A: Arithmetic>(
        self,
        unit: &A,
        rule: NormalRule,
        center: Point,
        radius: Real,
        deltas: Vectors,
        squares: Reals,
        d: Reals,
        towards: Reals,
        toi: Reals,
        normals: Vectors,
    ) -> bool {
        forall|i: int|
            0 <= i < LANES ==> {
                &&& is_toward(unit, deltas.lane(i), self.rays.dirs.lane(i), towards[i])
                &&& is_sphere_toi(unit, towards[i], squares[i], d[i], #[trigger] toi[i])
                &&& self.sphere_wins(d, toi, i) ==> is_sphere_normal(
                    unit,
                    rule,
                    self.rays.origins.lane(i),
                    self.rays.dirs.lane(i),
                    toi[i],
                    center,
                    radius,
                    normals.lane(i),
                )
            }
    }

    /// The test went on after the first `parts` parts of the discriminant:
    /// with those alone, some lane's discriminant was zero or more.
    pub open spec fn goes_on_after<A: Arithmetic>(
        self,
        unit: &A,
        center: Point,
        radius: Real,
        deltas: Vectors,
        squares: Reals,
        parts: int,
    ) -> bool {
        exists|early: Reals| #[trigger]
            self.sphere_terms(unit, center, radius, parts, deltas, squares, early)
                && !all_negative(early)
    }

    /// `after` is `self` once the sphere has been tested, with the given
    /// values worked out on the way.  The test stops, and changes nothing,
    /// as soon as no lane's discriminant is zero or more: after its first
    /// part, after its second, or when it is complete; `terms` is the
    /// number of parts that it came to.
    pub open spec fn sphere_test<A: Arithmetic>(
        self,
        unit: &A,
        rule: NormalRule,
        after: RaysProjections,
        center: Point,
        radius: Real,
        color: Color,
        reflectance: Real,
        terms: int,
        deltas: Vectors,
        squares: Reals,
        d: Reals,
        towards: Reals,
        toi: Reals,
        normals: Vectors,
    ) -> bool {
        &&& 1 <= terms <= 3
        &&& self.sphere_terms(unit, center, radius, terms, deltas, squares, d)
        &&& terms < 3 ==> all_negative(d)
        &&& terms >= 2 ==> self.goes_on_after(unit, center, radius, deltas, squares, 1)
        &&& terms >= 3 ==> self.goes_on_after(unit, center, radius, deltas, squares, 2)
        &&& if all_negative(d) {
            after == self
        } else {
            &&& self.sphere_roots(
                unit,
                rule,
                center,
                radius,
                deltas,
                squares,
                d,
                towards,
                toi,
                normals,
            )
            &&& self.meets_sphere(after, d, toi, normals, color, reflectance)
        }
    }

    /// `after` is `self` once the sphere at `center` has been tested, its
    /// normals brought to length one as `rule` says.
    pub open spec fn tests_sphere_by<A: Arithmetic>(
        self,
        unit: &A,
        rule: NormalRule,
        after: RaysProjections,
        center: Point,
        radius: Real,
        color: Color,
        reflectance: Real,
    ) -> bool {
        exists|
            terms: int,
            deltas: Vectors,
            squares: Reals,
            d: Reals,
            towards: Reals,
            toi: Reals,
            normals: Vectors,
        | #[trigger]
            self.sphere_test(
                unit,
                rule,
                after,
                center,
                radius,
                color,
                reflectance,
                terms,
                deltas,
                squares,
                d,
                towards,
                toi,
                normals,
            )
    }

    /// `after` is `self` once the sphere at `center` has been tested.
    pub open spec fn tests_sphere<A: Arithmetic>(
        self,
        unit: &A,
        after: RaysProjections,
        center: Point,
        radius: Real,
        color: Color,
        reflectance: Real,
    ) -> bool {
        self.tests_sphere_by(unit, NormalRule::ByRadius, after, center, radius, color, reflectance)
    }

    /// Tests the batch against the sphere of the given radius at
    /// `sphere_pos`.
    pub fn with_sphere<A: Arithmetic>(
        &mut self,
        unit: &A,
        sphere_pos: Point,
        sphere_radius: Real,
        color: Color,
        reflectance: Real,
    )
        ensures
            old(self).tests_sphere(
                unit,
                *final(self),
                sphere_pos,
                sphere_radius,
                color,
                reflectance,
            ),
    {
        self.with_sphere_by(
            unit,
            NormalRule::ByRadius,
            sphere_pos,
            sphere_radius,
            color,
            reflectance,
        );
    }

    /// Tests the batch against the sphere of the given radius at
    /// `sphere_pos`, with its normals brought to length one as `rule`
    /// says.
    pub fn with_sphere_by<A: Arithmetic>(
        &mut self,
        unit: &A,
        rule: NormalRule,
        sphere_pos: Point,
        sphere_radius: Real,
        color: Color,
        reflectance: Real,
    )
        ensures
            old(self).tests_sphere_by(
                unit,
                rule,
                *final(self),
                sphere_pos,
                sphere_radius,
                color,
                reflectance,
            ),
    {
        let centers = Points::from_single(sphere_pos);
        let dirs = self.rays.dirs;
        let deltas = self.rays.origins.sub(unit, centers);
        let squares = dirs.dot(unit, dirs);
        let radius_squared = product(unit, sphere_radius, sphere_radius);
        let radii_squared = splat(radius_squared);
        let zeros = splat(Real::zero());
        let d0 = times(unit, radii_squared, squares);
        let a = cross_terms(unit, dirs.xs, deltas.ys, dirs.ys, deltas.xs);
        let d1 = reduced(unit, d0, a);
        proof {
            assert forall|i: int| 0 <= i < LANES implies is_apart(
                unit,
                self.rays.origins.lane(i),
                sphere_pos,
                #[trigger] deltas.lane(i),
            ) by {
                assert(centers.lane(i) == sphere_pos);
                let o = self.rays.origins.lane(i);
                let delta = deltas.lane(i);
                assert(is_difference(unit, o.x, sphere_pos.x, delta.x));
                assert(is_difference(unit, o.y, sphere_pos.y, delta.y));
                assert(is_difference(unit, o.z, sphere_pos.z, delta.z));
            }
            assert forall|i: int| 0 <= i < LANES implies is_discriminant(
                unit,
                dirs.lane(i),
                deltas.lane(i),
                squares[i],
                sphere_radius,
                1,
                #[trigger] d1[i],
            ) by {
                let dir = dirs.lane(i);
                let delta = deltas.lane(i);
                assert(radii_squared[i] == radius_squared);
                assert(is_product(unit, radius_squared, squares[i], d0[i]));
                assert(is_cross(unit, dir.x, delta.y, dir.y, delta.x, a[i]));
                assert(is_reduced(unit, d0[i], a[i], d1[i]));
                assert(is_less_part(unit, d0[i], dir.x, delta.y, dir.y, delta.x, d1[i]));
            }
        }
        let mask1 = ge(d1, zeros);
        if !any(mask1) {
            proof {
                assert forall|i: int| 0 <= i < LANES implies !(Real { bits: ZERO_BITS }).at_most(
                    #[trigger] d1[i],
                ) by {
                    assert(!mask1[i]);
                }
                assert(self.sphere_test(
                    unit,
                    rule,
                    *self,
                    sphere_pos,
                    sphere_radius,
                    color,
                    reflectance,
                    1,
                    deltas,
                    squares,
                    d1,
                    d1,
                    d1,
                    deltas,
                ));
            }
            return ;
        }
        proof {
            let lane = choose|i: int| 0 <= i < LANES && mask1[i];
            assert(mask1[lane]);
            assert((Real { bits: ZERO_BITS }).at_most(d1[lane]));
            assert(!all_negative(d1));
            assert(self.sphere_terms(unit, sphere_pos, sphere_radius, 1, deltas, squares, d1));
            assert(self.goes_on_after(unit, sphere_pos, sphere_radius, deltas, squares, 1));
        }
        let b = cross_terms(unit, dirs.xs, deltas.zs, dirs.zs, deltas.xs);
        let d2 = reduced(unit, d1, b);
        proof {
            assert forall|i: int| 0 <= i < LANES implies is_discriminant(
                unit,
                dirs.lane(i),
                deltas.lane(i),
                squares[i],
                sphere_radius,
                2,
                #[trigger] d2[i],
            ) by {
                let dir = dirs.lane(i);
                let delta = deltas.lane(i);
                assert(is_discriminant(unit, dir, delta, squares[i], sphere_radius, 1, d1[i]));
                assert(is_cross(unit, dir.x, delta.z, dir.z, delta.x, b[i]));
                assert(is_reduced(unit, d1[i], b[i], d2[i]));
                assert(is_less_part(unit, d1[i], dir.x, delta.z, dir.z, delta.x, d2[i]));
            }
        }
        let mask2 = ge(d2, zeros);
        if !any(mask2) {
            proof {
                assert forall|i: int| 0 <= i < LANES implies !(Real { bits: ZERO_BITS }).at_most(
                    #[trigger] d2[i],
                ) by {
                    assert(!mask2[i]);
                }
                assert(self.sphere_test(
                    unit,
                    rule,
                    *self,
                    sphere_pos,
                    sphere_radius,
                    color,
                    reflectance,
                    2,
                    deltas,
                    squares,
                    d2,
                    d2,
                    d2,
                    deltas,
                ));
            }
            return ;
        }
        proof {
            let lane = choose|i: int| 0 <= i < LANES && mask2[i];
            assert(mask2[lane]);
            assert((Real { bits: ZERO_BITS }).at_most(d2[lane]));
            assert(!all_negative(d2));
            assert(self.sphere_terms(unit, sphere_pos, sphere_radius, 2, deltas, squares, d2));
            assert(self.goes_on_after(unit, sphere_pos, sphere_radius, deltas, squares, 2));
        }
        let c = cross_terms(unit, dirs.ys, deltas.zs, dirs.zs, deltas.ys);
        let d = reduced(unit, d2, c);
        proof {
            assert forall|i: int| 0 <= i < LANES implies is_discriminant(
                unit,
                dirs.lane(i),
                deltas.lane(i),
                squares[i],
                sphere_radius,
                3,
                #[trigger] d[i],
            ) by {
                let dir = dirs.lane(i);
                let delta = deltas.lane(i);
                assert(is_discriminant(unit, dir, delta, squares[i], sphere_radius, 1, d1[i]));
                assert(is_discriminant(unit, dir, delta, squares[i], sphere_radius, 2, d2[i]));
                assert(is_less_part(unit, d1[i], dir.x, delta.z, dir.z, delta.x, d2[i]));
                assert(is_cross(unit, dir.y, delta.z, dir.z, delta.y, c[i]));
                assert(is_reduced(unit, d2[i], c[i], d[i]));
                assert(is_less_part(unit, d2[i], dir.y, delta.z, dir.z, delta.y, d[i]));
            }
        }
        let mask = ge(d, zeros);
        if !any(mask) {
            proof {
                assert forall|i: int| 0 <= i < LANES implies !(Real { bits: ZERO_BITS }).at_most(
                    #[trigger] d[i],
                ) by {
                    assert(!mask[i]);
                }
                assert(self.sphere_test(
                    unit,
                    rule,
                    *self,
                    sphere_pos,
                    sphere_radius,
                    color,
                    reflectance,
                    3,
                    deltas,
                    squares,
                    d,
                    d,
                    d,
                    deltas,
                ));
            }
            return ;
        }
        let towards = toward(unit, deltas, dirs);
        let toi = sphere_tois(unit, towards, squares, d);
        let wins = both(
            both(mask, gt(toi, splat(Real::from_bits(MIN_TOI_BITS)))),
            lt(toi, self.min_toi),
        );
        let reached = select(wins, toi, self.min_toi);
        let normals = sphere_normals(unit, rule, self.rays, reached, sphere_pos, sphere_radius);
        proof {
            let witness = choose|i: int| 0 <= i < LANES && mask[i];
            assert(mask[witness]);
            assert((Real { bits: ZERO_BITS }).at_most(d[witness]));
            assert(!all_negative(d));
            assert forall|i: int|
                0 <= i < LANES && self.sphere_wins(d, toi, i) implies is_sphere_normal(
                unit,
                rule,
                self.rays.origins.lane(i),
                self.rays.dirs.lane(i),
                toi[i],
                sphere_pos,
                sphere_radius,
                normals.lane(i),
            ) by {
                assert(wins[i]);
                assert(reached[i] == toi[i]);
            }
        }
        let ghost before = *self;
        self.record_sphere(d, toi, normals, color, reflectance);
        proof {
            assert(before.sphere_test(
                unit,
                rule,
                *self,
                sphere_pos,
                sphere_radius,
                color,
                reflectance,
                3,
                deltas,
                squares,
                d,
                towards,
                toi,
                normals,
            ));
        }
    }
}

} // verus!
