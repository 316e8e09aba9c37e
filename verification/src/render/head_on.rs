//! A ray that aims at the centre of a sphere.
//!
//! Such a ray meets the sphere where it has gone the distance to the
//! centre less the radius.  A unit of arithmetic rounds, so the test of a
//! sphere can be held to that only as far as nothing had to be rounded on
//! the way: the laws here speak of a unit that gives a true result wherever
//! a number can hold it, and of rays for which every step's true result
//! can be held.  The direction need not be of length one: the test counts
//! the way of a ray in lengths of its direction.

use crate::exact::{
    is_faithful, is_held, lemma_larger_and_smaller_values, lemma_named_numbers,
    lemma_held_is_root_held, lemma_number_is_held, lemma_opposite_is_held, lemma_true_difference,
    lemma_true_product, lemma_true_quotient, lemma_true_root, lemma_true_sum,
    lemma_zero_and_one_are_held,
};
use crate::math::{is_dot, Color, Point, Reals, Vector, Vectors, LANES};
use crate::render::spheres::{
    all_negative, is_apart, is_cross, is_discriminant, is_discriminant_start, is_less_part,
    is_reduced, is_sphere_toi, is_toward, NormalRule,
};
use crate::render::tracer::{is_closer, Hit, RaysProjections, MIN_TOI_BITS};
use crate::scalar::{
    is_difference, is_product, is_quotient, is_root, is_sum, Arithmetic, Real, ZERO_BITS,
};
use vstd::prelude::*;

verus! {

/// Whether a number can hold the true result of every step of the test of
/// a sphere of radius `r` against a ray that aims at its centre: the ray has
/// the direction `(dx, dy, dz)` of length `len`, the centre lies `t` times
/// that direction before it, and the radius is `back` times the length.
pub open spec fn head_on_is_held(
    t: real,
    dx: real,
    dy: real,
    dz: real,
    len: real,
    r: real,
    back: real,
) -> bool {
    &&& is_held(t * dx) && is_held(t * dy) && is_held(t * dz)
    &&& is_held(dx * dx) && is_held(dy * dy) && is_held(dz * dz) && is_held(dx * dx + dy * dy)
    &&& is_held(len * len)
    &&& is_held(r * r) && is_held(r * r * (len * len)) && is_held(r * len)
    &&& is_held(t * dx * dy) && is_held(t * dx * dz) && is_held(t * dy * dz)
    &&& is_held(t * dx * dx) && is_held(t * dy * dy) && is_held(t * dz * dz)
    &&& is_held(t * dx * dx + t * dy * dy) && is_held(t * (len * len))
    &&& is_held(t * (len * len) + r * len) && is_held(t * (len * len) - r * len)
    &&& is_held(t + back) && is_held(t - back)
}

/// Whether the ray from `origin` along `dir`, a direction of length `len`,
/// has the point `center` before it, `t` times the direction away.
pub open spec fn aims_at(origin: Point, dir: Vector, center: Point, t: real, len: real) -> bool {
    &&& origin.x.is_finite() && origin.y.is_finite() && origin.z.is_finite()
    &&& dir.x.is_finite() && dir.y.is_finite() && dir.z.is_finite()
    &&& center.x.is_finite() && center.y.is_finite() && center.z.is_finite()
    &&& t > 0 as real
    &&& len > 0 as real
    &&& center.x.value() == origin.x.value() + t * dir.x.value()
    &&& center.y.value() == origin.y.value() + t * dir.y.value()
    &&& center.z.value() == origin.z.value() + t * dir.z.value()
    &&& dir.x.value() * dir.x.value() + dir.y.value() * dir.y.value() + dir.z.value()
        * dir.z.value() == len * len
}

/// One part of a cross product that comes to nothing takes nothing off
/// the discriminant: `p * q` and `u * v` are both `w`.
#[verifier::spinoff_prover]
proof fn lemma_less_nothing<A: Arithmetic>(
    unit: &A,
    d: Real,
    p: Real,
    q: Real,
    u: Real,
    v: Real,
    w: real,
    r: Real,
)
    requires
        is_faithful(unit),
        d.is_finite() && p.is_finite() && q.is_finite() && u.is_finite() && v.is_finite(),
        is_less_part(unit, d, p, q, u, v, r),
        p.value() * q.value() == w,
        u.value() * v.value() == w,
        is_held(w),
    ensures
        r.is_finite(),
        r.value() == d.value(),
{
    let nothing = 0 as real;
    lemma_zero_and_one_are_held();
    lemma_number_is_held(d);
    let part = choose|part: Real| #[trigger]
        is_cross(unit, p, q, u, v, part) && is_reduced(unit, d, part, r);
    let (m, n) = choose|m: Real, n: Real|
        #![trigger is_product(unit, p, q, m), is_product(unit, u, v, n)]
        is_product(unit, p, q, m) && is_product(unit, u, v, n) && is_difference(unit, m, n, part);
    lemma_true_product(unit, p, q, m, w);
    lemma_true_product(unit, u, v, n, w);
    lemma_true_difference(unit, m, n, part, nothing);
    let square = choose|square: Real| #[trigger]
        is_product(unit, part, part, square) && is_difference(unit, d, square, r);
    assert(part.value() * part.value() == nothing) by (nonlinear_arith)
        requires
            part.value() == nothing,
            nothing == 0 as real,
    ;
    lemma_true_product(unit, part, part, square, nothing);
    lemma_true_difference(unit, d, square, r, d.value());
}

/// From where the ray starts, the centre lies back along the direction.
#[verifier::spinoff_prover]
proof fn lemma_head_on_apart<A: Arithmetic>(
    unit: &A,
    origin: Point,
    dir: Vector,
    center: Point,
    t: real,
    delta: Vector,
)
    requires
        is_faithful(unit),
        origin.x.is_finite() && origin.y.is_finite() && origin.z.is_finite(),
        center.x.is_finite() && center.y.is_finite() && center.z.is_finite(),
        center.x.value() == origin.x.value() + t * dir.x.value(),
        center.y.value() == origin.y.value() + t * dir.y.value(),
        center.z.value() == origin.z.value() + t * dir.z.value(),
        is_held(t * dir.x.value()) && is_held(t * dir.y.value()) && is_held(t * dir.z.value()),
        is_apart(unit, origin, center, delta),
    ensures
        delta.x.is_finite() && delta.y.is_finite() && delta.z.is_finite(),
        delta.x.value() == -(t * dir.x.value()),
        delta.y.value() == -(t * dir.y.value()),
        delta.z.value() == -(t * dir.z.value()),
{
    lemma_opposite_is_held(t * dir.x.value());
    lemma_opposite_is_held(t * dir.y.value());
    lemma_opposite_is_held(t * dir.z.value());
    lemma_true_difference(unit, origin.x, center.x, delta.x, -(t * dir.x.value()));
    lemma_true_difference(unit, origin.y, center.y, delta.y, -(t * dir.y.value()));
    lemma_true_difference(unit, origin.z, center.z, delta.z, -(t * dir.z.value()));
}

/// The dot product of a direction with itself is its squared length.
#[verifier::spinoff_prover]
proof fn lemma_head_on_square<A: Arithmetic>(unit: &A, dir: Vector, len: real, square: Real)
    requires
        is_faithful(unit),
        dir.x.is_finite() && dir.y.is_finite() && dir.z.is_finite(),
        dir.x.value() * dir.x.value() + dir.y.value() * dir.y.value() + dir.z.value()
            * dir.z.value() == len * len,
        is_held(dir.x.value() * dir.x.value()),
        is_held(dir.y.value() * dir.y.value()),
        is_held(dir.z.value() * dir.z.value()),
        is_held(dir.x.value() * dir.x.value() + dir.y.value() * dir.y.value()),
        is_held(len * len),
        is_dot(unit, dir, dir, square),
    ensures
        square.is_finite(),
        square.value() == len * len,
{
    let xx = dir.x.value() * dir.x.value();
    let yy = dir.y.value() * dir.y.value();
    let zz = dir.z.value() * dir.z.value();
    let (px, py, pz, s) = choose|px: Real, py: Real, pz: Real, s: Real|
        #![trigger is_product(unit, dir.x, dir.x, px), is_product(unit, dir.y, dir.y, py), is_product(unit, dir.z, dir.z, pz), is_sum(unit, px, py, s)]
        is_product(unit, dir.x, dir.x, px) && is_product(unit, dir.y, dir.y, py) && is_product(
            unit,
            dir.z,
            dir.z,
            pz,
        ) && is_sum(unit, px, py, s) && is_sum(unit, s, pz, square);
    lemma_true_product(unit, dir.x, dir.x, px, xx);
    lemma_true_product(unit, dir.y, dir.y, py, yy);
    lemma_true_product(unit, dir.z, dir.z, pz, zz);
    lemma_true_sum(unit, px, py, s, xx + yy);
    lemma_true_sum(unit, s, pz, square, len * len);
}

/// The line of a ray that aims at the centre passes the centre at no
/// distance, so the first part of the cross product takes nothing off the
/// squared radius times the squared length.
#[verifier::spinoff_prover]
proof fn lemma_head_on_start<A: Arithmetic>(
    unit: &A,
    dir: Vector,
    delta: Vector,
    square: Real,
    radius: Real,
    t: real,
    len: real,
    d: Real,
)
    requires
        is_faithful(unit),
        dir.x.is_finite() && dir.y.is_finite() && dir.z.is_finite(),
        delta.x.is_finite() && delta.y.is_finite() && delta.z.is_finite(),
        delta.x.value() == -(t * dir.x.value()),
        delta.y.value() == -(t * dir.y.value()),
        square.is_finite() && square.value() == len * len,
        radius.is_finite(),
        is_held(radius.value() * radius.value()),
        is_held(radius.value() * radius.value() * (len * len)),
        is_held(t * dir.x.value() * dir.y.value()),
        is_discriminant_start(unit, dir, delta, square, radius, d),
    ensures
        d.is_finite(),
        d.value() == radius.value() * radius.value() * (len * len),
{
    let dx = dir.x.value();
    let dy = dir.y.value();
    let rr = radius.value() * radius.value();
    let ll = len * len;
    let (radius_squared, d0) = choose|radius_squared: Real, d0: Real|
        #![trigger is_product(unit, radius_squared, square, d0)]
        {
            &&& is_product(unit, radius, radius, radius_squared)
            &&& is_product(unit, radius_squared, square, d0)
            &&& is_less_part(unit, d0, dir.x, delta.y, dir.y, delta.x, d)
        };
    lemma_true_product(unit, radius, radius, radius_squared, rr);
    assert(radius_squared.value() * square.value() == rr * ll) by (nonlinear_arith)
        requires
            radius_squared.value() == rr,
            square.value() == ll,
    ;
    lemma_true_product(unit, radius_squared, square, d0, rr * ll);
    lemma_opposite_is_held(t * dx * dy);
    assert(dx * delta.y.value() == -(t * dx * dy)) by (nonlinear_arith)
        requires
            delta.y.value() == -(t * dy),
    ;
    assert(dy * delta.x.value() == -(t * dx * dy)) by (nonlinear_arith)
        requires
            delta.x.value() == -(t * dx),
    ;
    lemma_less_nothing(unit, d0, dir.x, delta.y, dir.y, delta.x, -(t * dx * dy), d);
}

/// The line of a ray that aims at the centre passes the centre at no
/// distance, so the discriminant is the squared radius times the squared
/// length, after each of its parts.
#[verifier::spinoff_prover]
proof fn lemma_head_on_discriminant<A: Arithmetic>(
    unit: &A,
    dir: Vector,
    delta: Vector,
    square: Real,
    radius: Real,
    t: real,
    len: real,
    terms: int,
    d: Real,
)
    requires
        is_faithful(unit),
        dir.x.is_finite() && dir.y.is_finite() && dir.z.is_finite(),
        delta.x.is_finite() && delta.y.is_finite() && delta.z.is_finite(),
        delta.x.value() == -(t * dir.x.value()),
        delta.y.value() == -(t * dir.y.value()),
        delta.z.value() == -(t * dir.z.value()),
        square.is_finite() && square.value() == len * len,
        radius.is_finite(),
        is_held(radius.value() * radius.value()),
        is_held(radius.value() * radius.value() * (len * len)),
        is_held(t * dir.x.value() * dir.y.value()),
        is_held(t * dir.x.value() * dir.z.value()),
        is_held(t * dir.y.value() * dir.z.value()),
        1 <= terms <= 3,
        is_discriminant(unit, dir, delta, square, radius, terms, d),
    ensures
        d.is_finite(),
        d.value() == radius.value() * radius.value() * (len * len),
{
    let dx = dir.x.value();
    let dy = dir.y.value();
    let dz = dir.z.value();
    let xz = -(t * dx * dz);
    let yz = -(t * dy * dz);
    lemma_opposite_is_held(t * dx * dz);
    lemma_opposite_is_held(t * dy * dz);
    assert(dx * delta.z.value() == xz && dy * delta.z.value() == yz) by (nonlinear_arith)
        requires
            delta.z.value() == -(t * dz),
            xz == -(t * dx * dz),
            yz == -(t * dy * dz),
    ;
    assert(dz * delta.x.value() == xz) by (nonlinear_arith)
        requires
            delta.x.value() == -(t * dx),
            xz == -(t * dx * dz),
    ;
    assert(dz * delta.y.value() == yz) by (nonlinear_arith)
        requires
            delta.y.value() == -(t * dy),
            yz == -(t * dy * dz),
    ;
    if terms == 1 {
        lemma_head_on_start(unit, dir, delta, square, radius, t, len, d);
    } else if terms == 2 {
        let d1 = choose|d1: Real| #[trigger]
            is_discriminant_start(unit, dir, delta, square, radius, d1) && is_less_part(
                unit,
                d1,
                dir.x,
                delta.z,
                dir.z,
                delta.x,
                d,
            );
        lemma_head_on_start(unit, dir, delta, square, radius, t, len, d1);
        lemma_less_nothing(unit, d1, dir.x, delta.z, dir.z, delta.x, xz, d);
    } else {
        let (d1, d2) = choose|d1: Real, d2: Real|
            #![trigger is_discriminant_start(unit, dir, delta, square, radius, d1), is_less_part(unit, d1, dir.x, delta.z, dir.z, delta.x, d2)]
            is_discriminant_start(unit, dir, delta, square, radius, d1) && is_less_part(
                unit,
                d1,
                dir.x,
                delta.z,
                dir.z,
                delta.x,
                d2,
            ) && is_less_part(unit, d2, dir.y, delta.z, dir.z, delta.y, d);
        lemma_head_on_start(unit, dir, delta, square, radius, t, len, d1);
        lemma_less_nothing(unit, d1, dir.x, delta.z, dir.z, delta.x, xz, d2);
        lemma_less_nothing(unit, d2, dir.y, delta.z, dir.z, delta.y, yz, d);
    }
}

/// The centre lies ahead along the ray by `t` times the squared length of
/// the direction.
#[verifier::spinoff_prover]
proof fn lemma_head_on_toward<A: Arithmetic>(
    unit: &A,
    dir: Vector,
    delta: Vector,
    t: real,
    len: real,
    toward: Real,
)
    requires
        is_faithful(unit),
        dir.x.is_finite() && dir.y.is_finite() && dir.z.is_finite(),
        delta.x.is_finite() && delta.y.is_finite() && delta.z.is_finite(),
        delta.x.value() == -(t * dir.x.value()),
        delta.y.value() == -(t * dir.y.value()),
        delta.z.value() == -(t * dir.z.value()),
        dir.x.value() * dir.x.value() + dir.y.value() * dir.y.value() + dir.z.value()
            * dir.z.value() == len * len,
        is_held(t * dir.x.value() * dir.x.value()),
        is_held(t * dir.y.value() * dir.y.value()),
        is_held(t * dir.z.value() * dir.z.value()),
        is_held(t * dir.x.value() * dir.x.value() + t * dir.y.value() * dir.y.value()),
        is_held(t * (len * len)),
        is_toward(unit, delta, dir, toward),
    ensures
        toward.is_finite(),
        toward.value() == t * (len * len),
{
    let dx = dir.x.value();
    let dy = dir.y.value();
    let dz = dir.z.value();
    let xx = t * dx * dx;
    let yy = t * dy * dy;
    let zz = t * dz * dz;
    let zero = Real { bits: ZERO_BITS };
    lemma_named_numbers();
    let (px, sx, py, sy, pz) = choose|px: Real, sx: Real, py: Real, sy: Real, pz: Real|
        #![trigger is_product(unit, delta.x, dir.x, px), is_difference(unit, Real { bits: ZERO_BITS }, px, sx), is_product(unit, delta.y, dir.y, py), is_difference(unit, sx, py, sy), is_product(unit, delta.z, dir.z, pz)]
        {
            &&& is_product(unit, delta.x, dir.x, px)
            &&& is_difference(unit, Real { bits: ZERO_BITS }, px, sx)
            &&& is_product(unit, delta.y, dir.y, py)
            &&& is_difference(unit, sx, py, sy)
            &&& is_product(unit, delta.z, dir.z, pz)
            &&& is_difference(unit, sy, pz, toward)
        };
    lemma_opposite_is_held(xx);
    lemma_opposite_is_held(yy);
    lemma_opposite_is_held(zz);
    assert(delta.x.value() * dx == -xx) by (nonlinear_arith)
        requires
            delta.x.value() == -(t * dx),
            xx == t * dx * dx,
    ;
    assert(delta.y.value() * dy == -yy) by (nonlinear_arith)
        requires
            delta.y.value() == -(t * dy),
            yy == t * dy * dy,
    ;
    assert(delta.z.value() * dz == -zz) by (nonlinear_arith)
        requires
            delta.z.value() == -(t * dz),
            zz == t * dz * dz,
    ;
    assert(xx + yy + zz == t * (len * len)) by (nonlinear_arith)
        requires
            dx * dx + dy * dy + dz * dz == len * len,
            xx == t * dx * dx,
            yy == t * dy * dy,
            zz == t * dz * dz,
    ;
    lemma_true_product(unit, delta.x, dir.x, px, -xx);
    lemma_true_difference(unit, zero, px, sx, xx);
    lemma_true_product(unit, delta.y, dir.y, py, -yy);
    lemma_true_difference(unit, sx, py, sy, xx + yy);
    lemma_true_product(unit, delta.z, dir.z, pz, -zz);
    lemma_true_difference(unit, sy, pz, toward, t * (len * len));
}

/// With the centre ahead and the squared radius times the squared length
/// for a discriminant, the nearer root is `t` less `back`, the radius in
/// lengths of the direction.
#[verifier::spinoff_prover]
proof fn lemma_head_on_root<A: Arithmetic>(
    unit: &A,
    toward: Real,
    square: Real,
    d: Real,
    radius: Real,
    t: real,
    len: real,
    back: real,
    toi: Real,
)
    requires
        is_faithful(unit),
        len > 0 as real,
        back * len == radius.value(),
        toward.is_finite() && toward.value() == t * (len * len),
        square.is_finite() && square.value() == len * len,
        d.is_finite() && d.value() == radius.value() * radius.value() * (len * len),
        radius.is_finite(),
        (0 as real) <= radius.value() < t * len,
        is_held(radius.value() * len),
        is_held(t * (len * len) + radius.value() * len),
        is_held(t * (len * len) - radius.value() * len),
        is_held(t + back),
        is_held(t - back),
        is_sphere_toi(unit, toward, square, d, toi),
    ensures
        toi.is_finite(),
        toi.value() == t - back,
{
    let r = radius.value();
    let ll = len * len;
    let rl = r * len;
    let zero = Real { bits: ZERO_BITS };
    lemma_named_numbers();
    let (root, far_sum, far, near_sum, near) = choose|
        root: Real,
        far_sum: Real,
        far: Real,
        near_sum: Real,
        near: Real,
    |
        #![trigger is_root(unit, d.larger(Real { bits: ZERO_BITS }), root), is_sum(unit, toward, root, far_sum), is_quotient(unit, far_sum, square, far), is_difference(unit, toward, root, near_sum), is_quotient(unit, near_sum, square, near)]
        {
            &&& is_root(unit, d.larger(Real { bits: ZERO_BITS }), root)
            &&& is_sum(unit, toward, root, far_sum)
            &&& is_quotient(unit, far_sum, square, far)
            &&& is_difference(unit, toward, root, near_sum)
            &&& is_quotient(unit, near_sum, square, near)
            &&& toi == far.larger(Real { bits: ZERO_BITS }).smaller(
                near.larger(Real { bits: ZERO_BITS }),
            )
        };
    lemma_head_on_terms(r, t, len, back);
    let under = d.larger(zero);
    lemma_larger_and_smaller_values(d, zero);
    assert(under.is_finite() && under.value() == r * r * ll);
    lemma_held_is_root_held(rl, under.value());
    lemma_true_root(unit, under, root);
    assert(root.value() == rl) by (nonlinear_arith)
        requires
            root.value() >= 0 as real,
            rl >= 0 as real,
            root.value() * root.value() == rl * rl,
    ;
    lemma_true_sum(unit, toward, root, far_sum, t * ll + rl);
    lemma_true_quotient(unit, far_sum, square, far, t + back);
    lemma_true_difference(unit, toward, root, near_sum, t * ll - rl);
    lemma_true_quotient(unit, near_sum, square, near, t - back);
    lemma_larger_and_smaller_values(far, zero);
    lemma_larger_and_smaller_values(near, zero);
    let far_up = far.larger(zero);
    let near_up = near.larger(zero);
    assert(far_up.is_finite() && near_up.is_finite());
    assert(far_up.value() == t + back && near_up.value() == t - back);
    lemma_larger_and_smaller_values(far_up, near_up);
}

/// The arithmetic of a ray that aims at the centre, with `back` the radius
/// in lengths of the direction.
#[verifier::spinoff_prover]
proof fn lemma_head_on_terms(r: real, t: real, len: real, back: real)
    requires
        len > 0 as real,
        back * len == r,
        (0 as real) <= r < t * len,
    ensures
        len * len > 0 as real,
        r * len >= 0 as real,
        (r * len) * (r * len) == r * r * (len * len),
        r * r * (len * len) >= 0 as real,
        back >= 0 as real,
        t - back > 0 as real,
        (t + back) * (len * len) == t * (len * len) + r * len,
        (t - back) * (len * len) == t * (len * len) - r * len,
        (t - back) * len == t * len - r,
{
    assert(len * len > 0 as real) by (nonlinear_arith)
        requires
            len > 0 as real,
    ;
    assert(r * len >= 0 as real) by (nonlinear_arith)
        requires
            len > 0 as real,
            r >= 0 as real,
    ;
    assert((r * len) * (r * len) == r * r * (len * len)) by (nonlinear_arith);
    assert(r * r * (len * len) >= 0 as real) by (nonlinear_arith)
        requires
            (r * len) * (r * len) == r * r * (len * len),
    ;
    assert(back >= 0 as real) by (nonlinear_arith)
        requires
            len > 0 as real,
            back * len == r,
            r >= 0 as real,
    ;
    assert(t - back > 0 as real) by (nonlinear_arith)
        requires
            len > 0 as real,
            back * len == r,
            r < t * len,
    ;
    assert(back * (len * len) == r * len) by (nonlinear_arith)
        requires
            back * len == r,
    ;
    assert((t + back) * (len * len) == t * (len * len) + r * len) by (nonlinear_arith)
        requires
            back * (len * len) == r * len,
    ;
    assert((t - back) * (len * len) == t * (len * len) - r * len) by (nonlinear_arith)
        requires
            back * (len * len) == r * len,
    ;
    assert((t - back) * len == t * len - r) by (nonlinear_arith)
        requires
            back * len == r,
    ;
}

/// A ray that aims at the centre of a sphere from outside meets it where
/// it has gone the distance to the centre less the radius.  The ray goes
/// `toi` times its direction, of length `len`; the centre lies `t` times
/// the direction away, and the radius is `back` times the length.  Where no
/// step of the test has to round, `toi` is exactly `t` less `back`, so that
/// `toi * len` is the distance `t * len` less the radius, and the
/// discriminant is not negative.
#[verifier::spinoff_prover]
pub proof fn lemma_head_on_distance<A: Arithmetic>(
    unit: &A,
    origin: Point,
    dir: Vector,
    center: Point,
    radius: Real,
    t: real,
    len: real,
    back: real,
    delta: Vector,
    square: Real,
    d: Real,
    toward: Real,
    toi: Real,
)
    requires
        is_faithful(unit),
        aims_at(origin, dir, center, t, len),
        radius.is_finite(),
        (0 as real) <= radius.value() < t * len,
        back * len == radius.value(),
        head_on_is_held(
            t,
            dir.x.value(),
            dir.y.value(),
            dir.z.value(),
            len,
            radius.value(),
            back,
        ),
        is_apart(unit, origin, center, delta),
        is_dot(unit, dir, dir, square),
        is_discriminant(unit, dir, delta, square, radius, 3, d),
        is_toward(unit, delta, dir, toward),
        is_sphere_toi(unit, toward, square, d, toi),
    ensures
        (Real { bits: ZERO_BITS }).at_most(d),
        toi.is_finite(),
        toi.value() == t - back,
        toi.value() * len == t * len - radius.value(),
{
    lemma_head_on_apart(unit, origin, dir, center, t, delta);
    lemma_head_on_square(unit, dir, len, square);
    lemma_head_on_discriminant(unit, dir, delta, square, radius, t, len, 3, d);
    lemma_head_on_toward(unit, dir, delta, t, len, toward);
    lemma_head_on_root(unit, toward, square, d, radius, t, len, back, toi);
    lemma_named_numbers();
    lemma_larger_and_smaller_values(Real { bits: ZERO_BITS }, d);
    lemma_head_on_terms(radius.value(), t, len, back);
}

/// In a batch that tests a sphere, a lane whose ray aims at the centre
/// from outside comes away with the sphere for its nearest meeting, at the
/// distance to the centre less the radius: where no step of the test has to
/// round, and where the meeting lies beyond the least distance and before
/// whatever the lane had met.
#[verifier::spinoff_prover]
pub proof fn lemma_sphere_met_head_on<A: Arithmetic>(
    unit: &A,
    rule: NormalRule,
    before: RaysProjections,
    after: RaysProjections,
    center: Point,
    radius: Real,
    color: Color,
    reflectance: Real,
    i: int,
    t: real,
    len: real,
    back: real,
)
    requires
        is_faithful(unit),
        0 <= i < LANES,
        before.tests_sphere_by(unit, rule, after, center, radius, color, reflectance),
        aims_at(before.rays.origins.lane(i), before.rays.dirs.lane(i), center, t, len),
        radius.is_finite(),
        (0 as real) <= radius.value() < t * len,
        back * len == radius.value(),
        head_on_is_held(
            t,
            before.rays.dirs.lane(i).x.value(),
            before.rays.dirs.lane(i).y.value(),
            before.rays.dirs.lane(i).z.value(),
            len,
            radius.value(),
            back,
        ),
        (Real { bits: MIN_TOI_BITS }).value() < t - back,
        !before.min_toi[i].is_nan(),
        t - back < before.min_toi[i].value(),
    ensures
        after.min_toi[i].is_finite(),
        after.min_toi[i].value() == t - back,
        after.min_toi[i].value() * len == t * len - radius.value(),
        after.winner(i).color == color,
        after.winner(i).reflectance == reflectance,
{
    let origin = before.rays.origins.lane(i);
    let dir = before.rays.dirs.lane(i);
    let least = Real { bits: MIN_TOI_BITS };
    let zero = Real { bits: ZERO_BITS };
    let (terms, deltas, squares, d, towards, toi, normals) = choose|
        terms: int,
        deltas: Vectors,
        squares: Reals,
        d: Reals,
        towards: Reals,
        toi: Reals,
        normals: Vectors,
    | #[trigger]
        before.sphere_test(
            unit,
            rule,
            after,
            center,
            radius,
            color,
            reflectance,
            terms,
            deltas,
            squares,
            d,
            towards,
            toi,
            normals,
        );
    let delta = deltas.lane(i);
    assert(is_discriminant(unit, dir, delta, squares[i], radius, terms, d[i]));
    lemma_head_on_apart(unit, origin, dir, center, t, delta);
    lemma_head_on_square(unit, dir, len, squares[i]);
    lemma_head_on_discriminant(unit, dir, delta, squares[i], radius, t, len, terms, d[i]);
    lemma_named_numbers();
    lemma_larger_and_smaller_values(zero, d[i]);
    lemma_head_on_terms(radius.value(), t, len, back);
    assert(zero.at_most(d[i]));
    assert(!all_negative(d));
    assert(is_sphere_toi(unit, towards[i], squares[i], d[i], toi[i]));
    lemma_head_on_toward(unit, dir, delta, t, len, towards[i]);
    lemma_head_on_root(unit, towards[i], squares[i], d[i], radius, t, len, back, toi[i]);
    lemma_larger_and_smaller_values(least, toi[i]);
    lemma_larger_and_smaller_values(toi[i], before.min_toi[i]);
    assert(least.magnitude() < 0x7f80_0000);
    assert(is_closer(toi[i], before.winner(i).toi));
    let met = Hit { toi: toi[i], color, normal: normals.lane(i), reflectance };
    assert(after.winner(i) == met);
}

} // verus!
