//! A mirrored direction is as long as it was.
//!
//! At a surface a ray goes on in the direction `dir - normal * dot(dir,
//! normal) * 2`.  Where the normal is of length one and no step has to
//! round, that is the direction turned around at the surface, and as long
//! as before.

use crate::exact::{
    is_faithful, is_held, lemma_named_numbers, lemma_true_difference, lemma_true_product,
    lemma_true_sum,
};
use crate::math::{is_dot, Vector};
use crate::render::tracer::is_mirrored;
use crate::scalar::{is_difference, is_product, is_sum, Arithmetic, Real, TWO_BITS};
use vstd::prelude::*;

verus! {

/// Whether `v` is finite in each of its three numbers.
pub open spec fn is_finite_vector(v: Vector) -> bool {
    v.x.is_finite() && v.y.is_finite() && v.z.is_finite()
}

/// Whether a number can hold the true result of every step of mirroring
/// the direction `(dx, dy, dz)` at a surface with the normal `(nx, ny,
/// nz)`.
pub open spec fn mirroring_is_held(
    dx: real,
    dy: real,
    dz: real,
    nx: real,
    ny: real,
    nz: real,
) -> bool {
    let along = dx * nx + dy * ny + dz * nz;
    &&& is_held(dx * nx) && is_held(dy * ny) && is_held(dz * nz)
    &&& is_held(dx * nx + dy * ny) && is_held(along)
    &&& is_held(nx * along) && is_held(ny * along) && is_held(nz * along)
    &&& is_held(nx * along * (2 as real)) && is_held(ny * along * (2 as real)) && is_held(
        nz * along * (2 as real),
    )
    &&& is_held(dx - nx * along * (2 as real)) && is_held(dy - ny * along * (2 as real))
        && is_held(dz - nz * along * (2 as real))
}

/// One number of the mirrored direction.
#[verifier::spinoff_prover]
proof fn lemma_mirrored_part<A: Arithmetic>(
    unit: &A,
    d: Real,
    n: Real,
    along: Real,
    scaled: Real,
    doubled: Real,
    out: Real,
)
    requires
        is_faithful(unit),
        d.is_finite() && n.is_finite() && along.is_finite(),
        is_held(n.value() * along.value()),
        is_held(n.value() * along.value() * (2 as real)),
        is_held(d.value() - n.value() * along.value() * (2 as real)),
        is_product(unit, n, along, scaled),
        is_product(unit, scaled, Real { bits: TWO_BITS }, doubled),
        is_difference(unit, d, doubled, out),
    ensures
        out.is_finite(),
        out.value() == d.value() - n.value() * along.value() * (2 as real),
{
    lemma_named_numbers();
    let two = Real { bits: TWO_BITS };
    let na = n.value() * along.value();
    lemma_true_product(unit, n, along, scaled, na);
    assert(scaled.value() * two.value() == na * (2 as real)) by (nonlinear_arith)
        requires
            scaled.value() == na,
            two.value() == 2 as real,
    ;
    lemma_true_product(unit, scaled, two, doubled, na * (2 as real));
    lemma_true_difference(unit, d, doubled, out, d.value() - na * (2 as real));
}

/// The arithmetic of a mirror: a vector less twice its part along a normal
/// of length one is as long as the vector.
#[verifier::spinoff_prover]
proof fn lemma_mirror_terms(
    dx: real,
    dy: real,
    dz: real,
    nx: real,
    ny: real,
    nz: real,
    a: real,
    ox: real,
    oy: real,
    oz: real,
)
    requires
        nx * nx + ny * ny + nz * nz == 1 as real,
        a == dx * nx + dy * ny + dz * nz,
        ox == dx - nx * a * (2 as real),
        oy == dy - ny * a * (2 as real),
        oz == dz - nz * a * (2 as real),
    ensures
        ox * ox + oy * oy + oz * oz == dx * dx + dy * dy + dz * dz,
        ox * nx + oy * ny + oz * nz == -a,
{
    let four = 4 as real;
    let nn = nx * nx + ny * ny + nz * nz;
    let dn = dx * nx + dy * ny + dz * nz;
    assert(ox * ox == dx * dx - four * a * (dx * nx) + four * (a * a) * (nx * nx))
        by (nonlinear_arith)
        requires
            ox == dx - nx * a * (2 as real),
            four == 4 as real,
    ;
    assert(oy * oy == dy * dy - four * a * (dy * ny) + four * (a * a) * (ny * ny))
        by (nonlinear_arith)
        requires
            oy == dy - ny * a * (2 as real),
            four == 4 as real,
    ;
    assert(oz * oz == dz * dz - four * a * (dz * nz) + four * (a * a) * (nz * nz))
        by (nonlinear_arith)
        requires
            oz == dz - nz * a * (2 as real),
            four == 4 as real,
    ;
    assert(four * a * (dx * nx) + four * a * (dy * ny) + four * a * (dz * nz) == four * a * dn)
        by (nonlinear_arith)
        requires
            dn == dx * nx + dy * ny + dz * nz,
    ;
    assert(four * (a * a) * (nx * nx) + four * (a * a) * (ny * ny) + four * (a * a) * (nz * nz)
        == four * (a * a) * nn) by (nonlinear_arith)
        requires
            nn == nx * nx + ny * ny + nz * nz,
    ;
    assert(four * a * dn == four * (a * a) * nn) by (nonlinear_arith)
        requires
            dn == a,
            nn == 1 as real,
    ;
    assert(ox * nx == dx * nx - (2 as real) * a * (nx * nx)) by (nonlinear_arith)
        requires
            ox == dx - nx * a * (2 as real),
    ;
    assert(oy * ny == dy * ny - (2 as real) * a * (ny * ny)) by (nonlinear_arith)
        requires
            oy == dy - ny * a * (2 as real),
    ;
    assert(oz * nz == dz * nz - (2 as real) * a * (nz * nz)) by (nonlinear_arith)
        requires
            oz == dz - nz * a * (2 as real),
    ;
    assert((2 as real) * a * (nx * nx) + (2 as real) * a * (ny * ny) + (2 as real) * a * (nz
        * nz) == (2 as real) * a) by (nonlinear_arith)
        requires
            nx * nx + ny * ny + nz * nz == 1 as real,
    ;
}

/// Mirroring keeps the length.  For a faithful unit, a normal of length
/// one and a direction for which no step of the mirroring has to round, the
/// mirrored direction is `dir` less twice its part along the normal: it is
/// as long as `dir`, and points as far out of the surface as `dir` pointed
/// into it.
#[verifier::spinoff_prover]
pub proof fn lemma_mirroring_keeps_length<A: Arithmetic>(
    unit: &A,
    dir: Vector,
    normal: Vector,
    out: Vector,
)
    requires
        is_faithful(unit),
        is_finite_vector(dir),
        is_finite_vector(normal),
        normal.x.value() * normal.x.value() + normal.y.value() * normal.y.value()
            + normal.z.value() * normal.z.value() == 1 as real,
        mirroring_is_held(
            dir.x.value(),
            dir.y.value(),
            dir.z.value(),
            normal.x.value(),
            normal.y.value(),
            normal.z.value(),
        ),
        is_mirrored(unit, dir, normal, out),
    ensures
        is_finite_vector(out),
        out.x.value() * out.x.value() + out.y.value() * out.y.value() + out.z.value()
            * out.z.value() == dir.x.value() * dir.x.value() + dir.y.value() * dir.y.value()
            + dir.z.value() * dir.z.value(),
        out.x.value() * normal.x.value() + out.y.value() * normal.y.value() + out.z.value()
            * normal.z.value() == -(dir.x.value() * normal.x.value() + dir.y.value()
            * normal.y.value() + dir.z.value() * normal.z.value()),
{
    let dx = dir.x.value();
    let dy = dir.y.value();
    let dz = dir.z.value();
    let nx = normal.x.value();
    let ny = normal.y.value();
    let nz = normal.z.value();
    let a = dx * nx + dy * ny + dz * nz;
    let (along, scaled, doubled) = choose|along: Real, scaled: Vector, doubled: Vector|
        #![trigger is_dot(unit, dir, normal, along), is_product(unit, normal.x, along, scaled.x), is_product(unit, scaled.x, Real { bits: TWO_BITS }, doubled.x)]
        {
            &&& is_dot(unit, dir, normal, along)
            &&& is_product(unit, normal.x, along, scaled.x)
            &&& is_product(unit, normal.y, along, scaled.y)
            &&& is_product(unit, normal.z, along, scaled.z)
            &&& is_product(unit, scaled.x, Real { bits: TWO_BITS }, doubled.x)
            &&& is_product(unit, scaled.y, Real { bits: TWO_BITS }, doubled.y)
            &&& is_product(unit, scaled.z, Real { bits: TWO_BITS }, doubled.z)
            &&& is_difference(unit, dir.x, doubled.x, out.x)
            &&& is_difference(unit, dir.y, doubled.y, out.y)
            &&& is_difference(unit, dir.z, doubled.z, out.z)
        };
    let (px, py, pz, s) = choose|px: Real, py: Real, pz: Real, s: Real|
        #![trigger is_product(unit, dir.x, normal.x, px), is_product(unit, dir.y, normal.y, py), is_product(unit, dir.z, normal.z, pz), is_sum(unit, px, py, s)]
        is_product(unit, dir.x, normal.x, px) && is_product(unit, dir.y, normal.y, py)
            && is_product(unit, dir.z, normal.z, pz) && is_sum(unit, px, py, s) && is_sum(
            unit,
            s,
            pz,
            along,
        );
    lemma_true_product(unit, dir.x, normal.x, px, dx * nx);
    lemma_true_product(unit, dir.y, normal.y, py, dy * ny);
    lemma_true_product(unit, dir.z, normal.z, pz, dz * nz);
    lemma_true_sum(unit, px, py, s, dx * nx + dy * ny);
    lemma_true_sum(unit, s, pz, along, a);
    lemma_mirrored_part(unit, dir.x, normal.x, along, scaled.x, doubled.x, out.x);
    lemma_mirrored_part(unit, dir.y, normal.y, along, scaled.y, doubled.y, out.y);
    lemma_mirrored_part(unit, dir.z, normal.z, along, scaled.z, doubled.z, out.z);
    lemma_mirror_terms(
        dx,
        dy,
        dz,
        nx,
        ny,
        nz,
        a,
        out.x.value(),
        out.y.value(),
        out.z.value(),
    );
}

} // verus!
