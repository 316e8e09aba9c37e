//! What surfaces are made of: what becomes of a ray that meets one.
//!
//! A material that scatters light needs a direction drawn at random.  It
//! draws none itself: whoever asks it hands one over, of length one.

use crate::color::Color;
use crate::math::{is_dot, Point, Ray, Vector};
use crate::render::spheres::is_normalized;
use crate::scalar::{
    difference, is_difference, is_product, is_root, is_sum, product, root, Arithmetic, Real,
    ONE_BITS, TWO_BITS, ZERO_BITS,
};
use vstd::prelude::*;

verus! {

/// What becomes of a ray that meets a surface.
pub enum RayInteractionResult {
    /// The ray ends here with this color.
    Colored(Color),
    /// The ray goes on as `ray`; what it brings back counts by `coef`, and
    /// `offset` is added to it.
    Reflected { ray: Ray, coef: Color, offset: Color },
}

/// What a surface is made of.
pub trait Material<A: Arithmetic> {
    /// What becomes of `ray`, which meets the surface at `poi`, where the
    /// surface has the normal `normal`.  `scatter` is a direction of length
    /// one, drawn at random.
    fn interact_with_ray(
        &self,
        unit: &A,
        ray: &Ray,
        poi: Point,
        normal: Vector,
        scatter: Vector,
    ) -> RayInteractionResult;
}

/// `r` is what `unit` gave for `a + b`, number by number.
pub open spec fn is_vector_sum<A: Arithmetic>(unit: &A, a: Vector, b: Vector, r: Vector) -> bool {
    &&& is_sum(unit, a.x, b.x, r.x)
    &&& is_sum(unit, a.y, b.y, r.y)
    &&& is_sum(unit, a.z, b.z, r.z)
}

/// `r` is what `unit` gave for `(dir - 2 * dot(dir, unit_normal) *
/// unit_normal) + scatter * fuzzyness`, where `unit_normal` is `normal`
/// over its own length: `dir` mirrored at the surface and blurred.
pub open spec fn is_blurred_mirror<A: Arithmetic>(
    unit: &A,
    dir: Vector,
    normal: Vector,
    scatter: Vector,
    fuzzyness: Real,
    r: Vector,
) -> bool {
    exists|unit_normal: Vector, along: Real, twice: Real, back: Vector, mirrored: Vector, blur: Vector|
        #![trigger is_normalized(unit, normal, unit_normal), is_dot(unit, dir, unit_normal, along), is_product(unit, Real { bits: TWO_BITS }, along, twice), is_vector_sum(unit, mirrored, blur, r), is_product(unit, twice, unit_normal.x, back.x)]
        {
            &&& is_normalized(unit, normal, unit_normal)
            &&& is_dot(unit, dir, unit_normal, along)
            &&& is_product(unit, Real { bits: TWO_BITS }, along, twice)
            &&& is_product(unit, twice, unit_normal.x, back.x)
            &&& is_product(unit, twice, unit_normal.y, back.y)
            &&& is_product(unit, twice, unit_normal.z, back.z)
            &&& is_difference(unit, dir.x, back.x, mirrored.x)
            &&& is_difference(unit, dir.y, back.y, mirrored.y)
            &&& is_difference(unit, dir.z, back.z, mirrored.z)
            &&& is_product(unit, scatter.x, fuzzyness, blur.x)
            &&& is_product(unit, scatter.y, fuzzyness, blur.y)
            &&& is_product(unit, scatter.z, fuzzyness, blur.z)
            &&& is_vector_sum(unit, mirrored, blur, r)
        }
}

/// A surface of one color that sends no ray on.
pub struct SolidColor {
    color: Color,
}

impl SolidColor {
    /// The color of the surface.
    pub closed spec fn color(self) -> Color {
        self.color
    }

    /// A surface of the given color.
    pub fn new(color: Color) -> (material: Self)
        ensures
            material.color() == color,
    {
        SolidColor { color }
    }
}

impl<A: Arithmetic> Material<A> for SolidColor {
    fn interact_with_ray(
        &self,
        unit: &A,
        ray: &Ray,
        poi: Point,
        normal: Vector,
        scatter: Vector,
    ) -> (result: RayInteractionResult)
        ensures
            result == RayInteractionResult::Colored(self.color()),
    {
        RayInteractionResult::Colored(self.color)
    }
}

/// A dull surface: it scatters every ray and lets `attenuation` of its
/// light through.
pub struct Diffuse {
    attenuation: Real,
}

impl Diffuse {
    /// The share of the light that the surface lets through.
    pub closed spec fn attenuation(self) -> Real {
        self.attenuation
    }

    /// A dull surface that lets `attenuation` of the light through.
    pub fn new(attenuation: Real) -> (material: Self)
        ensures
            material.attenuation() == attenuation,
    {
        Diffuse { attenuation }
    }
}

impl<A: Arithmetic> Material<A> for Diffuse {
    fn interact_with_ray(
        &self,
        unit: &A,
        ray: &Ray,
        poi: Point,
        normal: Vector,
        scatter: Vector,
    ) -> (result: RayInteractionResult)
        ensures
            result matches RayInteractionResult::Reflected { ray: next, coef, offset } && {
                &&& next.origin == poi
                &&& is_vector_sum(unit, normal, scatter, next.dir)
                &&& coef.is(self.attenuation(), self.attenuation(), self.attenuation())
                &&& offset.is(
                    Real { bits: ZERO_BITS },
                    Real { bits: ZERO_BITS },
                    Real { bits: ZERO_BITS },
                )
            },
    {
        let zero = Real::zero();
        RayInteractionResult::Reflected {
            ray: Ray { origin: poi, dir: normal.add(unit, scatter) },
            coef: Color::new(self.attenuation, self.attenuation, self.attenuation),
            offset: Color::new(zero, zero, zero),
        }
    }
}

/// A dull surface with a color of its own: `coef` of what is seen is that
/// color, the rest is what the scattered ray brings back.
pub struct ColorDiffuse {
    color: Color,
    coef: Real,
}

impl ColorDiffuse {
    /// The color of the surface.
    pub closed spec fn color(self) -> Color {
        self.color
    }

    /// The share of what is seen that is the color of the surface.
    pub closed spec fn coef(self) -> Real {
        self.coef
    }

    /// A dull surface of which `coef` of what is seen is `color`.  No more
    /// than all of it can be.
    pub fn new(color: Color, coef: Real) -> (material: Self)
        requires
            coef.at_most(Real { bits: ONE_BITS }),
        ensures
            material.color() == color,
            material.coef() == coef,
    {
        ColorDiffuse { color, coef }
    }
}

impl<A: Arithmetic> Material<A> for ColorDiffuse {
    fn interact_with_ray(
        &self,
        unit: &A,
        ray: &Ray,
        poi: Point,
        normal: Vector,
        scatter: Vector,
    ) -> (result: RayInteractionResult)
        ensures
            result matches RayInteractionResult::Reflected { ray: next, coef, offset } && {
                &&& next.origin == poi
                &&& is_vector_sum(unit, normal, scatter, next.dir)
                &&& is_difference(unit, Real { bits: ONE_BITS }, self.coef(), coef.red())
                &&& is_difference(unit, Real { bits: ONE_BITS }, self.coef(), coef.green())
                &&& is_difference(unit, Real { bits: ONE_BITS }, self.coef(), coef.blue())
                &&& is_product(unit, self.coef(), self.color().red(), offset.red())
                &&& is_product(unit, self.coef(), self.color().green(), offset.green())
                &&& is_product(unit, self.coef(), self.color().blue(), offset.blue())
            },
    {
        let one = Real::one();
        RayInteractionResult::Reflected {
            ray: Ray { origin: poi, dir: normal.add(unit, scatter) },
            coef: Color::new(
                difference(unit, one, self.coef),
                difference(unit, one, self.coef),
                difference(unit, one, self.coef),
            ),
            offset: self.color.mul(unit, self.coef),
        }
    }
}

/// A mirror, tinted by `attenuate` and blurred by `fuzzyness`: 0 is a
/// perfect mirror.
pub struct Metal {
    attenuate: Color,
    fuzzyness: Real,
}

impl Metal {
    /// The tint of the mirror.
    pub closed spec fn attenuate(self) -> Color {
        self.attenuate
    }

    /// How much the mirror blurs, from zero to one.
    pub closed spec fn fuzzyness(self) -> Real {
        self.fuzzyness
    }

    /// A mirror tinted by `attenuate` that blurs by `fuzzyness`, which lies
    /// from zero to one.
    pub fn new(attenuate: Color, fuzzyness: Real) -> (material: Self)
        requires
            (Real { bits: ZERO_BITS }).at_most(fuzzyness),
            fuzzyness.at_most(Real { bits: ONE_BITS }),
        ensures
            material.attenuate() == attenuate,
            material.fuzzyness() == fuzzyness,
    {
        Self { attenuate, fuzzyness }
    }
}

impl<A: Arithmetic> Material<A> for Metal {
    fn interact_with_ray(
        &self,
        unit: &A,
        ray: &Ray,
        poi: Point,
        normal: Vector,
        scatter: Vector,
    ) -> (result: RayInteractionResult)
        ensures
            result matches RayInteractionResult::Reflected { ray: next, coef, offset } && {
                &&& next.origin == poi
                &&& is_blurred_mirror(unit, ray.dir, normal, scatter, self.fuzzyness(), next.dir)
                &&& coef == self.attenuate()
                &&& offset.is(
                    Real { bits: ZERO_BITS },
                    Real { bits: ZERO_BITS },
                    Real { bits: ZERO_BITS },
                )
            },
    {
        let square = normal.dot(unit, normal);
        let length = root(unit, square);
        let unit_normal = normal.div(unit, length);
        let along = ray.dir.dot(unit, unit_normal);
        let twice = product(unit, Real::two(), along);
        let back = Vector::new(
            product(unit, twice, unit_normal.x),
            product(unit, twice, unit_normal.y),
            product(unit, twice, unit_normal.z),
        );
        let mirrored = ray.dir.sub(unit, back);
        let blur = scatter.mul(unit, self.fuzzyness);
        let reflection_dir = mirrored.add(unit, blur);
        let zero = Real::zero();
        proof {
            assert(is_dot(unit, normal, normal, square));
            assert(is_root(unit, square, length));
            assert(is_normalized(unit, normal, unit_normal));
            assert(is_dot(unit, ray.dir, unit_normal, along));
            assert(is_product(unit, Real { bits: TWO_BITS }, along, twice));
            assert(is_vector_sum(unit, mirrored, blur, reflection_dir));
            assert(is_product(unit, twice, unit_normal.x, back.x));
        }
        RayInteractionResult::Reflected {
            ray: Ray { origin: poi, dir: reflection_dir },
            coef: self.attenuate,
            offset: Color::new(zero, zero, zero),
        }
    }
}

} // verus!
