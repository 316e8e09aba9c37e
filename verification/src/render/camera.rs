//! The camera: where the rays start and how a place in the image becomes a
//! direction.

use crate::math::{Point, Points, Ray, Rays, Reals, LANES};
use crate::scalar::{
    is_product, is_quotient, is_sum, quotient, sum, Arithmetic, Real, ONE_BITS, TWO_BITS,
    ZERO_BITS,
};
use crate::scene::MINUS_ONE_BITS;
use vstd::prelude::*;

verus! {

/// `d` is what `unit` gave for `base + x_axis * x + y_axis * y`, the terms
/// added from left to right.
pub open spec fn is_direction<A: Arithmetic>(
    unit: &A,
    base: Real,
    x_axis: Real,
    x: Real,
    y_axis: Real,
    y: Real,
    d: Real,
) -> bool {
    exists|p: Real, s: Real, q: Real|
        #![trigger is_product(unit, x_axis, x, p), is_sum(unit, base, p, s), is_product(unit, y_axis, y, q)]
        is_product(unit, x_axis, x, p) && is_sum(unit, base, p, s) && is_product(unit, y_axis, y, q)
            && is_sum(unit, s, q, d)
}

/// A pinhole camera.  The view port is a rectangle one unit in front of the
/// origin; `view_port_base` is its top left corner as seen from the origin,
/// and the two axes span it to the right and downwards.
pub struct Camera {
    origin: Point,
    view_port_base: Point,
    view_port_x_axis: Point,
    view_port_y_axis: Point,
}

impl Camera {
    /// Where the rays start.
    pub closed spec fn origin(self) -> Point {
        self.origin
    }

    /// From the origin to the top left corner of the view port.
    pub closed spec fn view_port_base(self) -> Point {
        self.view_port_base
    }

    /// From the left border of the view port to the right one.
    pub closed spec fn view_port_x_axis(self) -> Point {
        self.view_port_x_axis
    }

    /// From the top of the view port to its bottom.
    pub closed spec fn view_port_y_axis(self) -> Point {
        self.view_port_y_axis
    }

    /// The same view port: the camera may have moved, it has not turned.
    pub open spec fn same_view_port(self, other: Camera) -> bool {
        &&& self.view_port_base() == other.view_port_base()
        &&& self.view_port_x_axis() == other.view_port_x_axis()
        &&& self.view_port_y_axis() == other.view_port_y_axis()
    }

    /// The view port of the given `width` whose height is `height`, centred
    /// before the origin.
    pub open spec fn spans<A: Arithmetic>(self, unit: &A, width: Real, height: Real) -> bool {
        &&& is_quotient(unit, width.opposite(), Real { bits: TWO_BITS }, self.view_port_base().x)
        &&& is_quotient(unit, height, Real { bits: TWO_BITS }, self.view_port_base().y)
        &&& self.view_port_base().z.bits == MINUS_ONE_BITS
        &&& self.view_port_x_axis() == (Point {
            x: width,
            y: Real { bits: ZERO_BITS },
            z: Real { bits: ZERO_BITS },
        })
        &&& self.view_port_y_axis() == (Point {
            x: Real { bits: ZERO_BITS },
            y: height.opposite(),
            z: Real { bits: ZERO_BITS },
        })
    }

    /// A camera at `origin` that looks along `-z` through a view port
    /// `width` wide and, by what `unit` gave for `width / aspect_ratio`,
    /// that high.
    pub open spec fn is_at<A: Arithmetic>(
        self,
        unit: &A,
        origin: Point,
        aspect_ratio: Real,
        width: Real,
    ) -> bool {
        &&& self.origin() == origin
        &&& exists|height: Real| #[trigger]
            is_quotient(unit, width, aspect_ratio, height) && self.spans(unit, width, height)
    }

    /// A camera at `(1, -1, 0)` that looks along `-z` through a view port
    /// `width` wide and, by what `unit` gave for `width / aspect_ratio`,
    /// that high.
    pub open spec fn is_new<A: Arithmetic>(self, unit: &A, aspect_ratio: Real, width: Real) -> bool {
        self.is_at(
            unit,
            Point {
                x: Real { bits: ONE_BITS },
                y: Real { bits: MINUS_ONE_BITS },
                z: Real { bits: ZERO_BITS },
            },
            aspect_ratio,
            width,
        )
    }

    /// A camera at `(1, -1, 0)` that looks along `-z` through a view port
    /// `width` wide and `width / aspect_ratio` high.
    pub fn new<A: Arithmetic>(unit: &A, aspect_ratio: Real, width: Real) -> (camera: Camera)
        ensures
            camera.is_new(unit, aspect_ratio, width),
    {
        Self::at(
            unit,
            Point::new(Real::one(), Real::from_bits(MINUS_ONE_BITS), Real::zero()),
            aspect_ratio,
            width,
        )
    }

    /// A camera at `origin` that looks along `-z` through a view port
    /// `width` wide and `width / aspect_ratio` high.
    pub fn at<A: Arithmetic>(unit: &A, origin: Point, aspect_ratio: Real, width: Real) -> (camera:
        Camera)
        ensures
            camera.is_at(unit, origin, aspect_ratio, width),
    {
        let view_port_width = width;
        let view_port_height = quotient(unit, view_port_width, aspect_ratio);
        let camera = Camera {
            origin,
            view_port_base: Point::new(
                quotient(unit, view_port_width.neg(), Real::two()),
                quotient(unit, view_port_height, Real::two()),
                Real::from_bits(MINUS_ONE_BITS),
            ),
            view_port_x_axis: Point::new(view_port_width, Real::zero(), Real::zero()),
            view_port_y_axis: Point::new(Real::zero(), view_port_height.neg(), Real::zero()),
        };
        assert(is_quotient(unit, width, aspect_ratio, view_port_height) && camera.spans(
            unit,
            width,
            view_port_height,
        ));
        camera
    }

    /// Shifts the origin by `delta_x` and `delta_y`; its z stays.
    pub fn move_origin<A: Arithmetic>(&mut self, unit: &A, delta_x: Real, delta_y: Real)
        ensures
            is_sum(unit, old(self).origin().x, delta_x, final(self).origin().x),
            is_sum(unit, old(self).origin().y, delta_y, final(self).origin().y),
            final(self).origin().z == old(self).origin().z,
            final(self).same_view_port(*old(self)),
    {
        self.origin.x = sum(unit, self.origin.x, delta_x);
        self.origin.y = sum(unit, self.origin.y, delta_y);
    }

    /// Puts the origin at `x` and `y`; its z stays.
    pub fn move_origin_to(&mut self, x: Real, y: Real)
        ensures
            final(self).origin() == (Point { x, y, z: old(self).origin().z }),
            final(self).same_view_port(*old(self)),
    {
        self.origin.x = x;
        self.origin.y = y;
    }

    /// `rays` are the eight rays through the places `(x_offsets[i],
    /// y_offsets[i])` of the view port: each starts at the origin and
    /// heads for `view_port_base + view_port_x_axis * x + view_port_y_axis
    /// * y`.
    pub open spec fn casts<A: Arithmetic>(
        self,
        unit: &A,
        x_offsets: Reals,
        y_offsets: Reals,
        rays: Rays,
    ) -> bool {
        &&& rays.origins.all_lanes_are(self.origin())
        &&& forall|i: int|
            0 <= i < LANES ==> is_direction(
                unit,
                self.view_port_base().x,
                self.view_port_x_axis().x,
                x_offsets[i],
                self.view_port_y_axis().x,
                y_offsets[i],
                #[trigger] rays.dirs.xs[i],
            )
        &&& forall|i: int|
            0 <= i < LANES ==> is_direction(
                unit,
                self.view_port_base().y,
                self.view_port_x_axis().y,
                x_offsets[i],
                self.view_port_y_axis().y,
                y_offsets[i],
                #[trigger] rays.dirs.ys[i],
            )
        &&& forall|i: int|
            0 <= i < LANES ==> is_direction(
                unit,
                self.view_port_base().z,
                self.view_port_x_axis().z,
                x_offsets[i],
                self.view_port_y_axis().z,
                y_offsets[i],
                #[trigger] rays.dirs.zs[i],
            )
    }

    /// The eight rays through the places `(x_offsets[i], y_offsets[i])` of
    /// the view port, each place given as a share of its width and height.
    /// Every ray starts at the origin.
    pub fn pixel_rays<A: Arithmetic>(&self, unit: &A, x_offsets: Reals, y_offsets: Reals) -> (rays:
        Rays)
        ensures
            self.casts(unit, x_offsets, y_offsets, rays),
    {
        let base = Points::from_single(self.view_port_base);
        let x_axis = Points::from_single(self.view_port_x_axis);
        let y_axis = Points::from_single(self.view_port_y_axis);
        let across = x_axis.scale(unit, x_offsets);
        let partial = base.add(unit, across);
        let down = y_axis.scale(unit, y_offsets);
        let dirs = partial.add(unit, down);
        assert forall|i: int| 0 <= i < LANES implies is_direction(
            unit,
            self.view_port_base().x,
            self.view_port_x_axis().x,
            x_offsets[i],
            self.view_port_y_axis().x,
            y_offsets[i],
            #[trigger] dirs.xs[i],
        ) by {
            assert(base.lane(i) == self.view_port_base && x_axis.lane(i) == self.view_port_x_axis
                && y_axis.lane(i) == self.view_port_y_axis);
            assert(is_product(unit, self.view_port_x_axis.x, x_offsets[i], across.xs[i]));
            assert(is_sum(unit, self.view_port_base.x, across.xs[i], partial.xs[i]));
            assert(is_product(unit, self.view_port_y_axis.x, y_offsets[i], down.xs[i]));
            assert(is_sum(unit, partial.xs[i], down.xs[i], dirs.xs[i]));
        }
        assert forall|i: int| 0 <= i < LANES implies is_direction(
            unit,
            self.view_port_base().y,
            self.view_port_x_axis().y,
            x_offsets[i],
            self.view_port_y_axis().y,
            y_offsets[i],
            #[trigger] dirs.ys[i],
        ) by {
            assert(base.lane(i) == self.view_port_base && x_axis.lane(i) == self.view_port_x_axis
                && y_axis.lane(i) == self.view_port_y_axis);
            assert(is_product(unit, self.view_port_x_axis.y, x_offsets[i], across.ys[i]));
            assert(is_sum(unit, self.view_port_base.y, across.ys[i], partial.ys[i]));
            assert(is_product(unit, self.view_port_y_axis.y, y_offsets[i], down.ys[i]));
            assert(is_sum(unit, partial.ys[i], down.ys[i], dirs.ys[i]));
        }
        assert forall|i: int| 0 <= i < LANES implies is_direction(
            unit,
            self.view_port_base().z,
            self.view_port_x_axis().z,
            x_offsets[i],
            self.view_port_y_axis().z,
            y_offsets[i],
            #[trigger] dirs.zs[i],
        ) by {
            assert(base.lane(i) == self.view_port_base && x_axis.lane(i) == self.view_port_x_axis
                && y_axis.lane(i) == self.view_port_y_axis);
            assert(is_product(unit, self.view_port_x_axis.z, x_offsets[i], across.zs[i]));
            assert(is_sum(unit, self.view_port_base.z, across.zs[i], partial.zs[i]));
            assert(is_product(unit, self.view_port_y_axis.z, y_offsets[i], down.zs[i]));
            assert(is_sum(unit, partial.zs[i], down.zs[i], dirs.zs[i]));
        }
        Rays { origins: Points::from_single(self.origin), dirs }
    }
}

impl Camera {
    /// `ray` is the ray through the place `(x_offset, y_offset)` of the
    /// view port: it starts at the origin and heads for `view_port_base +
    /// view_port_x_axis * x_offset + view_port_y_axis * y_offset`.
    pub open spec fn casts_one<A: Arithmetic>(
        self,
        unit: &A,
        x_offset: Real,
        y_offset: Real,
        ray: Ray,
    ) -> bool {
        &&& ray.origin == self.origin()
        &&& is_direction(
            unit,
            self.view_port_base().x,
            self.view_port_x_axis().x,
            x_offset,
            self.view_port_y_axis().x,
            y_offset,
            ray.dir.x,
        )
        &&& is_direction(
            unit,
            self.view_port_base().y,
            self.view_port_x_axis().y,
            x_offset,
            self.view_port_y_axis().y,
            y_offset,
            ray.dir.y,
        )
        &&& is_direction(
            unit,
            self.view_port_base().z,
            self.view_port_x_axis().z,
            x_offset,
            self.view_port_y_axis().z,
            y_offset,
            ray.dir.z,
        )
    }

    /// The ray through the place `(x_offset, y_offset)` of the view port,
    /// given as a share of its width and height.
    pub fn pixel_ray<A: Arithmetic>(&self, unit: &A, x_offset: Real, y_offset: Real) -> (ray: Ray)
        ensures
            self.casts_one(unit, x_offset, y_offset, ray),
    {
        let across = self.view_port_x_axis.mul(unit, x_offset);
        let partial = self.view_port_base.add(unit, across);
        let down = self.view_port_y_axis.mul(unit, y_offset);
        let dir = partial.add(unit, down);
        proof {
            assert(is_product(unit, self.view_port_x_axis.x, x_offset, across.x));
            assert(is_sum(unit, self.view_port_base.x, across.x, partial.x));
            assert(is_product(unit, self.view_port_y_axis.x, y_offset, down.x));
            assert(is_product(unit, self.view_port_x_axis.y, x_offset, across.y));
            assert(is_sum(unit, self.view_port_base.y, across.y, partial.y));
            assert(is_product(unit, self.view_port_y_axis.y, y_offset, down.y));
            assert(is_product(unit, self.view_port_x_axis.z, x_offset, across.z));
            assert(is_sum(unit, self.view_port_base.z, across.z, partial.z));
            assert(is_product(unit, self.view_port_y_axis.z, y_offset, down.z));
        }
        Ray { origin: self.origin, dir }
    }
}

} // verus!
