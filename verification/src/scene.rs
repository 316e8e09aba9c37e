//! The obstacles: six axis-aligned walls and three spheres.
//!
//! What an obstacle is made of (where a wall stands, how large a sphere is,
//! colors, reflectance) is fixed for good.  Only the spheres' positions
//! change, and only through [`Scene::move_sphere_to`].

use crate::math::{Axis, Color, Point, Vector};
pub use crate::scalar::THREE_TENTHS_BITS;
use crate::scalar::{Real, HALF_BITS, ONE_BITS, TWO_BITS, ZERO_BITS};
use vstd::prelude::*;

verus! {

/// The bits of minus one.
pub const MINUS_ONE_BITS: u32 = 0xbf80_0000;

/// The bits of minus two.
pub const MINUS_TWO_BITS: u32 = 0xc000_0000;

/// The bits of four.
pub const FOUR_BITS: u32 = 0x4080_0000;

/// The bits of minus four.
pub const MINUS_FOUR_BITS: u32 = 0xc080_0000;

/// The bits of minus six.
pub const MINUS_SIX_BITS: u32 = 0xc0c0_0000;

/// The bits of minus sixteen.
pub const MINUS_SIXTEEN_BITS: u32 = 0xc180_0000;

/// The bits of the single nearest to 0.1.
pub const TENTH_BITS: u32 = 0x3dcc_cccd;

/// The bits of the single nearest to 0.8.
pub const EIGHT_TENTHS_BITS: u32 = 0x3f4c_cccd;

/// The bits of the single nearest to 3.87.
pub const NEAR_PADDLE_Z_BITS: u32 = 0x4077_ae14;

/// The bits of the single nearest to -19.87.
pub const FAR_PADDLE_Z_BITS: u32 = 0xc19e_f5c3;

/// The number of walls.
pub const PLANES_COUNT: usize = 6;

/// The number of spheres.
pub const SPHERES_COUNT: usize = 3;

/// A wall of the room.
#[derive(Copy, Clone, PartialEq, Eq, Structural, Debug)]
pub enum Plane {
    Top,
    Bottom,
    Left,
    Right,
    Far,
    Near,
}

/// One of the three spheres.
#[derive(Copy, Clone, PartialEq, Eq, Structural, Debug)]
pub enum Sphere {
    Ball,
    NearPaddle,
    FarPaddle,
}

/// Anything that a ray or the ball can meet.
#[derive(Copy, Clone, PartialEq, Eq, Structural, Debug)]
pub enum Obstacle {
    Plane(Plane),
    Sphere(Sphere),
}

/// The point with the given bits.
pub open spec fn point_of(x: u32, y: u32, z: u32) -> Point {
    Point { x: Real { bits: x }, y: Real { bits: y }, z: Real { bits: z } }
}

impl Plane {
    /// The axis that the wall stands across.
    pub open spec fn axis(self) -> Axis {
        match self {
            Plane::Top | Plane::Bottom => Axis::YS,
            Plane::Left | Plane::Right => Axis::XS,
            Plane::Far | Plane::Near => Axis::ZS,
        }
    }

    /// Where along its axis the wall stands.
    pub open spec fn offset(self) -> Real {
        Real {
            bits: match self {
                Plane::Top => TWO_BITS,
                Plane::Bottom => MINUS_TWO_BITS,
                Plane::Left => MINUS_FOUR_BITS,
                Plane::Right => FOUR_BITS,
                Plane::Far => MINUS_SIXTEEN_BITS,
                Plane::Near => ZERO_BITS,
            },
        }
    }

    /// The direction of length one that points from the wall into the room.
    pub open spec fn normal(self) -> Vector {
        match self {
            Plane::Top => point_of(ZERO_BITS, MINUS_ONE_BITS, ZERO_BITS),
            Plane::Bottom => point_of(ZERO_BITS, ONE_BITS, ZERO_BITS),
            Plane::Left => point_of(ONE_BITS, ZERO_BITS, ZERO_BITS),
            Plane::Right => point_of(MINUS_ONE_BITS, ZERO_BITS, ZERO_BITS),
            Plane::Far => point_of(ZERO_BITS, ZERO_BITS, ONE_BITS),
            Plane::Near => point_of(ZERO_BITS, ZERO_BITS, MINUS_ONE_BITS),
        }
    }

    /// The color of the wall.
    pub open spec fn color(self) -> Color {
        match self {
            Plane::Top => point_of(EIGHT_TENTHS_BITS, EIGHT_TENTHS_BITS, TENTH_BITS),
            Plane::Bottom => point_of(TENTH_BITS, EIGHT_TENTHS_BITS, EIGHT_TENTHS_BITS),
            Plane::Left => point_of(EIGHT_TENTHS_BITS, TENTH_BITS, EIGHT_TENTHS_BITS),
            Plane::Right => point_of(EIGHT_TENTHS_BITS, TENTH_BITS, TENTH_BITS),
            Plane::Far => point_of(TENTH_BITS, TENTH_BITS, EIGHT_TENTHS_BITS),
            Plane::Near => point_of(TENTH_BITS, EIGHT_TENTHS_BITS, TENTH_BITS),
        }
    }

    /// The share of the light that the wall sends on where it reflects.
    pub open spec fn reflectance(self) -> Real {
        Real { bits: THREE_TENTHS_BITS }
    }
}

impl Sphere {
    /// The radius of the sphere.
    pub open spec fn radius(self) -> Real {
        Real {
            bits: match self {
                Sphere::Ball => HALF_BITS,
                Sphere::NearPaddle => FOUR_BITS,
                Sphere::FarPaddle => FOUR_BITS,
            },
        }
    }

    /// The color of the sphere.
    pub open spec fn color(self) -> Color {
        match self {
            Sphere::Ball => point_of(TENTH_BITS, TENTH_BITS, TENTH_BITS),
            Sphere::NearPaddle => point_of(ONE_BITS, ONE_BITS, ONE_BITS),
            Sphere::FarPaddle => point_of(ZERO_BITS, ZERO_BITS, ZERO_BITS),
        }
    }

    /// The share of the light that the sphere sends on.
    pub open spec fn reflectance(self) -> Real {
        Real {
            bits: match self {
                Sphere::Ball => HALF_BITS,
                Sphere::NearPaddle => ONE_BITS,
                Sphere::FarPaddle => ONE_BITS,
            },
        }
    }

    /// Where the sphere is when a game starts.
    pub open spec fn start(self) -> Point {
        match self {
            Sphere::Ball => point_of(MINUS_TWO_BITS, MINUS_ONE_BITS, MINUS_SIX_BITS),
            Sphere::NearPaddle => point_of(ZERO_BITS, ZERO_BITS, NEAR_PADDLE_Z_BITS),
            Sphere::FarPaddle => point_of(ZERO_BITS, ZERO_BITS, FAR_PADDLE_Z_BITS),
        }
    }
}

impl Obstacle {
    /// The color of the obstacle.
    pub open spec fn color(self) -> Color {
        match self {
            Obstacle::Plane(plane) => plane.color(),
            Obstacle::Sphere(sphere) => sphere.color(),
        }
    }

    /// The share of the light that the obstacle sends on.
    pub open spec fn reflectance(self) -> Real {
        match self {
            Obstacle::Plane(plane) => plane.reflectance(),
            Obstacle::Sphere(sphere) => sphere.reflectance(),
        }
    }
}

/// A number from zero to one, both included.
pub open spec fn in_unit_range(r: Real) -> bool {
    (Real { bits: ZERO_BITS }).at_most(r) && r.at_most(Real { bits: ONE_BITS })
}

fn point(x: u32, y: u32, z: u32) -> (p: Point)
    ensures
        p == point_of(x, y, z),
{
    Point::new(Real::from_bits(x), Real::from_bits(y), Real::from_bits(z))
}

/// Where along its axis `plane` stands.
pub fn wall_offset(plane: Plane) -> (r: Real)
    ensures
        r == plane.offset(),
{
    Real::from_bits(
        match plane {
            Plane::Top => TWO_BITS,
            Plane::Bottom => MINUS_TWO_BITS,
            Plane::Left => MINUS_FOUR_BITS,
            Plane::Right => FOUR_BITS,
            Plane::Far => MINUS_SIXTEEN_BITS,
            Plane::Near => ZERO_BITS,
        },
    )
}

/// The direction of length one that points from `plane` into the room.
pub fn wall_normal(plane: Plane) -> (n: Vector)
    ensures
        n == plane.normal(),
{
    match plane {
        Plane::Top => point(ZERO_BITS, MINUS_ONE_BITS, ZERO_BITS),
        Plane::Bottom => point(ZERO_BITS, ONE_BITS, ZERO_BITS),
        Plane::Left => point(ONE_BITS, ZERO_BITS, ZERO_BITS),
        Plane::Right => point(MINUS_ONE_BITS, ZERO_BITS, ZERO_BITS),
        Plane::Far => point(ZERO_BITS, ZERO_BITS, ONE_BITS),
        Plane::Near => point(ZERO_BITS, ZERO_BITS, MINUS_ONE_BITS),
    }
}

/// The axis that `plane` stands across.
pub fn wall_axis(plane: Plane) -> (axis: Axis)
    ensures
        axis == plane.axis(),
{
    match plane {
        Plane::Top | Plane::Bottom => Axis::YS,
        Plane::Left | Plane::Right => Axis::XS,
        Plane::Far | Plane::Near => Axis::ZS,
    }
}

/// The color of `plane`.
pub fn wall_color(plane: Plane) -> (c: Color)
    ensures
        c == plane.color(),
{
    match plane {
        Plane::Top => point(EIGHT_TENTHS_BITS, EIGHT_TENTHS_BITS, TENTH_BITS),
        Plane::Bottom => point(TENTH_BITS, EIGHT_TENTHS_BITS, EIGHT_TENTHS_BITS),
        Plane::Left => point(EIGHT_TENTHS_BITS, TENTH_BITS, EIGHT_TENTHS_BITS),
        Plane::Right => point(EIGHT_TENTHS_BITS, TENTH_BITS, TENTH_BITS),
        Plane::Far => point(TENTH_BITS, TENTH_BITS, EIGHT_TENTHS_BITS),
        Plane::Near => point(TENTH_BITS, EIGHT_TENTHS_BITS, TENTH_BITS),
    }
}

/// The share of the light that `plane` sends on where it reflects.
pub fn wall_reflectance(plane: Plane) -> (r: Real)
    ensures
        r == plane.reflectance(),
{
    Real::from_bits(THREE_TENTHS_BITS)
}

/// The radius of `sphere`.
pub fn radius_of(sphere: Sphere) -> (r: Real)
    ensures
        r == sphere.radius(),
{
    Real::from_bits(
        match sphere {
            Sphere::Ball => HALF_BITS,
            Sphere::NearPaddle => FOUR_BITS,
            Sphere::FarPaddle => FOUR_BITS,
        },
    )
}

/// The walls, from first to last as a ray is tested against them.
pub open spec fn all_planes() -> Seq<Plane> {
    seq![Plane::Top, Plane::Bottom, Plane::Left, Plane::Right, Plane::Far, Plane::Near]
}

/// The spheres, from first to last as a ray is tested against them.
pub open spec fn all_spheres() -> Seq<Sphere> {
    seq![Sphere::Ball, Sphere::NearPaddle, Sphere::FarPaddle]
}

/// Where the three spheres are.
pub struct Scene {
    ball_pos: Point,
    near_paddle_pos: Point,
    far_paddle_pos: Point,
}

impl Scene {
    /// Where `sphere` is.
    pub closed spec fn position(self, sphere: Sphere) -> Point {
        match sphere {
            Sphere::Ball => self.ball_pos,
            Sphere::NearPaddle => self.near_paddle_pos,
            Sphere::FarPaddle => self.far_paddle_pos,
        }
    }

    /// Every sphere is where it is in `other`.
    pub open spec fn same_positions(self, other: Scene) -> bool {
        forall|sphere: Sphere| #[trigger] self.position(sphere) == other.position(sphere)
    }

    /// The scene at the start of a game.
    pub fn new() -> (scene: Scene)
        ensures
            forall|sphere: Sphere| #[trigger] scene.position(sphere) == sphere.start(),
    {
        Scene {
            ball_pos: point(MINUS_TWO_BITS, MINUS_ONE_BITS, MINUS_SIX_BITS),
            near_paddle_pos: point(ZERO_BITS, ZERO_BITS, NEAR_PADDLE_Z_BITS),
            far_paddle_pos: point(ZERO_BITS, ZERO_BITS, FAR_PADDLE_Z_BITS),
        }
    }

    /// The walls, from first to last as a ray is tested against them.
    pub fn planes(&self) -> (all: [Plane; PLANES_COUNT])
        ensures
            all@ == all_planes(),
    {
        [Plane::Top, Plane::Bottom, Plane::Left, Plane::Right, Plane::Far, Plane::Near]
    }

    /// The spheres, from first to last as a ray is tested against them.
    pub fn spheres(&self) -> (all: [Sphere; SPHERES_COUNT])
        ensures
            all@ == all_spheres(),
    {
        [Sphere::Ball, Sphere::NearPaddle, Sphere::FarPaddle]
    }

    /// Where along its axis `plane` stands.
    pub fn plane_offset(&self, plane: Plane) -> (r: Real)
        ensures
            r == plane.offset(),
    {
        wall_offset(plane)
    }

    /// Where `sphere` is.
    pub fn sphere_pos(&self, sphere: Sphere) -> (p: Point)
        ensures
            p == self.position(sphere),
    {
        match sphere {
            Sphere::Ball => self.ball_pos,
            Sphere::NearPaddle => self.near_paddle_pos,
            Sphere::FarPaddle => self.far_paddle_pos,
        }
    }

    /// The radius of `sphere`, which is more than nothing.
    pub fn sphere_radius(&self, sphere: Sphere) -> (r: Real)
        ensures
            r == sphere.radius(),
            (Real { bits: ZERO_BITS }).less(r),
    {
        radius_of(sphere)
    }

    /// The direction of length one that points from `plane` into the room.
    pub fn plane_normal(&self, plane: Plane) -> (n: Vector)
        ensures
            n == plane.normal(),
    {
        wall_normal(plane)
    }

    /// The axis that `plane` stands across.
    pub fn plane_alignment_axis(&self, plane: Plane) -> (axis: Axis)
        ensures
            axis == plane.axis(),
    {
        wall_axis(plane)
    }

    /// The color of `obstacle`, each number from zero to one.
    pub fn obstacle_color(&self, obstacle: Obstacle) -> (c: Color)
        ensures
            c == obstacle.color(),
            in_unit_range(c.x),
            in_unit_range(c.y),
            in_unit_range(c.z),
    {
        match obstacle {
            Obstacle::Plane(plane) => wall_color(plane),
            Obstacle::Sphere(sphere) => match sphere {
                Sphere::Ball => point(TENTH_BITS, TENTH_BITS, TENTH_BITS),
                Sphere::NearPaddle => point(ONE_BITS, ONE_BITS, ONE_BITS),
                Sphere::FarPaddle => point(ZERO_BITS, ZERO_BITS, ZERO_BITS),
            },
        }
    }

    /// The share of the light that the obstacle sends on: never below zero,
    /// never above one.
    pub fn obstacle_reflectance(&self, obstacle: Obstacle) -> (r: Real)
        ensures
            r == obstacle.reflectance(),
            in_unit_range(r),
    {
        Real::from_bits(
            match obstacle {
                Obstacle::Plane(_) => THREE_TENTHS_BITS,
                Obstacle::Sphere(sphere) => match sphere {
                    Sphere::Ball => HALF_BITS,
                    Sphere::NearPaddle => ONE_BITS,
                    Sphere::FarPaddle => ONE_BITS,
                },
            },
        )
    }

    /// Puts `sphere` at `position`, whatever that is; the other spheres stay
    /// where they are.
    pub fn move_sphere_to(&mut self, sphere: Sphere, position: Point)
        ensures
            final(self).position(sphere) == position,
            forall|other: Sphere|
                other != sphere ==> #[trigger] final(self).position(other) == old(self).position(
                    other,
                ),
    {
        match sphere {
            Sphere::Ball => {
                self.ball_pos = position;
            },
            Sphere::NearPaddle => {
                self.near_paddle_pos = position;
            },
            Sphere::FarPaddle => {
                self.far_paddle_pos = position;
            },
        }
    }
}

/// No obstacle sends on more light than falls on it, and none sends on
/// less than nothing.
pub proof fn lemma_reflectance_in_unit_range(obstacle: Obstacle)
    ensures
        in_unit_range(obstacle.reflectance()),
{
}

/// Every number of every obstacle's color lies from zero to one.
pub proof fn lemma_color_in_unit_range(obstacle: Obstacle)
    ensures
        in_unit_range(obstacle.color().x),
        in_unit_range(obstacle.color().y),
        in_unit_range(obstacle.color().z),
{
}

/// A wall's normal has length one, lies along the wall's axis and points
/// from the wall into the room: downwards from the top, to the right from
/// the left wall, and so on.
pub proof fn lemma_wall_normal_points_into_the_room(plane: Plane)
    ensures
        plane.normal().along(plane.axis()).magnitude() == ONE_BITS,
        plane.normal().along(plane.axis()).is_negative() == !plane.offset().is_negative(),
        plane.axis() != Axis::XS ==> plane.normal().x.bits == ZERO_BITS,
        plane.axis() != Axis::YS ==> plane.normal().y.bits == ZERO_BITS,
        plane.axis() != Axis::ZS ==> plane.normal().z.bits == ZERO_BITS,
{
}

/// The room: each pair of walls across an axis has the lower one first.
pub proof fn lemma_walls_enclose_the_room()
    ensures
        Plane::Left.offset().less(Plane::Right.offset()),
        Plane::Bottom.offset().less(Plane::Top.offset()),
        Plane::Far.offset().less(Plane::Near.offset()),
{
}

} // verus!
