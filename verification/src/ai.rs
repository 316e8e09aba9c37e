//! How the far paddle plays: it goes after the ball.

use crate::math::Directions;
use crate::scalar::{difference, is_difference, Arithmetic, Real};
use crate::scene::{Scene, Sphere};
use vstd::prelude::*;

verus! {

/// The bits of the single nearest to 0.1: how far the ball must be off
/// before the paddle follows.
pub const EPSILON_BITS: u32 = 0x3dcc_cccd;

/// `ahead` says whether, by what `unit` gave for `a - b`, `a` lies more
/// than the least distance beyond `b`.
pub open spec fn is_ahead<A: Arithmetic>(unit: &A, a: Real, b: Real, ahead: bool) -> bool {
    exists|gap: Real| #[trigger]
        is_difference(unit, a, b, gap) && ahead == (Real { bits: EPSILON_BITS }).less(gap)
}

fn ahead<A: Arithmetic>(unit: &A, a: Real, b: Real) -> (r: bool)
    ensures
        is_ahead(unit, a, b, r),
{
    let gap = difference(unit, a, b);
    gap.gt(Real::from_bits(EPSILON_BITS))
}

/// `directions` push the far paddle towards the ball, along x and along y,
/// wherever the ball is more than the least distance off.
pub open spec fn follows_ball<A: Arithmetic>(unit: &A, scene: Scene, directions: Directions) -> bool {
    let ball = scene.position(Sphere::Ball);
    let paddle = scene.position(Sphere::FarPaddle);
    &&& is_ahead(unit, ball.y, paddle.y, directions.up)
    &&& is_ahead(unit, paddle.y, ball.y, directions.down)
    &&& is_ahead(unit, paddle.x, ball.x, directions.left)
    &&& is_ahead(unit, ball.x, paddle.x, directions.right)
}

/// The directions to push the far paddle in: after the ball.
pub fn control_far_paddle<A: Arithmetic>(unit: &A, scene: &Scene) -> (directions: Directions)
    ensures
        follows_ball(unit, *scene, directions),
{
    Directions::new(
        ahead(unit, scene.sphere_pos(Sphere::Ball).y(), scene.sphere_pos(Sphere::FarPaddle).y()),
        ahead(unit, scene.sphere_pos(Sphere::FarPaddle).y(), scene.sphere_pos(Sphere::Ball).y()),
        ahead(unit, scene.sphere_pos(Sphere::FarPaddle).x(), scene.sphere_pos(Sphere::Ball).x()),
        ahead(unit, scene.sphere_pos(Sphere::Ball).x(), scene.sphere_pos(Sphere::FarPaddle).x()),
    )
}

} // verus!
