//! How far the paddles go.
//!
//! A paddle is stopped one unit short of the side walls, of the bottom and
//! of the top.  With a unit that rounds nothing that needs no rounding,
//! those limits are the numbers -3 and 3 along x and -1 and 1 along y, and
//! after every tick both paddles lie within them.

use crate::exact::{
    is_faithful, lemma_integer_by_parts, lemma_larger_and_smaller_values,
    lemma_named_numbers, lemma_number_is_held, lemma_true_difference, lemma_true_sum,
};
use crate::math::{is_push, Directions, Point, Vector};
use crate::motion::{
    are_limits, held, is_driven, is_paddle_move, is_travelled, turned, Limits, MotionResult,
    MotionTicker, PADDLE_ACCELERATION_BITS, PADDLE_FRICTION_BITS,
};
use crate::scalar::{
    is_power, lemma_clamped_is_within, Arithmetic, Real, ONE_BITS, TWO_BITS, ZERO_BITS,
};
use crate::scene::{
    Plane, Scene, Sphere, FOUR_BITS, MINUS_FOUR_BITS, MINUS_ONE_BITS, MINUS_TWO_BITS,
};
use vstd::arithmetic::power2::lemma2_to64;
use vstd::prelude::*;

verus! {

/// The bits of three.
pub const THREE_BITS: u32 = 0x4040_0000;

/// The bits of minus three.
pub const MINUS_THREE_BITS: u32 = 0xc040_0000;

/// With a faithful unit the limits are -3, 3, -1 and 1.
pub proof fn lemma_limits_are_whole<A: Arithmetic>(unit: &A, limits: Limits)
    requires
        is_faithful(unit),
        are_limits(unit, limits),
    ensures
        limits.left.is_finite() && limits.left.value() == -(3 as real),
        limits.right.is_finite() && limits.right.value() == 3 as real,
        limits.bottom.is_finite() && limits.bottom.value() == -(1 as real),
        limits.top.is_finite() && limits.top.value() == 1 as real,
{
    lemma2_to64();
    lemma_named_numbers();
    let one = Real { bits: ONE_BITS };
    let two = Real { bits: TWO_BITS };
    let three = Real { bits: THREE_BITS };
    let four = Real { bits: FOUR_BITS };
    let minus_one = Real { bits: MINUS_ONE_BITS };
    let minus_two = Real { bits: MINUS_TWO_BITS };
    let minus_three = Real { bits: MINUS_THREE_BITS };
    let minus_four = Real { bits: MINUS_FOUR_BITS };
    lemma_integer_by_parts(three, 3, 0xc0_0000, 0x40_0000);
    lemma_integer_by_parts(minus_three, -3, -0xc0_0000, 0x40_0000);
    lemma_integer_by_parts(four, 4, 0x80_0000, 0x20_0000);
    lemma_integer_by_parts(minus_four, -4, -0x80_0000, 0x20_0000);
    lemma_integer_by_parts(minus_one, -1, -0x80_0000, 0x80_0000);
    lemma_integer_by_parts(minus_two, -2, -0x80_0000, 0x40_0000);
    lemma_number_is_held(three);
    lemma_number_is_held(minus_three);
    lemma_number_is_held(one);
    lemma_number_is_held(minus_one);
    assert(Plane::Left.offset() == minus_four);
    assert(Plane::Right.offset() == four);
    assert(Plane::Bottom.offset() == minus_two);
    assert(Plane::Top.offset() == two);
    lemma_true_sum(unit, minus_four, one, limits.left, -(3 as real));
    lemma_true_difference(unit, four, one, limits.right, 3 as real);
    lemma_true_sum(unit, minus_two, one, limits.bottom, -(1 as real));
    lemma_true_difference(unit, two, one, limits.top, 1 as real);
}

/// A paddle that has moved lies within its limits, along each axis along
/// which it is anywhere at all.
pub proof fn lemma_paddle_stays_in_reach<A: Arithmetic>(
    unit: &A,
    pos: Point,
    speed: Vector,
    elapsed: Real,
    directions: Directions,
    new_pos: Point,
    new_speed: Vector,
)
    requires
        is_faithful(unit),
        is_paddle_move(unit, pos, speed, elapsed, directions, new_pos, new_speed),
    ensures
        !new_pos.x.is_nan() ==> -(3 as real) <= new_pos.x.value() <= 3 as real,
        !new_pos.y.is_nan() ==> -(1 as real) <= new_pos.y.value() <= 1 as real,
{
    let (friction, push, fast, free, limits) = choose|
        friction: Real,
        push: Vector,
        fast: Vector,
        free: Point,
        limits: Limits,
    |
        #![trigger is_travelled(unit, pos, fast, elapsed, free), are_limits(unit, limits), is_driven(unit, speed.x, friction, push.x, elapsed, fast.x)]
        {
            &&& is_power(unit, Real { bits: PADDLE_FRICTION_BITS }, elapsed, friction)
            &&& is_push(
                unit,
                Real { bits: PADDLE_ACCELERATION_BITS },
                directions.right,
                directions.left,
                push.x,
            )
            &&& is_push(
                unit,
                Real { bits: PADDLE_ACCELERATION_BITS },
                directions.up,
                directions.down,
                push.y,
            )
            &&& push.z == Real { bits: ZERO_BITS }
            &&& is_driven(unit, speed.x, friction, push.x, elapsed, fast.x)
            &&& is_driven(unit, speed.y, friction, push.y, elapsed, fast.y)
            &&& is_driven(unit, speed.z, friction, push.z, elapsed, fast.z)
            &&& is_travelled(unit, pos, fast, elapsed, free)
            &&& are_limits(unit, limits)
            &&& new_speed == turned(fast, free, limits)
            &&& new_pos == held(free, limits)
        };
    lemma_limits_are_whole(unit, limits);
    lemma_larger_and_smaller_values(limits.left, limits.right);
    lemma_larger_and_smaller_values(limits.bottom, limits.top);
    if !new_pos.x.is_nan() {
        assert(!free.x.is_nan());
        lemma_clamped_is_within(free.x, limits.left, limits.right);
        lemma_larger_and_smaller_values(limits.left, new_pos.x);
        lemma_larger_and_smaller_values(new_pos.x, limits.right);
    }
    if !new_pos.y.is_nan() {
        assert(!free.y.is_nan());
        lemma_clamped_is_within(free.y, limits.bottom, limits.top);
        lemma_larger_and_smaller_values(limits.bottom, new_pos.y);
        lemma_larger_and_smaller_values(new_pos.y, limits.top);
    }
}

impl MotionTicker {
    /// Whatever the ball runs into, the paddles stay where they are.
    pub proof fn lemma_walls_leave_the_paddles<A: Arithmetic>(
        self,
        unit: &A,
        scene: Scene,
        from: int,
        after: MotionTicker,
        moved: Scene,
        result: MotionResult,
    )
        requires
            0 <= from <= 3,
            self.meets_walls(unit, scene, from, after, moved, result),
        ensures
            moved.position(Sphere::NearPaddle) == scene.position(Sphere::NearPaddle),
            moved.position(Sphere::FarPaddle) == scene.position(Sphere::FarPaddle),
        decreases 3 - from,
    {
        if from < 3 {
            let bump = choose|bump: Option<(Point, Plane)>| #[trigger]
                crate::motion::is_bump(
                    unit,
                    crate::motion::axis_of_walls(from),
                    scene.position(Sphere::Ball),
                    Sphere::Ball.radius(),
                    crate::motion::lower_wall(from),
                    crate::motion::upper_wall(from),
                    bump,
                ) && match bump {
                    Some((pos, plane)) => self.rebounds(
                        unit,
                        scene,
                        pos,
                        plane.normal(),
                        after,
                        moved,
                    ) && result == MotionResult::Colision(crate::scene::Obstacle::Plane(plane)),
                    None => self.meets_walls(unit, scene, from + 1, after, moved, result),
                };
            if bump is None {
                self.lemma_walls_leave_the_paddles(unit, scene, from + 1, after, moved, result);
            }
        }
    }

    /// After a tick both paddles lie within their limits: from -3 to 3
    /// along x and from -1 to 1 along y, along each axis along which they
    /// are anywhere at all.
    pub proof fn lemma_paddles_stay_in_reach<A: Arithmetic>(
        self,
        unit: &A,
        scene: Scene,
        elapsed: Real,
        near_paddle_directions: Directions,
        far_paddle_directions: Directions,
        after: MotionTicker,
        moved: Scene,
        result: MotionResult,
    )
        requires
            is_faithful(unit),
            self.ticks(
                unit,
                scene,
                elapsed,
                near_paddle_directions,
                far_paddle_directions,
                after,
                moved,
                result,
            ),
        ensures
            forall|paddle: Sphere|
                paddle != Sphere::Ball ==> {
                    let pos = #[trigger] moved.position(paddle);
                    &&& !pos.x.is_nan() ==> -(3 as real) <= pos.x.value() <= 3 as real
                    &&& !pos.y.is_nan() ==> -(1 as real) <= pos.y.value() <= 1 as real
                },
    {
        let (between, there) = choose|between: MotionTicker, there: Scene| #[trigger]
            self.moves(
                unit,
                scene,
                elapsed,
                near_paddle_directions,
                far_paddle_directions,
                between,
                there,
            ) && between.collides(unit, there, after, moved, result);
        lemma_paddle_stays_in_reach(
            unit,
            scene.position(Sphere::FarPaddle),
            self.far_paddle_speed(),
            elapsed,
            far_paddle_directions,
            there.position(Sphere::FarPaddle),
            between.far_paddle_speed(),
        );
        lemma_paddle_stays_in_reach(
            unit,
            scene.position(Sphere::NearPaddle),
            self.near_paddle_speed(),
            elapsed,
            near_paddle_directions,
            there.position(Sphere::NearPaddle),
            between.near_paddle_speed(),
        );
        between.lemma_collision_leaves_the_paddles(unit, there, after, moved, result);
        assert forall|paddle: Sphere| paddle != Sphere::Ball implies ({
            let pos = #[trigger] moved.position(paddle);
            &&& !pos.x.is_nan() ==> -(3 as real) <= pos.x.value() <= 3 as real
            &&& !pos.y.is_nan() ==> -(1 as real) <= pos.y.value() <= 1 as real
        }) by {
            assert(paddle == Sphere::NearPaddle || paddle == Sphere::FarPaddle);
        }
    }

    /// Whatever the ball touches, the paddles stay where they are.
    pub proof fn lemma_collision_leaves_the_paddles<A: Arithmetic>(
        self,
        unit: &A,
        scene: Scene,
        after: MotionTicker,
        moved: Scene,
        result: MotionResult,
    )
        requires
            self.collides(unit, scene, after, moved, result),
        ensures
            moved.position(Sphere::NearPaddle) == scene.position(Sphere::NearPaddle),
            moved.position(Sphere::FarPaddle) == scene.position(Sphere::FarPaddle),
    {
        let far = choose|far: Option<(Point, Vector)>| #[trigger]
            crate::motion::is_touch(
                unit,
                scene.position(Sphere::Ball),
                Sphere::Ball.radius(),
                scene.position(Sphere::FarPaddle),
                Sphere::FarPaddle.radius(),
                far,
            ) && match far {
                Some((pos, normal)) => self.rebounds(unit, scene, pos, normal, after, moved) && result
                    == MotionResult::Colision(crate::scene::Obstacle::Sphere(Sphere::FarPaddle)),
                None => exists|near: Option<(Point, Vector)>| #[trigger]
                    crate::motion::is_touch(
                        unit,
                        scene.position(Sphere::Ball),
                        Sphere::Ball.radius(),
                        scene.position(Sphere::NearPaddle),
                        Sphere::NearPaddle.radius(),
                        near,
                    ) && match near {
                        Some((pos, normal)) => self.rebounds(unit, scene, pos, normal, after, moved)
                            && result == MotionResult::Colision(
                            crate::scene::Obstacle::Sphere(Sphere::NearPaddle),
                        ),
                        None => self.meets_walls(unit, scene, 0, after, moved, result),
                    },
            };
        if far is None {
            let near = choose|near: Option<(Point, Vector)>| #[trigger]
                crate::motion::is_touch(
                    unit,
                    scene.position(Sphere::Ball),
                    Sphere::Ball.radius(),
                    scene.position(Sphere::NearPaddle),
                    Sphere::NearPaddle.radius(),
                    near,
                ) && match near {
                    Some((pos, normal)) => self.rebounds(unit, scene, pos, normal, after, moved)
                        && result == MotionResult::Colision(
                        crate::scene::Obstacle::Sphere(Sphere::NearPaddle),
                    ),
                    None => self.meets_walls(unit, scene, 0, after, moved, result),
                };
            if near is None {
                self.lemma_walls_leave_the_paddles(unit, scene, 0, after, moved, result);
            }
        }
    }
}

} // verus!
