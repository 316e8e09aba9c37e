//! How the ball and the paddles move from one frame to the next.
//!
//! A tick moves the three spheres, then looks for what the ball has run
//! into: the far paddle, the near paddle, then the walls across x, y and z.
//! The first of these that the ball touches puts it back to where it just
//! touches, turns its speed around and ends the tick.

use crate::math::{is_dot, is_push, Axis, Directions, Point, Vector};
use crate::scalar::{
    difference, is_difference, is_multiply_add, is_power, is_product, is_quotient, is_root,
    is_sum, multiply_add, power, root, sum, Arithmetic, Real, ONE_BITS, TWO_BITS, ZERO_BITS,
};
use crate::scene::{point_of, Obstacle, Plane, Scene, Sphere, MINUS_FOUR_BITS};
use crate::render::tracer::is_mirrored;
use vstd::prelude::*;

verus! {

/// The bits of the single nearest to 0.7: what is left of a paddle's speed
/// after one unit of time.
pub const PADDLE_FRICTION_BITS: u32 = 0x3f33_3333;

/// The bits of 2: how fast a held direction speeds a paddle up.
pub const PADDLE_ACCELERATION_BITS: u32 = 0x4000_0000;

/// The bits of 1.5.
pub const BALL_SPEED_X_BITS: u32 = 0x3fc0_0000;

/// The bits of 4.5.
pub const BALL_SPEED_Y_BITS: u32 = 0x4090_0000;

/// What the ball ran into during a tick, if anything.
#[derive(Clone, Copy, Debug)]
pub enum MotionResult {
    NoCollision,
    Colision(Obstacle),
}

/// `out` is what `unit` gave for `pos + speed * elapsed`, number by number.
pub open spec fn is_travelled<A: Arithmetic>(
    unit: &A,
    pos: Point,
    speed: Vector,
    elapsed: Real,
    out: Point,
) -> bool {
    &&& is_multiply_add(unit, pos.x, speed.x, elapsed, out.x)
    &&& is_multiply_add(unit, pos.y, speed.y, elapsed, out.y)
    &&& is_multiply_add(unit, pos.z, speed.z, elapsed, out.z)
}

/// `r` is what `unit` gave for `speed * friction + push * elapsed`.
pub open spec fn is_driven<A: Arithmetic>(
    unit: &A,
    speed: Real,
    friction: Real,
    push: Real,
    elapsed: Real,
    r: Real,
) -> bool {
    exists|slowed: Real, pushed: Real|
        #![trigger is_product(unit, speed, friction, slowed), is_product(unit, push, elapsed, pushed)]
        is_product(unit, speed, friction, slowed) && is_product(unit, push, elapsed, pushed)
            && is_sum(unit, slowed, pushed, r)
}

/// How far a paddle may go: one unit short of each side wall, of the
/// bottom and of the top.
pub struct Limits {
    pub left: Real,
    pub right: Real,
    pub bottom: Real,
    pub top: Real,
}

/// `limits` is what `unit` gave for the side walls moved inwards by one.
pub open spec fn are_limits<A: Arithmetic>(unit: &A, limits: Limits) -> bool {
    &&& is_sum(unit, Plane::Left.offset(), Real { bits: ONE_BITS }, limits.left)
    &&& is_difference(unit, Plane::Right.offset(), Real { bits: ONE_BITS }, limits.right)
    &&& is_sum(unit, Plane::Bottom.offset(), Real { bits: ONE_BITS }, limits.bottom)
    &&& is_difference(unit, Plane::Top.offset(), Real { bits: ONE_BITS }, limits.top)
}

/// The speed of a paddle that would be at `free`: turned around along x
/// where `free` is at or beyond a side limit, and along y likewise.
pub open spec fn turned(fast: Vector, free: Point, limits: Limits) -> Vector {
    Vector {
        x: if free.x.at_most(limits.left) || limits.right.at_most(free.x) {
            fast.x.opposite()
        } else {
            fast.x
        },
        y: if free.y.at_most(limits.bottom) || limits.top.at_most(free.y) {
            fast.y.opposite()
        } else {
            fast.y
        },
        z: fast.z,
    }
}

/// Where a paddle that would be at `free` ends up: within the limits.
pub open spec fn held(free: Point, limits: Limits) -> Point {
    Point {
        x: free.x.clamped(limits.left, limits.right),
        y: free.y.clamped(limits.bottom, limits.top),
        z: free.z,
    }
}

/// A paddle at `pos` with speed `speed` is at `new_pos` with speed
/// `new_speed` after `elapsed`, when pushed in `directions`.
///
/// Friction slows it, the push speeds it up, and it travels at the new
/// speed; at a limit it stops and its speed turns around.
pub open spec fn is_paddle_move<A: Arithmetic>(
    unit: &A,
    pos: Point,
    speed: Vector,
    elapsed: Real,
    directions: Directions,
    new_pos: Point,
    new_speed: Vector,
) -> bool {
    exists|friction: Real, push: Vector, fast: Vector, free: Point, limits: Limits|
        #![trigger is_travelled(unit, pos, fast, elapsed, free), are_limits(unit, limits), is_driven(unit, speed.x, friction, push.x, elapsed, fast.x)]
        {
            &&& is_power(unit, Real { bits: PADDLE_FRICTION_BITS }, elapsed, friction)
            &&& is_push(
                unit,
                Real { bits: PADDLE_ACCELERATION_BITS },
                directions.right,
                directions.left,
                push.x,
            )
            &&& is_push(
                unit,
                Real { bits: PADDLE_ACCELERATION_BITS },
                directions.up,
                directions.down,
                push.y,
            )
            &&& push.z == Real { bits: ZERO_BITS }
            &&& is_driven(unit, speed.x, friction, push.x, elapsed, fast.x)
            &&& is_driven(unit, speed.y, friction, push.y, elapsed, fast.y)
            &&& is_driven(unit, speed.z, friction, push.z, elapsed, fast.z)
            &&& is_travelled(unit, pos, fast, elapsed, free)
            &&& are_limits(unit, limits)
            &&& new_speed == turned(fast, free, limits)
            &&& new_pos == held(free, limits)
        }
}

/// `touch` says whether the sphere at `a` touches the one at `b`, their
/// radii being `a_radius` and `b_radius`: where the centres are less than
/// the two radii apart, it holds the place for `a` at which the two just
/// touch, and the direction of length one from `b` to `a`.
pub open spec fn is_touch<A: Arithmetic>(
    unit: &A,
    a: Point,
    a_radius: Real,
    b: Point,
    b_radius: Real,
    touch: Option<(Point, Vector)>,
) -> bool {
    exists|diff: Vector, square: Real, distance: Real, reach: Real|
        #![trigger is_dot(unit, diff, diff, square), is_root(unit, square, distance), is_sum(unit, a_radius, b_radius, reach)]
        {
            &&& is_difference(unit, a.x, b.x, diff.x)
            &&& is_difference(unit, a.y, b.y, diff.y)
            &&& is_difference(unit, a.z, b.z, diff.z)
            &&& is_dot(unit, diff, diff, square)
            &&& is_root(unit, square, distance)
            &&& is_sum(unit, a_radius, b_radius, reach)
            &&& if distance.less(reach) {
                exists|normal: Vector, out: Point|
                    #![trigger is_travelled(unit, b, normal, reach, out)]
                    {
                        &&& is_quotient(unit, diff.x, distance, normal.x)
                        &&& is_quotient(unit, diff.y, distance, normal.y)
                        &&& is_quotient(unit, diff.z, distance, normal.z)
                        &&& is_travelled(unit, b, normal, reach, out)
                        &&& touch == Some((out, normal))
                    }
            } else {
                touch is None
            }
        }
}

/// `bump` says whether the sphere at `pos` reaches over one of the two
/// walls across `axis`: where it is less than its radius from the lower
/// wall `low`, it holds the place at which it just touches that wall, and
/// the wall; else the same for the upper wall `high`; else nothing.
pub open spec fn is_bump<A: Arithmetic>(
    unit: &A,
    axis: Axis,
    pos: Point,
    radius: Real,
    low: Plane,
    high: Plane,
    bump: Option<(Point, Plane)>,
) -> bool {
    exists|low_gap: Real| #[trigger]
        is_difference(unit, pos.along(axis), low.offset(), low_gap) && if low_gap.less(radius) {
            exists|low_rest: Real| #[trigger]
                is_sum(unit, low.offset(), radius, low_rest) && bump == Some(
                    (pos.with(axis, low_rest), low),
                )
        } else {
            exists|high_gap: Real| #[trigger]
                is_difference(unit, high.offset(), pos.along(axis), high_gap) && if high_gap.less(
                    radius,
                ) {
                    exists|high_rest: Real| #[trigger]
                        is_difference(unit, high.offset(), radius, high_rest) && bump == Some(
                            (pos.with(axis, high_rest), high),
                        )
                } else {
                    bump is None
                }
        }
}

/// The axis of the pair of walls that is tried as number `k`: x, then y,
/// then z.
pub open spec fn axis_of_walls(k: int) -> Axis {
    if k == 0 {
        Axis::XS
    } else if k == 1 {
        Axis::YS
    } else {
        Axis::ZS
    }
}

/// The lower wall of pair number `k`.
pub open spec fn lower_wall(k: int) -> Plane {
    if k == 0 {
        Plane::Left
    } else if k == 1 {
        Plane::Bottom
    } else {
        Plane::Far
    }
}

/// The upper wall of pair number `k`.
pub open spec fn upper_wall(k: int) -> Plane {
    if k == 0 {
        Plane::Right
    } else if k == 1 {
        Plane::Top
    } else {
        Plane::Near
    }
}

/// The speeds of the ball and of the two paddles.
#[derive(Clone, Copy, Debug)]
pub struct MotionTicker {
    ball_speed: Vector,
    near_paddle_speed: Vector,
    far_paddle_speed: Vector,
}

impl MotionTicker {
    /// The speed of the ball.
    pub closed spec fn ball_speed(self) -> Vector {
        self.ball_speed
    }

    /// The speed of the near paddle.
    pub closed spec fn near_paddle_speed(self) -> Vector {
        self.near_paddle_speed
    }

    /// The speed of the far paddle.
    pub closed spec fn far_paddle_speed(self) -> Vector {
        self.far_paddle_speed
    }

    /// The speeds at the start of a game: the paddles rest, the ball is on
    /// its way at `(1.5, 4.5, -4)`.
    pub open spec fn is_at_rest(self) -> bool {
        &&& self.ball_speed() == point_of(BALL_SPEED_X_BITS, BALL_SPEED_Y_BITS, MINUS_FOUR_BITS)
        &&& self.near_paddle_speed() == point_of(ZERO_BITS, ZERO_BITS, ZERO_BITS)
        &&& self.far_paddle_speed() == point_of(ZERO_BITS, ZERO_BITS, ZERO_BITS)
    }

    /// The speeds at the start of a game.
    pub fn new() -> (ticker: Self)
        ensures
            ticker.is_at_rest(),
    {
        let zero = Real::zero();
        Self {
            ball_speed: Vector::new(
                Real::from_bits(BALL_SPEED_X_BITS),
                Real::from_bits(BALL_SPEED_Y_BITS),
                Real::from_bits(MINUS_FOUR_BITS),
            ),
            near_paddle_speed: Vector::new(zero, zero, zero),
            far_paddle_speed: Vector::new(zero, zero, zero),
        }
    }

    /// The speed of the ball, for those who draw or keep score.
    pub fn speed_of_ball(&self) -> (speed: Vector)
        ensures
            speed == self.ball_speed(),
    {
        self.ball_speed
    }

    /// Where a paddle goes in `elapsed`, and how fast it is then.
    pub fn move_paddle<A: Arithmetic>(
        unit: &A,
        scene: &mut Scene,
        elapsed: Real,
        paddle: Sphere,
        directions: Directions,
        paddle_speed: &mut Vector,
    )
        ensures
            is_paddle_move(
                unit,
                old(scene).position(paddle),
                *old(paddle_speed),
                elapsed,
                directions,
                final(scene).position(paddle),
                *final(paddle_speed),
            ),
            forall|other: Sphere|
                other != paddle ==> #[trigger] final(scene).position(other) == old(scene).position(
                    other,
                ),
    {
        let pos = scene.sphere_pos(paddle);
        let speed = *paddle_speed;
        let friction = power(unit, Real::from_bits(PADDLE_FRICTION_BITS), elapsed);
        let push = directions.to_vector(unit, Real::from_bits(PADDLE_ACCELERATION_BITS));
        let slowed = speed.mul(unit, friction);
        let pushed = push.mul(unit, elapsed);
        let fast = slowed.add(unit, pushed);
        let travelled = fast.mul(unit, elapsed);
        let free = pos.add(unit, travelled);
        let one = Real::one();
        let limits = Limits {
            left: sum(unit, scene.plane_offset(Plane::Left), one),
            right: difference(unit, scene.plane_offset(Plane::Right), one),
            bottom: sum(unit, scene.plane_offset(Plane::Bottom), one),
            top: difference(unit, scene.plane_offset(Plane::Top), one),
        };
        let mut new_speed = fast;
        if free.x().le(limits.left) || free.x().ge(limits.right) {
            new_speed.x = fast.x.neg();
        }
        if free.y().le(limits.bottom) || free.y().ge(limits.top) {
            new_speed.y = fast.y.neg();
        }
        let mut new_pos = free;
        new_pos.x = free.x().clamp(limits.left, limits.right);
        new_pos.y = free.y().clamp(limits.bottom, limits.top);
        *paddle_speed = new_speed;
        scene.move_sphere_to(paddle, new_pos);
        proof {
            assert(is_product(unit, speed.x, friction, slowed.x));
            assert(is_product(unit, push.x, elapsed, pushed.x));
            assert(is_driven(unit, speed.x, friction, push.x, elapsed, fast.x));
            assert(is_product(unit, speed.y, friction, slowed.y));
            assert(is_product(unit, push.y, elapsed, pushed.y));
            assert(is_driven(unit, speed.y, friction, push.y, elapsed, fast.y));
            assert(is_product(unit, speed.z, friction, slowed.z));
            assert(is_product(unit, push.z, elapsed, pushed.z));
            assert(is_driven(unit, speed.z, friction, push.z, elapsed, fast.z));
            assert(is_product(unit, fast.x, elapsed, travelled.x));
            assert(is_multiply_add(unit, pos.x, fast.x, elapsed, free.x));
            assert(is_product(unit, fast.y, elapsed, travelled.y));
            assert(is_multiply_add(unit, pos.y, fast.y, elapsed, free.y));
            assert(is_product(unit, fast.z, elapsed, travelled.z));
            assert(is_multiply_add(unit, pos.z, fast.z, elapsed, free.z));
            assert(is_travelled(unit, pos, fast, elapsed, free));
            assert(are_limits(unit, limits));
            assert(new_speed == turned(fast, free, limits));
            assert(new_pos == held(free, limits));
        }
    }

    /// Whether `sphere` reaches over one of the two walls across `axis`.
    pub fn collide_sphere_with_planes<A: Arithmetic>(
        unit: &A,
        axis: Axis,
        scene: &Scene,
        sphere: Sphere,
        min_plane: Plane,
        max_plane: Plane,
    ) -> (bump: Option<(Point, Plane)>)
        ensures
            is_bump(
                unit,
                axis,
                scene.position(sphere),
                sphere.radius(),
                min_plane,
                max_plane,
                bump,
            ),
    {
        let mut sphere_pos = scene.sphere_pos(sphere);
        let min_plane_offset = scene.plane_offset(min_plane);
        let max_plane_offset = scene.plane_offset(max_plane);
        let radius = scene.sphere_radius(sphere);
        let ghost pos = sphere_pos;
        let low_gap = difference(unit, sphere_pos.get_axis(axis), min_plane_offset);
        if low_gap.lt(radius) {
            let low_rest = sum(unit, min_plane_offset, radius);
            *sphere_pos.get_axis_mut(axis) = low_rest;
            proof {
                assert(is_difference(unit, pos.along(axis), min_plane.offset(), low_gap));
                assert(is_sum(unit, min_plane.offset(), radius, low_rest));
            }
            return Some((sphere_pos, min_plane));
        }
        let high_gap = difference(unit, max_plane_offset, sphere_pos.get_axis(axis));
        if high_gap.lt(radius) {
            let high_rest = difference(unit, max_plane_offset, radius);
            *sphere_pos.get_axis_mut(axis) = high_rest;
            proof {
                assert(is_difference(unit, pos.along(axis), min_plane.offset(), low_gap));
                assert(is_difference(unit, max_plane.offset(), pos.along(axis), high_gap));
                assert(is_difference(unit, max_plane.offset(), radius, high_rest));
            }
            return Some((sphere_pos, max_plane));
        }
        proof {
            assert(is_difference(unit, pos.along(axis), min_plane.offset(), low_gap));
            assert(is_difference(unit, max_plane.offset(), pos.along(axis), high_gap));
        }
        None
    }

    /// Whether `sphere_a` touches `sphere_b`.
    pub fn collide_sphere_with_sphere<A: Arithmetic>(
        unit: &A,
        scene: &Scene,
        sphere_a: Sphere,
        sphere_b: Sphere,
    ) -> (touch: Option<(Point, Vector)>)
        ensures
            is_touch(
                unit,
                scene.position(sphere_a),
                sphere_a.radius(),
                scene.position(sphere_b),
                sphere_b.radius(),
                touch,
            ),
    {
        let sphere_a_pos = scene.sphere_pos(sphere_a);
        let sphere_b_pos = scene.sphere_pos(sphere_b);
        let sphere_a_radius = scene.sphere_radius(sphere_a);
        let sphere_b_radius = scene.sphere_radius(sphere_b);
        let diff = sphere_a_pos.sub(unit, sphere_b_pos);
        let square = diff.dot(unit, diff);
        let distance = root(unit, square);
        let reach = sum(unit, sphere_a_radius, sphere_b_radius);
        if distance.lt(reach) {
            let normalized_diff = diff.div(unit, distance);
            let out = Point::new(
                multiply_add(unit, sphere_b_pos.x, normalized_diff.x, reach),
                multiply_add(unit, sphere_b_pos.y, normalized_diff.y, reach),
                multiply_add(unit, sphere_b_pos.z, normalized_diff.z, reach),
            );
            proof {
                assert(is_dot(unit, diff, diff, square));
                assert(is_root(unit, square, distance));
                assert(is_sum(unit, sphere_a_radius, sphere_b_radius, reach));
                assert(is_travelled(unit, sphere_b_pos, normalized_diff, reach, out));
            }
            return Some((out, normalized_diff));
        }
        proof {
            assert(is_dot(unit, diff, diff, square));
            assert(is_root(unit, square, distance));
            assert(is_sum(unit, sphere_a_radius, sphere_b_radius, reach));
        }
        None
    }

    /// `speed` turned around at a surface with the given normal: `speed -
    /// normal * dot(speed, normal) * 2`.
    pub fn bounce<A: Arithmetic>(unit: &A, speed: Vector, normal: Vector) -> (out: Vector)
        ensures
            is_mirrored(unit, speed, normal, out),
    {
        let along = speed.dot(unit, normal);
        let scaled = normal.mul(unit, along);
        let doubled = scaled.mul(unit, Real::two());
        let out = speed.sub(unit, doubled);
        proof {
            assert(is_dot(unit, speed, normal, along));
            assert(is_product(unit, normal.x, along, scaled.x));
            assert(is_product(unit, scaled.x, Real { bits: TWO_BITS }, doubled.x));
        }
        out
    }
}

impl MotionTicker {
    /// `moved` and `after` are `scene` and `self` once the three spheres
    /// have moved for `elapsed`: the ball at its speed, each paddle as it
    /// is pushed.
    pub open spec fn moves<A: Arithmetic>(
        self,
        unit: &A,
        scene: Scene,
        elapsed: Real,
        near_paddle_directions: Directions,
        far_paddle_directions: Directions,
        after: MotionTicker,
        moved: Scene,
    ) -> bool {
        &&& after.ball_speed() == self.ball_speed()
        &&& is_travelled(
            unit,
            scene.position(Sphere::Ball),
            self.ball_speed(),
            elapsed,
            moved.position(Sphere::Ball),
        )
        &&& is_paddle_move(
            unit,
            scene.position(Sphere::FarPaddle),
            self.far_paddle_speed(),
            elapsed,
            far_paddle_directions,
            moved.position(Sphere::FarPaddle),
            after.far_paddle_speed(),
        )
        &&& is_paddle_move(
            unit,
            scene.position(Sphere::NearPaddle),
            self.near_paddle_speed(),
            elapsed,
            near_paddle_directions,
            moved.position(Sphere::NearPaddle),
            after.near_paddle_speed(),
        )
    }

    /// `moved` and `after` are `scene` and `self` once the ball has been
    /// put at `pos` and turned around at a surface with the given normal.
    pub open spec fn rebounds<A: Arithmetic>(
        self,
        unit: &A,
        scene: Scene,
        pos: Point,
        normal: Vector,
        after: MotionTicker,
        moved: Scene,
    ) -> bool {
        &&& moved.position(Sphere::Ball) == pos
        &&& moved.position(Sphere::NearPaddle) == scene.position(Sphere::NearPaddle)
        &&& moved.position(Sphere::FarPaddle) == scene.position(Sphere::FarPaddle)
        &&& is_mirrored(unit, self.ball_speed(), normal, after.ball_speed())
        &&& after.near_paddle_speed() == self.near_paddle_speed()
        &&& after.far_paddle_speed() == self.far_paddle_speed()
    }

    /// What becomes of a ball that has touched no paddle: it rebounds from
    /// the first wall that it reaches over, those across x tried first,
    /// then those across y, then those across z; else nothing changes.
    pub open spec fn meets_walls<A: Arithmetic>(
        self,
        unit: &A,
        scene: Scene,
        from: int,
        after: MotionTicker,
        moved: Scene,
        result: MotionResult,
    ) -> bool
        decreases 3 - from,
    {
        if 0 <= from < 3 {
            exists|bump: Option<(Point, Plane)>| #[trigger]
                is_bump(
                    unit,
                    axis_of_walls(from),
                    scene.position(Sphere::Ball),
                    Sphere::Ball.radius(),
                    lower_wall(from),
                    upper_wall(from),
                    bump,
                ) && match bump {
                    Some((pos, plane)) => self.rebounds(
                        unit,
                        scene,
                        pos,
                        plane.normal(),
                        after,
                        moved,
                    ) && result == MotionResult::Colision(Obstacle::Plane(plane)),
                    None => self.meets_walls(unit, scene, from + 1, after, moved, result),
                }
        } else {
            after == self && moved.same_positions(scene) && result == MotionResult::NoCollision
        }
    }

    /// What becomes of the ball once everything has moved: it rebounds
    /// from the far paddle if it touches that, else from the near one, else
    /// from a wall.
    pub open spec fn collides<A: Arithmetic>(
        self,
        unit: &A,
        scene: Scene,
        after: MotionTicker,
        moved: Scene,
        result: MotionResult,
    ) -> bool {
        exists|far: Option<(Point, Vector)>| #[trigger]
            is_touch(
                unit,
                scene.position(Sphere::Ball),
                Sphere::Ball.radius(),
                scene.position(Sphere::FarPaddle),
                Sphere::FarPaddle.radius(),
                far,
            ) && match far {
                Some((pos, normal)) => self.rebounds(unit, scene, pos, normal, after, moved) && result
                    == MotionResult::Colision(Obstacle::Sphere(Sphere::FarPaddle)),
                None => exists|near: Option<(Point, Vector)>| #[trigger]
                    is_touch(
                        unit,
                        scene.position(Sphere::Ball),
                        Sphere::Ball.radius(),
                        scene.position(Sphere::NearPaddle),
                        Sphere::NearPaddle.radius(),
                        near,
                    ) && match near {
                        Some((pos, normal)) => self.rebounds(unit, scene, pos, normal, after, moved)
                            && result == MotionResult::Colision(
                            Obstacle::Sphere(Sphere::NearPaddle),
                        ),
                        None => self.meets_walls(unit, scene, 0, after, moved, result),
                    },
            }
    }

    /// `moved` and `after` are `scene` and `self` after a tick of
    /// `elapsed`, and `result` is what the ball ran into.
    pub open spec fn ticks<A: Arithmetic>(
        self,
        unit: &A,
        scene: Scene,
        elapsed: Real,
        near_paddle_directions: Directions,
        far_paddle_directions: Directions,
        after: MotionTicker,
        moved: Scene,
        result: MotionResult,
    ) -> bool {
        exists|between: MotionTicker, there: Scene| #[trigger]
            self.moves(
                unit,
                scene,
                elapsed,
                near_paddle_directions,
                far_paddle_directions,
                between,
                there,
            ) && between.collides(unit, there, after, moved, result)
    }

    /// Moves the spheres for `elapsed` and says what the ball ran into.
    pub fn tick<A: Arithmetic>(
        &mut self,
        unit: &A,
        scene: &mut Scene,
        elapsed: Real,
        near_paddle_directions: Directions,
        far_paddle_directions: Directions,
    ) -> (result: MotionResult)
        ensures
            old(self).ticks(
                unit,
                *old(scene),
                elapsed,
                near_paddle_directions,
                far_paddle_directions,
                *final(self),
                *final(scene),
                result,
            ),
    {
        let new_ball_pos = Point::new(
            multiply_add(unit, scene.sphere_pos(Sphere::Ball).x, self.ball_speed.x, elapsed),
            multiply_add(unit, scene.sphere_pos(Sphere::Ball).y, self.ball_speed.y, elapsed),
            multiply_add(unit, scene.sphere_pos(Sphere::Ball).z, self.ball_speed.z, elapsed),
        );
        scene.move_sphere_to(Sphere::Ball, new_ball_pos);
        Self::move_paddle(
            unit,
            scene,
            elapsed,
            Sphere::FarPaddle,
            far_paddle_directions,
            &mut self.far_paddle_speed,
        );
        Self::move_paddle(
            unit,
            scene,
            elapsed,
            Sphere::NearPaddle,
            near_paddle_directions,
            &mut self.near_paddle_speed,
        );
        let ghost between = *self;
        let ghost there = *scene;
        proof {
            assert(old(self).moves(
                unit,
                *old(scene),
                elapsed,
                near_paddle_directions,
                far_paddle_directions,
                between,
                there,
            ));
        }
        let far = Self::collide_sphere_with_sphere(unit, scene, Sphere::Ball, Sphere::FarPaddle);
        if let Some((new_pos, normal)) = far {
            scene.move_sphere_to(Sphere::Ball, new_pos);
            self.ball_speed = Self::bounce(unit, self.ball_speed, normal);
            proof {
                assert(between.rebounds(unit, there, new_pos, normal, *self, *scene));
            }
            return MotionResult::Colision(Obstacle::Sphere(Sphere::FarPaddle));
        }
        let near = Self::collide_sphere_with_sphere(unit, scene, Sphere::Ball, Sphere::NearPaddle);
        if let Some((new_pos, normal)) = near {
            scene.move_sphere_to(Sphere::Ball, new_pos);
            self.ball_speed = Self::bounce(unit, self.ball_speed, normal);
            proof {
                assert(between.rebounds(unit, there, new_pos, normal, *self, *scene));
            }
            return MotionResult::Colision(Obstacle::Sphere(Sphere::NearPaddle));
        }
        let across_x = Self::collide_sphere_with_planes(
            unit,
            Axis::XS,
            scene,
            Sphere::Ball,
            Plane::Left,
            Plane::Right,
        );
        if let Some((new_pos, plane)) = across_x {
            scene.move_sphere_to(Sphere::Ball, new_pos);
            self.ball_speed = Self::bounce(unit, self.ball_speed, scene.plane_normal(plane));
            proof {
                assert(between.rebounds(unit, there, new_pos, plane.normal(), *self, *scene));
                assert(between.meets_walls(
                    unit,
                    there,
                    0,
                    *self,
                    *scene,
                    MotionResult::Colision(Obstacle::Plane(plane)),
                ));
            }
            return MotionResult::Colision(Obstacle::Plane(plane));
        }
        let across_y = Self::collide_sphere_with_planes(
            unit,
            Axis::YS,
            scene,
            Sphere::Ball,
            Plane::Bottom,
            Plane::Top,
        );
        if let Some((new_pos, plane)) = across_y {
            scene.move_sphere_to(Sphere::Ball, new_pos);
            self.ball_speed = Self::bounce(unit, self.ball_speed, scene.plane_normal(plane));
            proof {
                let result = MotionResult::Colision(Obstacle::Plane(plane));
                assert(between.rebounds(unit, there, new_pos, plane.normal(), *self, *scene));
                assert(between.meets_walls(unit, there, 1, *self, *scene, result));
                assert(between.meets_walls(unit, there, 0, *self, *scene, result));
            }
            return MotionResult::Colision(Obstacle::Plane(plane));
        }
        let across_z = Self::collide_sphere_with_planes(
            unit,
            Axis::ZS,
            scene,
            Sphere::Ball,
            Plane::Far,
            Plane::Near,
        );
        if let Some((new_pos, plane)) = across_z {
            scene.move_sphere_to(Sphere::Ball, new_pos);
            self.ball_speed = Self::bounce(unit, self.ball_speed, scene.plane_normal(plane));
            proof {
                let result = MotionResult::Colision(Obstacle::Plane(plane));
                assert(between.rebounds(unit, there, new_pos, plane.normal(), *self, *scene));
                assert(between.meets_walls(unit, there, 2, *self, *scene, result));
                assert(between.meets_walls(unit, there, 1, *self, *scene, result));
                assert(between.meets_walls(unit, there, 0, *self, *scene, result));
            }
            return MotionResult::Colision(Obstacle::Plane(plane));
        }
        proof {
            let result = MotionResult::NoCollision;
            assert(between.meets_walls(unit, there, 3, *self, *scene, result));
            assert(between.meets_walls(unit, there, 2, *self, *scene, result));
            assert(between.meets_walls(unit, there, 1, *self, *scene, result));
            assert(between.meets_walls(unit, there, 0, *self, *scene, result));
        }
        MotionResult::NoCollision
    }
}

} // verus!
