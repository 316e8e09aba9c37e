//! A room of six dull walls with one ball in it.
//!
//! Nothing here has a reflectance of its own: at every meeting a ray
//! gathers the color it met, and counts for half as much from there on.
//! A batch whose every ray meets the ball is not tested against the walls.

use crate::lanes::{
    all, any, are_multiply_adds, both, every_lane, ge, gt, lt, minus, over, plus_times, select,
    splat,
};
use crate::math::{
    is_dot, update_reals_if, Color, Colors, Mask, Point, Points, Rays, Reals, Vector, Vectors,
    LANES,
};
pub use crate::render::scene::Scene;
use crate::render::spheres::{
    all_negative, cross_terms, is_apart, is_discriminant, is_discriminant_start, is_less_part,
    is_sphere_normal, is_sphere_toi, is_toward, reduced, sphere_normals, sphere_tois, toward,
    NormalRule,
};
use crate::render::tracer::{are_gathered, gather, is_closer, is_mirrored, mirror, MIN_TOI_BITS};
use crate::render::walls::is_wall_toi;
use crate::scalar::{
    is_difference, is_product, is_quotient, product, Arithmetic, Real, HALF_BITS, MAX_BITS,
    ONE_BITS, TWO_BITS, ZERO_BITS,
};
use crate::scene::{point_of, Plane, MINUS_FOUR_BITS, MINUS_ONE_BITS, MINUS_TWO_BITS};
use vstd::prelude::*;

verus! {

/// The bits of minus eight: where the far wall stands.
pub const MINUS_EIGHT_BITS: u32 = 0xc100_0000;

/// The bits of the single nearest to 0.7: how high the ball hangs.
pub const BALL_Y_BITS: u32 = 0x3f33_3333;

/// The number of walls.
pub const WALLS: usize = 6;

/// Where along its axis `plane` stands in this room.
pub open spec fn offset_of(plane: Plane) -> Real {
    Real {
        bits: match plane {
            Plane::Top => TWO_BITS,
            Plane::Bottom => MINUS_TWO_BITS,
            Plane::Left => MINUS_TWO_BITS,
            Plane::Right => TWO_BITS,
            Plane::Far => MINUS_EIGHT_BITS,
            Plane::Near => ZERO_BITS,
        },
    }
}

/// The color of `plane` in this room.
pub open spec fn color_of(plane: Plane) -> Color {
    match plane {
        Plane::Top => point_of(HALF_BITS, HALF_BITS, ZERO_BITS),
        Plane::Bottom => point_of(ZERO_BITS, HALF_BITS, HALF_BITS),
        Plane::Left => point_of(HALF_BITS, ZERO_BITS, HALF_BITS),
        Plane::Right => point_of(HALF_BITS, ZERO_BITS, ZERO_BITS),
        Plane::Far => point_of(ZERO_BITS, ZERO_BITS, HALF_BITS),
        Plane::Near => point_of(ZERO_BITS, HALF_BITS, ZERO_BITS),
    }
}

/// The color of the ball.
pub open spec fn ball_color() -> Color {
    point_of(HALF_BITS, HALF_BITS, HALF_BITS)
}

/// The radius of the ball.
pub open spec fn ball_radius() -> Real {
    Real { bits: HALF_BITS }
}

/// The walls, from first to last as a batch is tested against them.
pub open spec fn walls() -> Seq<Plane> {
    seq![Plane::Right, Plane::Left, Plane::Top, Plane::Bottom, Plane::Far, Plane::Near]
}

/// What a ray finds where it meets an obstacle.
pub struct Meeting {
    pub toi: Real,
    pub color: Color,
    pub normal: Vector,
}

/// The nearer of two meetings: `candidate` if it counts at all and is
/// closer, else `current`.
pub open spec fn taken(current: Meeting, candidate: Meeting, counts: bool) -> Meeting {
    if counts && is_closer(candidate.toi, current.toi) {
        candidate
    } else {
        current
    }
}

/// Per lane, the nearest meeting so far.
#[derive(Clone, Copy, Debug)]
pub struct Nearest {
    pub min_toi: Reals,
    pub obstacle_colors: Points,
    pub obstacle_normals: Points,
}

impl Nearest {
    /// The nearest meeting so far in lane `i`.
    pub open spec fn lane(self, i: int) -> Meeting {
        Meeting {
            toi: self.min_toi[i],
            color: self.obstacle_colors.lane(i),
            normal: self.obstacle_normals.lane(i),
        }
    }

    /// Nothing met yet.
    pub open spec fn is_fresh(self) -> bool {
        &&& forall|i: int| 0 <= i < LANES ==> (#[trigger] self.min_toi[i]).bits == MAX_BITS
        &&& self.obstacle_colors.all_lanes_are(point_of(ZERO_BITS, ZERO_BITS, ZERO_BITS))
        &&& self.obstacle_normals.all_lanes_are(point_of(ZERO_BITS, ZERO_BITS, ZERO_BITS))
    }

    /// `after` is `self` once a meeting at `toi` with the given colors and
    /// normals has been taken into account, in the lanes where `counts`
    /// says that there is one.
    pub open spec fn takes(
        self,
        after: Nearest,
        counts: Mask,
        toi: Reals,
        colors: Colors,
        normals: Vectors,
    ) -> bool {
        forall|i: int|
            0 <= i < LANES ==> #[trigger] after.lane(i) == taken(
                self.lane(i),
                Meeting { toi: toi[i], color: colors.lane(i), normal: normals.lane(i) },
                counts[i],
            )
    }

    /// Nothing met yet.
    pub fn new() -> (nearest: Nearest)
        ensures
            nearest.is_fresh(),
    {
        let zero = Real::zero();
        Nearest {
            min_toi: splat(Real::max_value()),
            obstacle_colors: Points::splat(zero, zero, zero),
            obstacle_normals: Points::splat(zero, zero, zero),
        }
    }

    /// Takes a meeting into account, and returns the lanes in which it was
    /// the nearest so far.
    pub fn take(&mut self, counts: Mask, toi: Reals, colors: Colors, normals: Vectors) -> (won: Mask)
        ensures
            old(self).takes(*final(self), counts, toi, colors, normals),
            forall|i: int|
                0 <= i < LANES ==> #[trigger] won[i] == (counts[i] && is_closer(
                    toi[i],
                    old(self).min_toi[i],
                )),
    {
        let mask = both(
            both(counts, gt(toi, splat(Real::from_bits(MIN_TOI_BITS)))),
            lt(toi, self.min_toi),
        );
        update_reals_if(&mut self.min_toi, mask, toi);
        self.obstacle_colors.update_if(mask, colors);
        self.obstacle_normals.update_if(mask, normals);
        proof {
            assert forall|i: int| 0 <= i < LANES implies #[trigger] self.lane(i) == taken(
                old(self).lane(i),
                Meeting { toi: toi[i], color: colors.lane(i), normal: normals.lane(i) },
                counts[i],
            ) by {
                assert(mask[i] == (counts[i] && is_closer(toi[i], old(self).min_toi[i])));
                assert(self.obstacle_colors.lane(i) == if mask[i] {
                    colors.lane(i)
                } else {
                    old(self).obstacle_colors.lane(i)
                });
                assert(self.obstacle_normals.lane(i) == if mask[i] {
                    normals.lane(i)
                } else {
                    old(self).obstacle_normals.lane(i)
                });
            }
        }
        mask
    }
}

/// `after` is `before` once `plane` has been tested against rays that
/// start at `origins` and head along `dirs`, both taken along the axis of
/// the wall.
pub open spec fn meets_plane<A: Arithmetic>(
    unit: &A,
    plane: Plane,
    origins: Reals,
    dirs: Reals,
    before: Nearest,
    after: Nearest,
) -> bool {
    exists|toi: Reals, colors: Colors, normals: Vectors|
        #![trigger before.takes(after, [true; LANES], toi, colors, normals)]
        {
            &&& forall|i: int|
                0 <= i < LANES ==> is_wall_toi(
                    unit,
                    offset_of(plane),
                    origins[i],
                    dirs[i],
                    #[trigger] toi[i],
                )
            &&& colors.all_lanes_are(color_of(plane))
            &&& normals.all_lanes_are(plane.normal())
            &&& before.takes(after, [true; LANES], toi, colors, normals)
        }
}

/// Tests the batch against `plane`.
pub fn intersect_plane<A: Arithmetic>(
    unit: &A,
    plane: Plane,
    nearest: &mut Nearest,
    origins: &Reals,
    dirs: &Reals,
)
    ensures
        meets_plane(unit, plane, *origins, *dirs, *old(nearest), *final(nearest)),
{
    let half = Real::half();
    let zero = Real::zero();
    let one = Real::one();
    let minus_one = Real::from_bits(MINUS_ONE_BITS);
    let offset = Real::from_bits(
        match plane {
            Plane::Top => TWO_BITS,
            Plane::Bottom => MINUS_TWO_BITS,
            Plane::Left => MINUS_TWO_BITS,
            Plane::Right => TWO_BITS,
            Plane::Far => MINUS_EIGHT_BITS,
            Plane::Near => ZERO_BITS,
        },
    );
    let colors = match plane {
        Plane::Top => Points::splat(half, half, zero),
        Plane::Bottom => Points::splat(zero, half, half),
        Plane::Left => Points::splat(half, zero, half),
        Plane::Right => Points::splat(half, zero, zero),
        Plane::Far => Points::splat(zero, zero, half),
        Plane::Near => Points::splat(zero, half, zero),
    };
    let normals = match plane {
        Plane::Top => Points::splat(zero, minus_one, zero),
        Plane::Bottom => Points::splat(zero, one, zero),
        Plane::Left => Points::splat(one, zero, zero),
        Plane::Right => Points::splat(minus_one, zero, zero),
        Plane::Far => Points::splat(zero, zero, one),
        Plane::Near => Points::splat(zero, zero, minus_one),
    };
    let offsets = splat(offset);
    let gaps = minus(unit, offsets, *origins);
    let toi = over(unit, gaps, *dirs);
    proof {
        assert forall|i: int| 0 <= i < LANES implies is_wall_toi(
            unit,
            offset_of(plane),
            origins[i],
            dirs[i],
            #[trigger] toi[i],
        ) by {
            assert(offsets[i] == offset_of(plane));
            assert(is_difference(unit, offsets[i], origins[i], gaps[i]));
            assert(is_quotient(unit, gaps[i], dirs[i], toi[i]));
        }
    }
    let ghost before = *nearest;
    nearest.take([true; LANES], toi, colors, normals);
    proof {
        assert(before.takes(*nearest, [true; LANES], toi, colors, normals));
    }
}

/// What a test against the ball at `center` works out where some ray
/// comes within its radius, and what it makes of it: `won` are the lanes
/// that the ball wins.
pub open spec fn ball_roots<A: Arithmetic>(
    unit: &A,
    center: Point,
    rays: Rays,
    before: Nearest,
    after: Nearest,
    won: Mask,
    deltas: Vectors,
    squares: Reals,
    d: Reals,
    towards: Reals,
    toi: Reals,
    normals: Vectors,
) -> bool {
    let counts = |i: int| (Real { bits: ZERO_BITS }).at_most(d[i]);
    &&& forall|i: int|
        0 <= i < LANES ==> {
            &&& is_toward(unit, deltas.lane(i), rays.dirs.lane(i), towards[i])
            &&& is_sphere_toi(unit, towards[i], squares[i], d[i], #[trigger] toi[i])
            &&& won[i] == (counts(i) && is_closer(toi[i], before.min_toi[i]))
            &&& won[i] ==> is_sphere_normal(
                unit,
                NormalRule::ByLength,
                rays.origins.lane(i),
                rays.dirs.lane(i),
                toi[i],
                center,
                ball_radius(),
                normals.lane(i),
            )
            &&& after.lane(i) == taken(
                before.lane(i),
                Meeting { toi: toi[i], color: ball_color(), normal: normals.lane(i) },
                counts(i),
            )
        }
}

/// `after` is `before` once the ball at `center` has been tested, with the
/// given values worked out on the way, and `won` are the lanes that the
/// ball wins.  Where no ray comes within the radius, nothing changes.
pub open spec fn ball_test<A: Arithmetic>(
    unit: &A,
    center: Point,
    rays: Rays,
    before: Nearest,
    after: Nearest,
    won: Mask,
    deltas: Vectors,
    squares: Reals,
    d: Reals,
    towards: Reals,
    toi: Reals,
    normals: Vectors,
) -> bool {
    &&& forall|i: int|
        0 <= i < LANES ==> {
            &&& is_apart(unit, rays.origins.lane(i), center, deltas.lane(i))
            &&& is_dot(unit, rays.dirs.lane(i), rays.dirs.lane(i), squares[i])
            &&& is_discriminant(
                unit,
                rays.dirs.lane(i),
                deltas.lane(i),
                squares[i],
                ball_radius(),
                3,
                #[trigger] d[i],
            )
        }
    &&& if all_negative(d) {
        after == before && forall|i: int| 0 <= i < LANES ==> !#[trigger] won[i]
    } else {
        ball_roots(
            unit,
            center,
            rays,
            before,
            after,
            won,
            deltas,
            squares,
            d,
            towards,
            toi,
            normals,
        )
    }
}

/// `after` is `before` once the ball at `center` has been tested, and `won`
/// are the lanes that the ball wins.
pub open spec fn meets_ball<A: Arithmetic>(
    unit: &A,
    center: Point,
    rays: Rays,
    before: Nearest,
    after: Nearest,
    won: Mask,
) -> bool {
    exists|deltas: Vectors, squares: Reals, d: Reals, towards: Reals, toi: Reals, normals: Vectors|
        #[trigger] ball_test(
            unit,
            center,
            rays,
            before,
            after,
            won,
            deltas,
            squares,
            d,
            towards,
            toi,
            normals,
        )
}

/// Tests the batch against the ball at `sphere_pos`, and returns the lanes
/// that the ball wins.
pub fn intersect_sphere<A: Arithmetic>(
    unit: &A,
    sphere_pos: &Point,
    nearest: &mut Nearest,
    origins: &Points,
    dirs: &Points,
) -> (won: Mask)
    ensures
        meets_ball(
            unit,
            *sphere_pos,
            Rays { origins: *origins, dirs: *dirs },
            *old(nearest),
            *final(nearest),
            won,
        ),
{
    let ghost rays = Rays { origins: *origins, dirs: *dirs };
    let ghost before = *nearest;
    let center = *sphere_pos;
    let half = Real::half();
    let squares = dirs.dot(unit, *dirs);
    let centers = Points::from_single(center);
    let deltas = origins.sub(unit, centers);
    let radius_squared = product(unit, half, half);
    let radii_squared = splat(radius_squared);
    let zeros = splat(Real::zero());
    let d0 = crate::lanes::times(unit, radii_squared, squares);
    let a = cross_terms(unit, dirs.xs, deltas.ys, dirs.ys, deltas.xs);
    let b = cross_terms(unit, dirs.xs, deltas.zs, dirs.zs, deltas.xs);
    let c = cross_terms(unit, dirs.ys, deltas.zs, dirs.zs, deltas.ys);
    let d1 = reduced(unit, d0, a);
    let d2 = reduced(unit, d1, b);
    let d = reduced(unit, d2, c);
    proof {
        assert forall|i: int| 0 <= i < LANES implies is_apart(
            unit,
            rays.origins.lane(i),
            center,
            #[trigger] deltas.lane(i),
        ) by {
            let o = origins.lane(i);
            let delta = deltas.lane(i);
            assert(centers.lane(i) == center);
            assert(is_difference(unit, o.x, center.x, delta.x));
            assert(is_difference(unit, o.y, center.y, delta.y));
            assert(is_difference(unit, o.z, center.z, delta.z));
        }
        assert forall|i: int| 0 <= i < LANES implies is_discriminant(
            unit,
            rays.dirs.lane(i),
            deltas.lane(i),
            squares[i],
            ball_radius(),
            3,
            #[trigger] d[i],
        ) by {
            let dir = dirs.lane(i);
            let delta = deltas.lane(i);
            assert(radii_squared[i] == radius_squared);
            assert(is_product(unit, radius_squared, squares[i], d0[i]));
            assert(is_less_part(unit, d0[i], dir.x, delta.y, dir.y, delta.x, d1[i]));
            assert(is_discriminant_start(
                unit,
                dir,
                delta,
                squares[i],
                ball_radius(),
                d1[i],
            ));
            assert(is_less_part(unit, d1[i], dir.x, delta.z, dir.z, delta.x, d2[i]));
            assert(is_less_part(unit, d2[i], dir.y, delta.z, dir.z, delta.y, d[i]));
        }
    }
    let mask = ge(d, zeros);
    if !any(mask) {
        proof {
            assert forall|i: int| 0 <= i < LANES implies !(Real { bits: ZERO_BITS }).at_most(
                #[trigger] d[i],
            ) by {
                assert(!mask[i]);
            }
            assert(ball_test(
                unit,
                center,
                rays,
                before,
                *nearest,
                mask,
                deltas,
                squares,
                d,
                d,
                d,
                deltas,
            ));
        }
        return mask;
    }
    let towards = toward(unit, deltas, *dirs);
    let toi = sphere_tois(unit, towards, squares, d);
    let wins = both(
        both(mask, gt(toi, splat(Real::from_bits(MIN_TOI_BITS)))),
        lt(toi, nearest.min_toi),
    );
    let reached = select(wins, toi, nearest.min_toi);
    let normals = sphere_normals(
        unit,
        NormalRule::ByLength,
        Rays { origins: *origins, dirs: *dirs },
        reached,
        center,
        half,
    );
    let colors = Points::splat(half, half, half);
    let won = nearest.take(mask, toi, colors, normals);
    proof {
        let witness = choose|i: int| 0 <= i < LANES && mask[i];
        assert(mask[witness]);
        assert((Real { bits: ZERO_BITS }).at_most(d[witness]));
        assert(!all_negative(d));
        assert forall|i: int| 0 <= i < LANES implies {
            &&& is_toward(unit, deltas.lane(i), rays.dirs.lane(i), towards[i])
            &&& is_sphere_toi(unit, towards[i], squares[i], d[i], #[trigger] toi[i])
            &&& won[i] == ((Real { bits: ZERO_BITS }).at_most(d[i]) && is_closer(
                toi[i],
                before.min_toi[i],
            ))
            &&& won[i] ==> is_sphere_normal(
                unit,
                NormalRule::ByLength,
                rays.origins.lane(i),
                rays.dirs.lane(i),
                toi[i],
                center,
                ball_radius(),
                normals.lane(i),
            )
            &&& nearest.lane(i) == taken(
                before.lane(i),
                Meeting { toi: toi[i], color: ball_color(), normal: normals.lane(i) },
                (Real { bits: ZERO_BITS }).at_most(d[i]),
            )
        } by {
            assert(mask[i] == (Real { bits: ZERO_BITS }).at_most(d[i]));
            assert(wins[i] == won[i]);
            if won[i] {
                assert(reached[i] == toi[i]);
            }
            assert(colors.lane(i) == ball_color());
            assert(nearest.lane(i) == taken(
                before.lane(i),
                Meeting { toi: toi[i], color: colors.lane(i), normal: normals.lane(i) },
                mask[i],
            ));
        }
        assert(ball_test(
            unit,
            center,
            rays,
            before,
            *nearest,
            won,
            deltas,
            squares,
            d,
            towards,
            toi,
            normals,
        ));
    }
    won
}

/// A batch on its way: its rays, the light gathered so far, and what
/// share of the light still to come will count.
#[derive(Clone, Copy, Debug)]
pub struct Course {
    pub rays: Rays,
    pub offset_colors: Colors,
    pub coef_colors: Colors,
}

/// `after` is `before` once the walls from number `from` on have been
/// tested against `rays`, each in its turn.
pub open spec fn meets_walls<A: Arithmetic>(
    unit: &A,
    rays: Rays,
    before: Nearest,
    from: int,
    after: Nearest,
) -> bool
    decreases WALLS - from,
{
    if 0 <= from < WALLS {
        let plane = walls()[from];
        exists|next: Nearest| #[trigger]
            meets_plane(
                unit,
                plane,
                rays.origins.along(plane.axis()),
                rays.dirs.along(plane.axis()),
                before,
                next,
            ) && meets_walls(unit, rays, next, from + 1, after)
    } else {
        after == before
    }
}

/// `after` is `before` once the batch has left its nearest meetings: each
/// ray starts again where it met its obstacle, mirrored there; it has
/// gathered the color it met, as far as light from there still counted;
/// and what is still to come counts for half as much.
pub open spec fn bounces<A: Arithmetic>(
    unit: &A,
    before: Course,
    nearest: Nearest,
    after: Course,
) -> bool {
    let half = Real { bits: HALF_BITS };
    &&& are_multiply_adds(
        unit,
        before.rays.origins.xs,
        before.rays.dirs.xs,
        nearest.min_toi,
        after.rays.origins.xs,
    )
    &&& are_multiply_adds(
        unit,
        before.rays.origins.ys,
        before.rays.dirs.ys,
        nearest.min_toi,
        after.rays.origins.ys,
    )
    &&& are_multiply_adds(
        unit,
        before.rays.origins.zs,
        before.rays.dirs.zs,
        nearest.min_toi,
        after.rays.origins.zs,
    )
    &&& forall|i: int|
        0 <= i < LANES ==> is_mirrored(
            unit,
            before.rays.dirs.lane(i),
            nearest.obstacle_normals.lane(i),
            #[trigger] after.rays.dirs.lane(i),
        )
    &&& are_gathered(
        unit,
        before.offset_colors,
        before.coef_colors,
        nearest.obstacle_colors,
        after.offset_colors,
    )
    &&& forall|i: int|
        0 <= i < LANES ==> is_product(
            unit,
            before.coef_colors.xs[i],
            half,
            #[trigger] after.coef_colors.xs[i],
        )
    &&& forall|i: int|
        0 <= i < LANES ==> is_product(
            unit,
            before.coef_colors.ys[i],
            half,
            #[trigger] after.coef_colors.ys[i],
        )
    &&& forall|i: int|
        0 <= i < LANES ==> is_product(
            unit,
            before.coef_colors.zs[i],
            half,
            #[trigger] after.coef_colors.zs[i],
        )
}

/// The room with its ball.
pub struct FixedScene {
    sphere_pos: Point,
}

impl FixedScene {
    /// Where the ball is.
    pub closed spec fn ball(self) -> Point {
        self.sphere_pos
    }

    /// `after` is `before` one meeting later: the batch is tested against
    /// the ball and, unless the ball wins every lane, against the walls;
    /// then it leaves what it met.
    pub open spec fn round<A: Arithmetic>(self, unit: &A, before: Course, after: Course) -> bool {
        exists|fresh: Nearest, ball: Nearest, won: Mask, nearest: Nearest|
            #![trigger meets_ball(unit, self.ball(), before.rays, fresh, ball, won), bounces(unit, before, nearest, after)]
            fresh.is_fresh() && meets_ball(unit, self.ball(), before.rays, fresh, ball, won) && (
            if every_lane(won) {
                nearest == ball
            } else {
                meets_walls(unit, before.rays, ball, 0, nearest)
            }) && bounces(unit, before, nearest, after)
    }

    /// `after` is `before` `count` meetings later.
    pub open spec fn rounds<A: Arithmetic>(
        self,
        unit: &A,
        before: Course,
        count: nat,
        after: Course,
    ) -> bool
        decreases count,
    {
        if count == 0 {
            after == before
        } else {
            exists|next: Course| #[trigger]
                self.round(unit, before, next) && self.rounds(
                    unit,
                    next,
                    (count - 1) as nat,
                    after,
                )
        }
    }

    /// `colors` is what a batch of `rays` brings back after `depth`
    /// meetings, with white for what lies beyond the last.
    pub open spec fn sees<A: Arithmetic>(
        self,
        unit: &A,
        rays: Rays,
        depth: usize,
        colors: Colors,
    ) -> bool {
        exists|start: Course, end: Course, white: Colors|
            #![trigger self.rounds(unit, start, depth as nat, end), are_gathered(unit, end.offset_colors, end.coef_colors, white, colors)]
            {
                &&& start.rays == rays
                &&& start.offset_colors.all_lanes_are(point_of(ZERO_BITS, ZERO_BITS, ZERO_BITS))
                &&& start.coef_colors.all_lanes_are(point_of(ONE_BITS, ONE_BITS, ONE_BITS))
                &&& white.all_lanes_are(point_of(ONE_BITS, ONE_BITS, ONE_BITS))
                &&& self.rounds(unit, start, depth as nat, end)
                &&& are_gathered(unit, end.offset_colors, end.coef_colors, white, colors)
            }
    }

    /// The room with the ball at `(-1, 0.7, -4)`.
    pub fn new() -> (scene: Self)
        ensures
            scene.ball() == point_of(MINUS_ONE_BITS, BALL_Y_BITS, MINUS_FOUR_BITS),
    {
        FixedScene {
            sphere_pos: Point::new(
                Real::from_bits(MINUS_ONE_BITS),
                Real::from_bits(BALL_Y_BITS),
                Real::from_bits(MINUS_FOUR_BITS),
            ),
        }
    }

    /// Tests the batch against every wall.
    fn intersect_planes<A: Arithmetic>(unit: &A, nearest: &mut Nearest, rays: &Rays)
        ensures
            meets_walls(unit, *rays, *old(nearest), 0, *final(nearest)),
    {
        let order = [Plane::Right, Plane::Left, Plane::Top, Plane::Bottom, Plane::Far, Plane::Near];
        let mut k: usize = 0;
        while k < WALLS
            invariant
                k <= WALLS,
                order@ == walls(),
                forall|end: Nearest| #[trigger]
                    meets_walls(unit, *rays, *nearest, k as int, end) ==> meets_walls(
                        unit,
                        *rays,
                        *old(nearest),
                        0,
                        end,
                    ),
            decreases WALLS - k,
        {
            let plane = order[k];
            let ghost before = *nearest;
            let axis = crate::scene::wall_axis(plane);
            intersect_plane(
                unit,
                plane,
                nearest,
                rays.origins.get_axis(axis),
                rays.dirs.get_axis(axis),
            );
            proof {
                assert(plane == walls()[k as int]);
                assert forall|end: Nearest| #[trigger]
                    meets_walls(unit, *rays, *nearest, k + 1, end) implies meets_walls(
                    unit,
                    *rays,
                    *old(nearest),
                    0,
                    end,
                ) by {
                    assert(meets_plane(
                        unit,
                        plane,
                        rays.origins.along(plane.axis()),
                        rays.dirs.along(plane.axis()),
                        before,
                        *nearest,
                    ));
                    assert(meets_walls(unit, *rays, before, k as int, end));
                }
            }
            k += 1;
        }
        assert(meets_walls(unit, *rays, *nearest, WALLS as int, *nearest));
    }

    /// Takes the batch from one meeting to the next.
    fn step<A: Arithmetic>(&self, unit: &A, course: &mut Course)
        ensures
            self.round(unit, *old(course), *final(course)),
    {
        let ghost before = *course;
        let mut nearest = Nearest::new();
        let ghost fresh = nearest;
        let rays = course.rays;
        let won = intersect_sphere(unit, &self.sphere_pos, &mut nearest, &rays.origins, &rays.dirs);
        let ghost ball = nearest;
        if !all(won) {
            Self::intersect_planes(unit, &mut nearest, &rays);
        }
        let pois = Points {
            xs: plus_times(unit, rays.origins.xs, rays.dirs.xs, nearest.min_toi),
            ys: plus_times(unit, rays.origins.ys, rays.dirs.ys, nearest.min_toi),
            zs: plus_times(unit, rays.origins.zs, rays.dirs.zs, nearest.min_toi),
        };
        let reflection_dirs = mirror(unit, rays.dirs, nearest.obstacle_normals);
        course.rays = Rays::new(pois, reflection_dirs);
        course.offset_colors =
        gather(unit, course.offset_colors, course.coef_colors, nearest.obstacle_colors);
        let half = Real::half();
        let halves = Points::splat(half, half, half);
        let ghost coef = course.coef_colors;
        course.coef_colors = course.coef_colors.mul(unit, halves);
        proof {
            assert forall|i: int| 0 <= i < LANES implies is_product(
                unit,
                coef.xs[i],
                Real { bits: HALF_BITS },
                #[trigger] course.coef_colors.xs[i],
            ) by {
                assert(halves.lane(i).x == half);
            }
            assert forall|i: int| 0 <= i < LANES implies is_product(
                unit,
                coef.ys[i],
                Real { bits: HALF_BITS },
                #[trigger] course.coef_colors.ys[i],
            ) by {
                assert(halves.lane(i).y == half);
            }
            assert forall|i: int| 0 <= i < LANES implies is_product(
                unit,
                coef.zs[i],
                Real { bits: HALF_BITS },
                #[trigger] course.coef_colors.zs[i],
            ) by {
                assert(halves.lane(i).z == half);
            }
            assert(bounces(unit, before, nearest, *course));
            assert(meets_ball(unit, self.ball(), before.rays, fresh, ball, won));
        }
    }
}

impl<A: Arithmetic> Scene<A> for FixedScene {
    fn rays_colors(&self, unit: &A, rays: Rays, depth: usize) -> (colors: Points)
        ensures
            self.sees(unit, rays, depth, colors),
    {
        let zero = Real::zero();
        let one = Real::one();
        let mut course = Course {
            rays,
            offset_colors: Points::splat(zero, zero, zero),
            coef_colors: Points::splat(one, one, one),
        };
        let base_colors = Points::splat(one, one, one);
        let ghost start = course;
        let mut k: usize = 0;
        while k < depth
            invariant
                k <= depth,
                forall|end: Course| #[trigger]
                    self.rounds(unit, course, (depth - k) as nat, end) ==> self.rounds(
                        unit,
                        start,
                        depth as nat,
                        end,
                    ),
            decreases depth - k,
        {
            let ghost before = course;
            self.step(unit, &mut course);
            proof {
                assert forall|end: Course| #[trigger]
                    self.rounds(unit, course, (depth - (k + 1)) as nat, end) implies self.rounds(
                    unit,
                    start,
                    depth as nat,
                    end,
                ) by {
                    assert(self.round(unit, before, course));
                    assert(self.rounds(unit, before, (depth - k) as nat, end));
                }
            }
            k += 1;
        }
        assert(self.rounds(unit, course, (depth - k) as nat, course));
        let colors = gather(unit, course.offset_colors, course.coef_colors, base_colors);
        proof {
            assert(self.rounds(unit, start, depth as nat, course));
            assert(are_gathered(unit, course.offset_colors, course.coef_colors, base_colors, colors));
        }
        colors
    }
}

} // verus!
