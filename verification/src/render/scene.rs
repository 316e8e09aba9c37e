//! Scenes that say themselves what a batch of rays sees in them, and one
//! such scene: a room with a ball that can be moved and two paddles that
//! cannot.

use crate::math::{Color, Colors, Point, Points, Rays};
use crate::render::spheres::NormalRule;
use crate::render::tracer::{are_gathered, is_traced, trace_rays, RaysProjections};
use crate::scalar::{is_sum, sum, Arithmetic, Real, HALF_BITS, ONE_BITS, ZERO_BITS};
use crate::scene::{
    point_of, radius_of, wall_axis, wall_color, wall_normal, wall_offset, wall_reflectance,
    Obstacle, Plane, Sphere, MINUS_ONE_BITS, MINUS_SIX_BITS, MINUS_TWO_BITS, TENTH_BITS,
};
use vstd::prelude::*;

verus! {

/// The bits of the single nearest to 3.9: where the near paddle of a
/// [`FixedScene`] stands along z.
pub const FIXED_NEAR_PADDLE_Z_BITS: u32 = 0x4079_999a;

/// The bits of the single nearest to -19.9: where the far paddle of a
/// [`FixedScene`] stands along z.
pub const FIXED_FAR_PADDLE_Z_BITS: u32 = 0xc19f_3333;

/// The number of obstacles of a [`FixedScene`].
pub const FIXED_OBSTACLES: usize = 9;

/// Something that rays can be sent into, given a unit of arithmetic `A` to
/// follow them with.
pub trait Scene<A: Arithmetic> {
    /// The light that each ray of the batch brings back, reflected `depth`
    /// times at most.
    fn rays_colors(&self, unit: &A, rays: Rays, depth: usize) -> Points;
}

/// `light` is what `scene` gave for the batch `rays`, reflected `depth`
/// times at most.
pub open spec fn is_seen<A: Arithmetic, S: Scene<A>>(
    unit: &A,
    scene: &S,
    rays: Rays,
    depth: usize,
    light: Colors,
) -> bool {
    call_ensures(S::rays_colors, (scene, unit, rays, depth), light)
}

/// What `scene` gives for `rays`.
pub fn see<A: Arithmetic, S: Scene<A>>(unit: &A, scene: &S, rays: Rays, depth: usize) -> (light: Colors)
    ensures
        is_seen(unit, scene, rays, depth, light),
{
    let trace = S::rays_colors;
    trace(scene, unit, rays, depth)
}

/// A room, a ball and two paddles.  The paddles stand still and reflect
/// nothing; the ball can be moved.
pub struct FixedScene {
    sphere_pos: Point,
}

/// The obstacles of a [`FixedScene`], from first to last as a ray is tested
/// against them: the ball, the walls, then the paddles.
pub open spec fn fixed_order() -> Seq<Obstacle> {
    seq![
        Obstacle::Sphere(Sphere::Ball),
        Obstacle::Plane(Plane::Top),
        Obstacle::Plane(Plane::Bottom),
        Obstacle::Plane(Plane::Left),
        Obstacle::Plane(Plane::Right),
        Obstacle::Plane(Plane::Far),
        Obstacle::Plane(Plane::Near),
        Obstacle::Sphere(Sphere::FarPaddle),
        Obstacle::Sphere(Sphere::NearPaddle),
    ]
}

/// The color of a sphere of a [`FixedScene`]: the ball is dark, the far
/// paddle black and the near one white.
pub open spec fn fixed_color(sphere: Sphere) -> Color {
    match sphere {
        Sphere::Ball => point_of(TENTH_BITS, TENTH_BITS, TENTH_BITS),
        Sphere::FarPaddle => point_of(ZERO_BITS, ZERO_BITS, ZERO_BITS),
        Sphere::NearPaddle => point_of(ONE_BITS, ONE_BITS, ONE_BITS),
    }
}

/// The reflectance of a sphere of a [`FixedScene`]: one half for the
/// ball, nothing for the paddles.
pub open spec fn fixed_reflectance(sphere: Sphere) -> Real {
    Real {
        bits: match sphere {
            Sphere::Ball => HALF_BITS,
            _ => ZERO_BITS,
        },
    }
}

impl FixedScene {
    /// Where the ball is.
    pub closed spec fn ball(self) -> Point {
        self.sphere_pos
    }

    /// Where `sphere` is.
    pub open spec fn center(self, sphere: Sphere) -> Point {
        match sphere {
            Sphere::Ball => self.ball(),
            Sphere::FarPaddle => point_of(ZERO_BITS, ZERO_BITS, FIXED_FAR_PADDLE_Z_BITS),
            Sphere::NearPaddle => point_of(ZERO_BITS, ZERO_BITS, FIXED_NEAR_PADDLE_Z_BITS),
        }
    }

    /// `after` is `before` once `obstacle` has been tested.  The normals of
    /// the spheres are brought to length one by their own length.
    pub open spec fn tests<A: Arithmetic>(
        self,
        unit: &A,
        before: RaysProjections,
        obstacle: Obstacle,
        after: RaysProjections,
    ) -> bool {
        match obstacle {
            Obstacle::Plane(plane) => before.tests_wall(
                unit,
                after,
                plane.axis(),
                plane.offset(),
                plane.normal(),
                plane.color(),
                plane.reflectance(),
            ),
            Obstacle::Sphere(sphere) => before.tests_sphere_by(
                unit,
                NormalRule::ByLength,
                after,
                self.center(sphere),
                sphere.radius(),
                fixed_color(sphere),
                fixed_reflectance(sphere),
            ),
        }
    }

    /// `after` is `before` once the obstacles from number `from` on have
    /// been tested, each in its turn.
    pub open spec fn searches<A: Arithmetic>(
        self,
        unit: &A,
        before: RaysProjections,
        from: int,
        after: RaysProjections,
    ) -> bool
        decreases FIXED_OBSTACLES - from,
    {
        if 0 <= from < FIXED_OBSTACLES {
            exists|next: RaysProjections| #[trigger]
                self.tests(unit, before, fixed_order()[from], next) && self.searches(
                    unit,
                    next,
                    from + 1,
                    after,
                )
        } else {
            after == before
        }
    }

    /// `end` is what becomes of `start` on its way through the scene.
    pub open spec fn traces<A: Arithmetic>(
        self,
        unit: &A,
        start: RaysProjections,
        end: RaysProjections,
    ) -> bool
        decreases start.depth_left,
    {
        exists|searched: RaysProjections, reflected: RaysProjections, done: bool|
            #![trigger self.searches(unit, start, 0, searched), searched.reflects(unit, reflected, done)]
            self.searches(unit, start, 0, searched) && searched.depth_left == start.depth_left
                && searched.reflects(unit, reflected, done) && if done {
                end == reflected
            } else {
                self.traces(unit, reflected, end)
            }
    }

    /// `colors` is what a batch of `rays` brings back from the scene within
    /// `depth` reflections, with white for what lies beyond its last
    /// meeting.  With no reflection allowed it brings back white.
    pub open spec fn sees<A: Arithmetic>(
        self,
        unit: &A,
        rays: Rays,
        depth: usize,
        colors: Colors,
    ) -> bool {
        exists|start: RaysProjections, end: RaysProjections, white: Colors|
            #![trigger start.is_fresh(rays, depth), are_gathered(unit, end.offset_colors, end.coef_colors, white, colors)]
            start.is_fresh(rays, depth) && white.all_lanes_are(point_of(ONE_BITS, ONE_BITS, ONE_BITS))
                && are_gathered(unit, end.offset_colors, end.coef_colors, white, colors) && if depth
                == 0 {
                end == start
            } else {
                self.traces(unit, start, end)
            }
    }

    /// The scene with the ball at `(-2, -1, -6)`.
    pub fn new() -> (scene: Self)
        ensures
            scene.ball() == point_of(MINUS_TWO_BITS, MINUS_ONE_BITS, MINUS_SIX_BITS),
    {
        FixedScene {
            sphere_pos: Point::new(
                Real::from_bits(MINUS_TWO_BITS),
                Real::from_bits(MINUS_ONE_BITS),
                Real::from_bits(MINUS_SIX_BITS),
            ),
        }
    }

    /// Moves the ball by the given deltas.
    pub fn move_sphere<A: Arithmetic>(&mut self, unit: &A, delta_x: Real, delta_y: Real, delta_z: Real)
        ensures
            is_sum(unit, old(self).ball().x, delta_x, final(self).ball().x),
            is_sum(unit, old(self).ball().y, delta_y, final(self).ball().y),
            is_sum(unit, old(self).ball().z, delta_z, final(self).ball().z),
    {
        self.sphere_pos.x = sum(unit, self.sphere_pos.x, delta_x);
        self.sphere_pos.y = sum(unit, self.sphere_pos.y, delta_y);
        self.sphere_pos.z = sum(unit, self.sphere_pos.z, delta_z);
    }

    /// Tests `projections` against `obstacle`.
    fn test<A: Arithmetic>(&self, unit: &A, projections: &mut RaysProjections, obstacle: Obstacle)
        ensures
            self.tests(unit, *old(projections), obstacle, *final(projections)),
            final(projections).same_course(*old(projections)),
    {
        let ghost before = *projections;
        match obstacle {
            Obstacle::Plane(plane) => {
                projections.with_axis_aligned_plane(
                    unit,
                    wall_axis(plane),
                    wall_offset(plane),
                    wall_normal(plane),
                    wall_color(plane),
                    wall_reflectance(plane),
                );
                proof {
                    before.lemma_wall_keeps_course(
                        unit,
                        *projections,
                        plane.axis(),
                        plane.offset(),
                        plane.normal(),
                        plane.color(),
                        plane.reflectance(),
                    );
                }
            },
            Obstacle::Sphere(sphere) => {
                let zero = Real::zero();
                let one = Real::one();
                let tenth = Real::from_bits(TENTH_BITS);
                let (center, color, reflectance) = match sphere {
                    Sphere::Ball => (
                        self.sphere_pos,
                        Point::new(tenth, tenth, tenth),
                        Real::from_bits(HALF_BITS),
                    ),
                    Sphere::FarPaddle => (
                        Point::new(zero, zero, Real::from_bits(FIXED_FAR_PADDLE_Z_BITS)),
                        Point::new(zero, zero, zero),
                        zero,
                    ),
                    Sphere::NearPaddle => (
                        Point::new(zero, zero, Real::from_bits(FIXED_NEAR_PADDLE_Z_BITS)),
                        Point::new(one, one, one),
                        zero,
                    ),
                };
                projections.with_sphere_by(
                    unit,
                    NormalRule::ByLength,
                    center,
                    radius_of(sphere),
                    color,
                    reflectance,
                );
                proof {
                    before.lemma_sphere_keeps_course(
                        unit,
                        NormalRule::ByLength,
                        *projections,
                        center,
                        sphere.radius(),
                        color,
                        reflectance,
                    );
                }
            },
        }
    }

    /// Tests `projections` against every obstacle of the scene.
    fn search<A: Arithmetic>(&self, unit: &A, projections: &mut RaysProjections)
        ensures
            self.searches(unit, *old(projections), 0, *final(projections)),
            final(projections).same_course(*old(projections)),
    {
        let order = [
            Obstacle::Sphere(Sphere::Ball),
            Obstacle::Plane(Plane::Top),
            Obstacle::Plane(Plane::Bottom),
            Obstacle::Plane(Plane::Left),
            Obstacle::Plane(Plane::Right),
            Obstacle::Plane(Plane::Far),
            Obstacle::Plane(Plane::Near),
            Obstacle::Sphere(Sphere::FarPaddle),
            Obstacle::Sphere(Sphere::NearPaddle),
        ];
        let mut k: usize = 0;
        while k < FIXED_OBSTACLES
            invariant
                k <= FIXED_OBSTACLES,
                order@ == fixed_order(),
                projections.same_course(*old(projections)),
                forall|end: RaysProjections| #[trigger]
                    self.searches(unit, *projections, k as int, end) ==> self.searches(
                        unit,
                        *old(projections),
                        0,
                        end,
                    ),
            decreases FIXED_OBSTACLES - k,
        {
            let ghost before = *projections;
            self.test(unit, projections, order[k]);
            proof {
                assert(order[k as int] == fixed_order()[k as int]);
                assert forall|end: RaysProjections| #[trigger]
                    self.searches(unit, *projections, k + 1, end) implies self.searches(
                    unit,
                    *old(projections),
                    0,
                    end,
                ) by {
                    assert(self.tests(unit, before, fixed_order()[k as int], *projections));
                    assert(self.searches(unit, before, k as int, end));
                }
            }
            k += 1;
        }
        assert(self.searches(unit, *projections, FIXED_OBSTACLES as int, *projections));
    }
}

impl<A: Arithmetic> Scene<A> for FixedScene {
    fn rays_colors(&self, unit: &A, rays: Rays, depth: usize) -> (colors: Points)
        ensures
            self.sees(unit, rays, depth, colors),
    {
        let mut projections = RaysProjections::new(rays, depth);
        let ghost start = projections;
        let one = Real::one();
        let white = Points::splat(one, one, one);
        if depth == 0 {
            let colors = projections.finish(unit, white);
            proof {
                assert(start.is_fresh(rays, depth));
                assert(are_gathered(unit, start.offset_colors, start.coef_colors, white, colors));
            }
            return colors;
        }
        loop
            invariant_except_break
                projections.depth_left >= 1,
                forall|end: RaysProjections| #[trigger]
                    self.traces(unit, projections, end) ==> self.traces(unit, start, end),
            ensures
                self.traces(unit, start, projections),
            decreases projections.depth_left,
        {
            let ghost before = projections;
            self.search(unit, &mut projections);
            let done = projections.reflect(unit);
            proof {
                if done {
                    assert(self.traces(unit, before, projections));
                } else {
                    assert forall|end: RaysProjections| #[trigger]
                        self.traces(unit, projections, end) implies self.traces(
                        unit,
                        start,
                        end,
                    ) by {
                        assert(self.traces(unit, before, end));
                    }
                }
            }
            if done {
                break ;
            }
        }
        let colors = projections.finish(unit, white);
        proof {
            assert(start.is_fresh(rays, depth));
            assert(are_gathered(
                unit,
                projections.offset_colors,
                projections.coef_colors,
                white,
                colors,
            ));
        }
        colors
    }
}

impl<A: Arithmetic> Scene<A> for crate::scene::Scene {
    /// What the rays see in the room of the game.  With no reflection
    /// allowed they see white.
    fn rays_colors(&self, unit: &A, rays: Rays, depth: usize) -> (colors: Points)
        ensures
            depth >= 1 ==> is_traced(unit, *self, rays, depth, colors),
            depth == 0 ==> exists|start: RaysProjections, white: Colors|
                #![trigger start.is_fresh(rays, depth), are_gathered(unit, start.offset_colors, start.coef_colors, white, colors)]
                start.is_fresh(rays, depth) && white.all_lanes_are(
                    point_of(ONE_BITS, ONE_BITS, ONE_BITS),
                ) && are_gathered(unit, start.offset_colors, start.coef_colors, white, colors),
    {
        if depth == 0 {
            let start = RaysProjections::new(rays, depth);
            let one = Real::one();
            let white = Points::splat(one, one, one);
            let colors = start.finish(unit, white);
            proof {
                assert(start.is_fresh(rays, depth));
                assert(are_gathered(unit, start.offset_colors, start.coef_colors, white, colors));
            }
            colors
        } else {
            trace_rays(unit, self, rays, depth)
        }
    }
}

/// What the room of the game gives for a batch of rays is what tracing
/// gives.
pub proof fn lemma_room_is_traced<A: Arithmetic>(
    unit: &A,
    scene: &crate::scene::Scene,
    rays: Rays,
    depth: usize,
    light: Colors,
)
    requires
        depth >= 1,
        is_seen(unit, scene, rays, depth, light),
    ensures
        is_traced(unit, *scene, rays, depth, light),
{
}

/// What a [`FixedScene`] gives for a batch of rays is what [`FixedScene::sees`]
/// says.
pub proof fn lemma_fixed_scene_is_seen<A: Arithmetic>(
    unit: &A,
    scene: &FixedScene,
    rays: Rays,
    depth: usize,
    light: Colors,
)
    requires
        is_seen(unit, scene, rays, depth, light),
    ensures
        scene.sees(unit, rays, depth, light),
{
}

} // verus!
