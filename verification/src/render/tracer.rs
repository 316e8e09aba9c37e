//! A batch of rays on its way through the scene.
//!
//! A batch is tested against every obstacle in turn.  Per lane the nearest
//! meeting so far is kept: how far along the ray it lies (the time of
//! intersection), and the color, normal and reflectance found there.  Then
//! the batch is reflected and tested again, until no lane reflects or the
//! depth is used up.
//!
//! How a wall or a sphere is tested is told in [`crate::render::walls`] and
//! [`crate::render::spheres`]; what holds of it all in
//! [`crate::render::laws`].

use crate::lanes::{all, are_multiply_adds, are_products, eq, every_lane, plus_times, splat};
use crate::math::{is_dot, Color, Colors, Points, Rays, Reals, Vector, Vectors, LANES};
use crate::scalar::{
    is_difference, is_product, Arithmetic, Real, MAX_BITS, ONE_BITS, TWO_BITS, ZERO_BITS,
};
use crate::scene::{
    all_planes, all_spheres, point_of, Obstacle, Scene, PLANES_COUNT, SPHERES_COUNT,
};
use vstd::prelude::*;

verus! {

/// The bits of the single nearest to 0.001: a meeting nearer than this is
/// taken for the surface that the ray has just left.
pub const MIN_TOI_BITS: u32 = 0x3a83_126f;

/// What a ray finds where it meets an obstacle.
pub struct Hit {
    /// How far along the ray the meeting lies, in lengths of its direction.
    pub toi: Real,
    pub color: Color,
    pub normal: Vector,
    pub reflectance: Real,
}

/// Whether a meeting at `toi` replaces one at `min_toi`: it must lie
/// strictly beyond the least distance and strictly before the other.
pub open spec fn is_closer(toi: Real, min_toi: Real) -> bool {
    (Real { bits: MIN_TOI_BITS }).less(toi) && toi.less(min_toi)
}

/// The nearer of the two meetings: `candidate` if it counts at all and is
/// closer, else `current`.
pub open spec fn nearer(current: Hit, candidate: Hit, counts: bool) -> Hit {
    if counts && is_closer(candidate.toi, current.toi) {
        candidate
    } else {
        current
    }
}

/// The state of one batch of rays on its way through the scene.
pub struct RaysProjections {
    pub rays: Rays,
    /// Per lane, how far the nearest meeting so far lies.
    pub min_toi: Reals,
    pub obstacle_reflectances: Reals,
    pub obstacle_colors: Colors,
    pub obstacle_normals: Vectors,
    /// The light gathered so far.
    pub offset_colors: Colors,
    /// What share of the light still to come will count.
    pub coef_colors: Colors,
    /// How many more times the batch may be reflected.
    pub depth_left: usize,
}

impl RaysProjections {
    /// The nearest meeting so far in lane `i`.
    pub open spec fn winner(self, i: int) -> Hit {
        Hit {
            toi: self.min_toi[i],
            color: self.obstacle_colors.lane(i),
            normal: self.obstacle_normals.lane(i),
            reflectance: self.obstacle_reflectances[i],
        }
    }

    /// Everything but the nearest meetings is as in `other`.
    pub open spec fn same_course(self, other: RaysProjections) -> bool {
        &&& self.rays == other.rays
        &&& self.offset_colors == other.offset_colors
        &&& self.coef_colors == other.coef_colors
        &&& self.depth_left == other.depth_left
    }

    /// No lane reflects any light.
    pub open spec fn is_exhausted(self) -> bool {
        forall|i: int| 0 <= i < LANES ==> (#[trigger] self.obstacle_reflectances[i]).is_zero()
    }

    /// A batch that has met nothing yet: nothing gathered, everything still
    /// to come counts in full.  A lane that meets nothing keeps the color
    /// black and the reflectance one, so that it gathers nothing and loses
    /// nothing on its way.
    pub fn new(rays: Rays, max_depth: usize) -> (r: RaysProjections)
        ensures
            r.rays == rays,
            r.depth_left == max_depth,
            forall|i: int| 0 <= i < LANES ==> (#[trigger] r.min_toi[i]).bits == MAX_BITS,
            forall|i: int|
                0 <= i < LANES ==> (#[trigger] r.obstacle_reflectances[i]).bits == ONE_BITS,
            r.obstacle_colors.all_lanes_are(point_of(ZERO_BITS, ZERO_BITS, ZERO_BITS)),
            r.obstacle_normals.all_lanes_are(point_of(ZERO_BITS, ZERO_BITS, ZERO_BITS)),
            r.offset_colors.all_lanes_are(point_of(ZERO_BITS, ZERO_BITS, ZERO_BITS)),
            r.coef_colors.all_lanes_are(point_of(ONE_BITS, ONE_BITS, ONE_BITS)),
    {
        let zero = Real::zero();
        let one = Real::one();
        RaysProjections {
            rays,
            min_toi: splat(Real::max_value()),
            obstacle_reflectances: splat(one),
            obstacle_colors: Points::splat(zero, zero, zero),
            obstacle_normals: Points::splat(zero, zero, zero),
            offset_colors: Points::splat(zero, zero, zero),
            coef_colors: Points::splat(one, one, one),
            depth_left: max_depth,
        }
    }

    /// Whether no lane reflects any light.
    pub fn exhausted(&self) -> (r: bool)
        ensures
            r == self.is_exhausted(),
    {
        let zeros = eq(self.obstacle_reflectances, splat(Real::zero()));
        let r = all(zeros);
        proof {
            if r {
                assert forall|i: int| 0 <= i < LANES implies (
                #[trigger] self.obstacle_reflectances[i]).is_zero() by {
                    assert(zeros[i]);
                }
            } else {
                if self.is_exhausted() {
                    assert forall|i: int| 0 <= i < LANES implies zeros[i] by {
                        assert(self.obstacle_reflectances[i].is_zero());
                    }
                    assert(every_lane(zeros));
                }
            }
        }
        r
    }
}

/// `out` is what `unit` gave for `dir - normal * dot(dir, normal) * 2`,
/// number by number and from left to right: `dir` mirrored at the surface
/// with the given normal.
pub open spec fn is_mirrored<A: Arithmetic>(
    unit: &A,
    dir: Vector,
    normal: Vector,
    out: Vector,
) -> bool {
    exists|along: Real, scaled: Vector, doubled: Vector|
        #![trigger is_dot(unit, dir, normal, along), is_product(unit, normal.x, along, scaled.x), is_product(unit, scaled.x, Real { bits: TWO_BITS }, doubled.x)]
        {
            &&& is_dot(unit, dir, normal, along)
            &&& is_product(unit, normal.x, along, scaled.x)
            &&& is_product(unit, normal.y, along, scaled.y)
            &&& is_product(unit, normal.z, along, scaled.z)
            &&& is_product(unit, scaled.x, Real { bits: TWO_BITS }, doubled.x)
            &&& is_product(unit, scaled.y, Real { bits: TWO_BITS }, doubled.y)
            &&& is_product(unit, scaled.z, Real { bits: TWO_BITS }, doubled.z)
            &&& is_difference(unit, dir.x, doubled.x, out.x)
            &&& is_difference(unit, dir.y, doubled.y, out.y)
            &&& is_difference(unit, dir.z, doubled.z, out.z)
        }
}

/// Number by number and lane by lane, `r` is what `unit` gave for
/// `a + b * c`.
pub open spec fn are_gathered<A: Arithmetic>(
    unit: &A,
    a: Points,
    b: Points,
    c: Points,
    r: Points,
) -> bool {
    &&& are_multiply_adds(unit, a.xs, b.xs, c.xs, r.xs)
    &&& are_multiply_adds(unit, a.ys, b.ys, c.ys, r.ys)
    &&& are_multiply_adds(unit, a.zs, b.zs, c.zs, r.zs)
}

/// Number by number and lane by lane, `a + b * c`.
pub(crate) fn gather<A: Arithmetic>(unit: &A, a: Points, b: Points, c: Points) -> (r: Points)
    ensures
        are_gathered(unit, a, b, c, r),
{
    Points {
        xs: plus_times(unit, a.xs, b.xs, c.xs),
        ys: plus_times(unit, a.ys, b.ys, c.ys),
        zs: plus_times(unit, a.zs, b.zs, c.zs),
    }
}

/// Lane by lane, `dir - normal * dot(dir, normal) * 2`.
pub(crate) fn mirror<A: Arithmetic>(unit: &A, dirs: Vectors, normals: Vectors) -> (out: Vectors)
    ensures
        forall|i: int|
            0 <= i < LANES ==> is_mirrored(unit, dirs.lane(i), normals.lane(i), #[trigger] out.lane(i)),
{
    let along = dirs.dot(unit, normals);
    let scaled = normals.scale(unit, along);
    let twos = splat(Real::two());
    let doubled = scaled.scale(unit, twos);
    let out = dirs.sub(unit, doubled);
    proof {
        assert forall|i: int| 0 <= i < LANES implies is_mirrored(
            unit,
            dirs.lane(i),
            normals.lane(i),
            #[trigger] out.lane(i),
        ) by {
            let dir = dirs.lane(i);
            let normal = normals.lane(i);
            let s = scaled.lane(i);
            let t = doubled.lane(i);
            let o = out.lane(i);
            assert(twos[i] == Real { bits: TWO_BITS });
            assert(is_dot(unit, dir, normal, along[i]));
            assert(is_product(unit, normal.x, along[i], s.x));
            assert(is_product(unit, normal.y, along[i], s.y));
            assert(is_product(unit, normal.z, along[i], s.z));
            assert(is_product(unit, s.x, Real { bits: TWO_BITS }, t.x));
            assert(is_product(unit, s.y, Real { bits: TWO_BITS }, t.y));
            assert(is_product(unit, s.z, Real { bits: TWO_BITS }, t.z));
            assert(is_difference(unit, dir.x, t.x, o.x));
            assert(is_difference(unit, dir.y, t.y, o.y));
            assert(is_difference(unit, dir.z, t.z, o.z));
        }
    }
    out
}

impl RaysProjections {
    /// The nearest meetings are as in `other`, but for how far they lie.
    pub open spec fn same_surfaces(self, other: RaysProjections) -> bool {
        &&& self.obstacle_colors == other.obstacle_colors
        &&& self.obstacle_normals == other.obstacle_normals
        &&& self.obstacle_reflectances == other.obstacle_reflectances
    }

    /// `after` is `self` once the light of the nearest meetings has been
    /// gathered and the batch reflected; `done` says that the batch goes no
    /// further.
    ///
    /// Each lane gathers the color it met, as far as light from there
    /// still counts, and what is still to come counts by the reflectance
    /// less.  One reflection is used up.  The batch is done when none is
    /// left or no lane reflects; else every ray starts again where it met
    /// its obstacle, mirrored there, with nothing met yet.
    pub open spec fn reflects<A: Arithmetic>(
        self,
        unit: &A,
        after: RaysProjections,
        done: bool,
    ) -> bool {
        &&& self.depth_left >= 1
        &&& after.depth_left == self.depth_left - 1
        &&& done == (after.depth_left == 0 || self.is_exhausted())
        &&& after.same_surfaces(self)
        &&& are_gathered(
            unit,
            self.offset_colors,
            self.coef_colors,
            self.obstacle_colors,
            after.offset_colors,
        )
        &&& are_products(
            unit,
            self.coef_colors.xs,
            self.obstacle_reflectances,
            after.coef_colors.xs,
        )
        &&& are_products(
            unit,
            self.coef_colors.ys,
            self.obstacle_reflectances,
            after.coef_colors.ys,
        )
        &&& are_products(
            unit,
            self.coef_colors.zs,
            self.obstacle_reflectances,
            after.coef_colors.zs,
        )
        &&& if done {
            after.rays == self.rays && after.min_toi == self.min_toi
        } else {
            &&& forall|i: int| 0 <= i < LANES ==> (#[trigger] after.min_toi[i]).bits == MAX_BITS
            &&& are_multiply_adds(
                unit,
                self.rays.origins.xs,
                self.rays.dirs.xs,
                self.min_toi,
                after.rays.origins.xs,
            )
            &&& are_multiply_adds(
                unit,
                self.rays.origins.ys,
                self.rays.dirs.ys,
                self.min_toi,
                after.rays.origins.ys,
            )
            &&& are_multiply_adds(
                unit,
                self.rays.origins.zs,
                self.rays.dirs.zs,
                self.min_toi,
                after.rays.origins.zs,
            )
            &&& forall|i: int|
                0 <= i < LANES ==> is_mirrored(
                    unit,
                    self.rays.dirs.lane(i),
                    self.obstacle_normals.lane(i),
                    #[trigger] after.rays.dirs.lane(i),
                )
        }
    }

    /// Gathers the light of the nearest meetings and reflects the batch.
    /// Returns whether the batch goes no further.
    pub fn reflect<A: Arithmetic>(&mut self, unit: &A) -> (done: bool)
        requires
            old(self).depth_left >= 1,
        ensures
            old(self).reflects(unit, *final(self), done),
    {
        self.offset_colors =
        gather(unit, self.offset_colors, self.coef_colors, self.obstacle_colors);
        self.coef_colors = self.coef_colors.scale(unit, self.obstacle_reflectances);
        self.depth_left -= 1;
        if self.depth_left == 0 || self.exhausted() {
            return true;
        }
        let pois = Points {
            xs: plus_times(unit, self.rays.origins.xs, self.rays.dirs.xs, self.min_toi),
            ys: plus_times(unit, self.rays.origins.ys, self.rays.dirs.ys, self.min_toi),
            zs: plus_times(unit, self.rays.origins.zs, self.rays.dirs.zs, self.min_toi),
        };
        let reflection_dirs = mirror(unit, self.rays.dirs, self.obstacle_normals);
        self.rays = Rays::new(pois, reflection_dirs);
        self.min_toi = splat(Real::max_value());
        false
    }

    /// The light that the batch has gathered, with `base_colors` for what
    /// lies beyond its last meeting: `offset_colors + coef_colors *
    /// base_colors`.
    pub fn finish<A: Arithmetic>(self, unit: &A, base_colors: Colors) -> (colors: Colors)
        ensures
            are_gathered(unit, self.offset_colors, self.coef_colors, base_colors, colors),
    {
        gather(unit, self.offset_colors, self.coef_colors, base_colors)
    }
}

impl RaysProjections {
    /// Nothing met yet, nothing gathered, and everything still to come
    /// counts in full: the batch as [`RaysProjections::new`] makes it.
    /// What stands for the meeting of a lane that has met nothing is as far
    /// away as can be, black, and of reflectance one.
    pub open spec fn is_fresh(self, rays: Rays, max_depth: usize) -> bool {
        &&& self.rays == rays
        &&& self.depth_left == max_depth
        &&& forall|i: int| 0 <= i < LANES ==> (#[trigger] self.min_toi[i]).bits == MAX_BITS
        &&& forall|i: int|
            0 <= i < LANES ==> (#[trigger] self.obstacle_reflectances[i]).bits == ONE_BITS
        &&& self.obstacle_colors.all_lanes_are(point_of(ZERO_BITS, ZERO_BITS, ZERO_BITS))
        &&& self.obstacle_normals.all_lanes_are(point_of(ZERO_BITS, ZERO_BITS, ZERO_BITS))
        &&& self.offset_colors.all_lanes_are(point_of(ZERO_BITS, ZERO_BITS, ZERO_BITS))
        &&& self.coef_colors.all_lanes_are(point_of(ONE_BITS, ONE_BITS, ONE_BITS))
    }

    /// `after` is `self` once the spheres from number `from` on have been
    /// tested, each in its turn.
    pub open spec fn tests_spheres<A: Arithmetic>(
        self,
        unit: &A,
        scene: Scene,
        from: int,
        after: RaysProjections,
    ) -> bool
        decreases SPHERES_COUNT - from,
    {
        if 0 <= from < SPHERES_COUNT {
            let sphere = all_spheres()[from];
            exists|next: RaysProjections| #[trigger]
                self.tests_sphere(
                    unit,
                    next,
                    scene.position(sphere),
                    sphere.radius(),
                    sphere.color(),
                    sphere.reflectance(),
                ) && next.tests_spheres(unit, scene, from + 1, after)
        } else {
            after == self
        }
    }

    /// `after` is `self` once the walls from number `from` on have been
    /// tested, each in its turn.
    pub open spec fn tests_walls<A: Arithmetic>(
        self,
        unit: &A,
        from: int,
        after: RaysProjections,
    ) -> bool
        decreases PLANES_COUNT - from,
    {
        if 0 <= from < PLANES_COUNT {
            let plane = all_planes()[from];
            exists|next: RaysProjections| #[trigger]
                self.tests_wall(
                    unit,
                    next,
                    plane.axis(),
                    plane.offset(),
                    plane.normal(),
                    plane.color(),
                    plane.reflectance(),
                ) && next.tests_walls(unit, from + 1, after)
        } else {
            after == self
        }
    }

    /// `after` is `self` once every obstacle of `scene` has been tested:
    /// the spheres first, then the walls.
    pub open spec fn searches<A: Arithmetic>(
        self,
        unit: &A,
        scene: Scene,
        after: RaysProjections,
    ) -> bool {
        exists|between: RaysProjections|
            #![trigger self.tests_spheres(unit, scene, 0, between)]
            self.tests_spheres(unit, scene, 0, between) && between.tests_walls(unit, 0, after)
    }

    /// `end` is what becomes of `self` on its way through `scene`: every
    /// obstacle is tested and the batch reflected, again and again, until
    /// a reflection says that the batch goes no further.
    pub open spec fn traces<A: Arithmetic>(
        self,
        unit: &A,
        scene: Scene,
        end: RaysProjections,
    ) -> bool
        decreases self.depth_left,
    {
        exists|searched: RaysProjections, reflected: RaysProjections, done: bool|
            #![trigger self.searches(unit, scene, searched), searched.reflects(unit, reflected, done)]
            self.searches(unit, scene, searched) && searched.depth_left == self.depth_left
                && searched.reflects(unit, reflected, done) && if done {
                end == reflected
            } else {
                reflected.traces(unit, scene, end)
            }
    }

    /// Tests the batch against every sphere of `scene`.
    pub fn with_spheres<A: Arithmetic>(&mut self, unit: &A, scene: &Scene)
        ensures
            old(self).tests_spheres(unit, *scene, 0, *final(self)),
            final(self).same_course(*old(self)),
    {
        let all = scene.spheres();
        let mut k: usize = 0;
        while k < SPHERES_COUNT
            invariant
                k <= SPHERES_COUNT,
                all@ == all_spheres(),
                self.same_course(*old(self)),
                forall|end: RaysProjections| #[trigger]
                    self.tests_spheres(unit, *scene, k as int, end) ==> old(self).tests_spheres(
                        unit,
                        *scene,
                        0,
                        end,
                    ),
            decreases SPHERES_COUNT - k,
        {
            let sphere = all[k];
            let ghost before = *self;
            self.with_sphere(
                unit,
                scene.sphere_pos(sphere),
                scene.sphere_radius(sphere),
                scene.obstacle_color(Obstacle::Sphere(sphere)),
                scene.obstacle_reflectance(Obstacle::Sphere(sphere)),
            );
            proof {
                assert(sphere == all_spheres()[k as int]);
                assert forall|end: RaysProjections| #[trigger]
                    self.tests_spheres(unit, *scene, k + 1, end) implies old(self).tests_spheres(
                    unit,
                    *scene,
                    0,
                    end,
                ) by {
                    assert(before.tests_sphere(
                        unit,
                        *self,
                        scene.position(sphere),
                        sphere.radius(),
                        sphere.color(),
                        sphere.reflectance(),
                    ));
                    assert(before.tests_spheres(unit, *scene, k as int, end));
                }
            }
            k += 1;
        }
        assert(self.tests_spheres(unit, *scene, SPHERES_COUNT as int, *self));
    }

    /// Tests the batch against every wall of `scene`.
    pub fn with_planes<A: Arithmetic>(&mut self, unit: &A, scene: &Scene)
        ensures
            old(self).tests_walls(unit, 0, *final(self)),
            final(self).same_course(*old(self)),
    {
        let all = scene.planes();
        let mut k: usize = 0;
        while k < PLANES_COUNT
            invariant
                k <= PLANES_COUNT,
                all@ == all_planes(),
                self.same_course(*old(self)),
                forall|end: RaysProjections| #[trigger]
                    self.tests_walls(unit, k as int, end) ==> old(self).tests_walls(unit, 0, end),
            decreases PLANES_COUNT - k,
        {
            let plane = all[k];
            let ghost before = *self;
            self.with_axis_aligned_plane(
                unit,
                scene.plane_alignment_axis(plane),
                scene.plane_offset(plane),
                scene.plane_normal(plane),
                scene.obstacle_color(Obstacle::Plane(plane)),
                scene.obstacle_reflectance(Obstacle::Plane(plane)),
            );
            proof {
                assert(plane == all_planes()[k as int]);
                assert forall|end: RaysProjections| #[trigger]
                    self.tests_walls(unit, k + 1, end) implies old(self).tests_walls(
                    unit,
                    0,
                    end,
                ) by {
                    assert(before.tests_wall(
                        unit,
                        *self,
                        plane.axis(),
                        plane.offset(),
                        plane.normal(),
                        plane.color(),
                        plane.reflectance(),
                    ));
                    assert(before.tests_walls(unit, k as int, end));
                }
            }
            k += 1;
        }
        assert(self.tests_walls(unit, PLANES_COUNT as int, *self));
    }
}

/// `colors` is what a batch of `rays` brings back from `scene` within
/// `max_depth` reflections, with white for what lies beyond its last
/// meeting.
pub open spec fn is_traced<A: Arithmetic>(
    unit: &A,
    scene: Scene,
    rays: Rays,
    max_depth: usize,
    colors: Colors,
) -> bool {
    exists|start: RaysProjections, end: RaysProjections, white: Colors|
        #![trigger start.traces(unit, scene, end), white.all_lanes_are(point_of(ONE_BITS, ONE_BITS, ONE_BITS))]
        start.is_fresh(rays, max_depth) && start.traces(unit, scene, end) && white.all_lanes_are(
            point_of(ONE_BITS, ONE_BITS, ONE_BITS),
        ) && are_gathered(unit, end.offset_colors, end.coef_colors, white, colors)
}

/// Follows a batch of rays through the scene, from obstacle to obstacle,
/// for as long as any lane reflects and at most `max_depth` times, and
/// returns the light that each lane brings back.
pub fn trace_rays<A: Arithmetic>(unit: &A, scene: &Scene, rays: Rays, max_depth: usize) -> (colors:
    Colors)
    requires
        max_depth >= 1,
    ensures
        is_traced(unit, *scene, rays, max_depth, colors),
{
    let mut projections = RaysProjections::new(rays, max_depth);
    let ghost start = projections;
    loop
        invariant_except_break
            projections.depth_left >= 1,
            forall|end: RaysProjections| #[trigger]
                projections.traces(unit, *scene, end) ==> start.traces(unit, *scene, end),
        ensures
            start.traces(unit, *scene, projections),
        decreases projections.depth_left,
    {
        let ghost before = projections;
        projections.with_spheres(unit, scene);
        let ghost between = projections;
        projections.with_planes(unit, scene);
        let ghost searched = projections;
        let done = projections.reflect(unit);
        proof {
            assert(before.searches(unit, *scene, searched)) by {
                assert(before.tests_spheres(unit, *scene, 0, between));
            }
            if done {
                assert(before.traces(unit, *scene, projections));
            } else {
                assert forall|end: RaysProjections| #[trigger]
                    projections.traces(unit, *scene, end) implies start.traces(
                    unit,
                    *scene,
                    end,
                ) by {
                    assert(before.traces(unit, *scene, end));
                }
            }
        }
        if done {
            break ;
        }
    }
    let one = Real::one();
    let white = Colors::splat(one, one, one);
    let colors = projections.finish(unit, white);
    proof {
        assert(start.is_fresh(rays, max_depth));
        assert(white.all_lanes_are(point_of(ONE_BITS, ONE_BITS, ONE_BITS)));
    }
    colors
}

} // verus!
