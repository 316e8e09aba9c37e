//! A lane that meets nothing.
//!
//! A ray that is aimed away from every obstacle meets nothing, whatever
//! becomes of the other lanes of its batch and however often the batch is
//! reflected.  Such a lane gathers no light and loses none, and brings back
//! exactly what lies beyond: the laws here say so of a whole trace, for a
//! unit that is exact on zero and one.

use crate::math::{Axis, Color, Colors, Mask, Point, Rays, Reals, Vector, Vectors, LANES};
use crate::render::laws::is_unmet;
use crate::render::spheres::{all_negative, NormalRule};
use crate::render::tracer::{is_closer, is_traced, nearer, Hit, RaysProjections};
use crate::render::walls::{is_checkered, is_wall_toi, wall_hit};
use crate::scalar::{is_exact_on_zero_and_one, Arithmetic, Real, ONE_BITS, ZERO_BITS};
use crate::scene::{point_of, Scene, PLANES_COUNT, SPHERES_COUNT};
use vstd::prelude::*;

verus! {

impl RaysProjections {
    /// `end` is what becomes of `self` on its way through `scene`, as
    /// [`RaysProjections::traces`] says, and on that way no search finds
    /// anything for lane `i`: no obstacle lies strictly beyond the least
    /// distance and strictly before what the lane holds, so that after
    /// each search the lane is as far from a meeting as it was before.
    pub open spec fn traces_unmet<A: Arithmetic>(
        self,
        unit: &A,
        scene: Scene,
        i: int,
        end: RaysProjections,
    ) -> bool
        decreases self.depth_left,
    {
        exists|searched: RaysProjections, reflected: RaysProjections, done: bool|
            #![trigger self.searches(unit, scene, searched), searched.reflects(unit, reflected, done)]
            self.searches(unit, scene, searched) && searched.depth_left == self.depth_left
                && searched.min_toi[i] == self.min_toi[i] && searched.reflects(
                unit,
                reflected,
                done,
            ) && if done {
                end == reflected
            } else {
                reflected.traces_unmet(unit, scene, i, end)
            }
    }

    /// Whether lane `i` has met nothing, gathered nothing and still counts
    /// in full.
    pub open spec fn is_untouched(self, i: int) -> bool {
        &&& is_unmet(self.winner(i))
        &&& self.coef_colors.lane(i) == point_of(ONE_BITS, ONE_BITS, ONE_BITS)
        &&& self.offset_colors.xs[i].is_zero()
        &&& self.offset_colors.ys[i].is_zero()
        &&& self.offset_colors.zs[i].is_zero()
    }

    /// A trace on which a lane meets nothing is a trace.
    pub proof fn lemma_unmet_trace_is_a_trace<A: Arithmetic>(
        self,
        unit: &A,
        scene: Scene,
        i: int,
        end: RaysProjections,
    )
        requires
            self.traces_unmet(unit, scene, i, end),
        ensures
            self.traces(unit, scene, end),
        decreases self.depth_left,
    {
        let (searched, reflected, done) = choose|
            searched: RaysProjections,
            reflected: RaysProjections,
            done: bool,
        |
            #![trigger self.searches(unit, scene, searched), searched.reflects(unit, reflected, done)]
            self.searches(unit, scene, searched) && searched.depth_left == self.depth_left
                && searched.min_toi[i] == self.min_toi[i] && searched.reflects(
                unit,
                reflected,
                done,
            ) && if done {
                end == reflected
            } else {
                reflected.traces_unmet(unit, scene, i, end)
            };
        if !done {
            reflected.lemma_unmet_trace_is_a_trace(unit, scene, i, end);
        }
    }

    /// Testing the spheres from number `from` on changes nothing but the
    /// nearest meetings.
    pub proof fn lemma_spheres_keep_course<A: Arithmetic>(
        self,
        unit: &A,
        scene: Scene,
        from: int,
        after: RaysProjections,
    )
        requires
            0 <= from <= SPHERES_COUNT,
            self.tests_spheres(unit, scene, from, after),
        ensures
            after.same_course(self),
        decreases SPHERES_COUNT - from,
    {
        if from < SPHERES_COUNT {
            let sphere = crate::scene::all_spheres()[from];
            let next = choose|next: RaysProjections| #[trigger]
                self.tests_sphere(
                    unit,
                    next,
                    scene.position(sphere),
                    sphere.radius(),
                    sphere.color(),
                    sphere.reflectance(),
                ) && next.tests_spheres(unit, scene, from + 1, after);
            next.lemma_spheres_keep_course(unit, scene, from + 1, after);
        }
    }

    /// Testing the walls from number `from` on changes nothing but the
    /// nearest meetings.
    pub proof fn lemma_walls_keep_course<A: Arithmetic>(
        self,
        unit: &A,
        from: int,
        after: RaysProjections,
    )
        requires
            0 <= from <= PLANES_COUNT,
            self.tests_walls(unit, from, after),
        ensures
            after.same_course(self),
        decreases PLANES_COUNT - from,
    {
        if from < PLANES_COUNT {
            let plane = crate::scene::all_planes()[from];
            let next = choose|next: RaysProjections| #[trigger]
                self.tests_wall(
                    unit,
                    next,
                    plane.axis(),
                    plane.offset(),
                    plane.normal(),
                    plane.color(),
                    plane.reflectance(),
                ) && next.tests_walls(unit, from + 1, after);
            next.lemma_walls_keep_course(unit, from + 1, after);
        }
    }

    /// A search changes nothing but the nearest meetings.
    pub proof fn lemma_search_keeps_course<A: Arithmetic>(
        self,
        unit: &A,
        scene: Scene,
        after: RaysProjections,
    )
        requires
            self.searches(unit, scene, after),
        ensures
            after.same_course(self),
    {
        let between = choose|between: RaysProjections|
            #![trigger self.tests_spheres(unit, scene, 0, between)]
            self.tests_spheres(unit, scene, 0, between) && between.tests_walls(unit, 0, after);
        self.lemma_spheres_keep_course(unit, scene, 0, between);
        between.lemma_walls_keep_course(unit, 0, after);
    }

    /// Whether lane `i` holds in `after` the meeting that it held in
    /// `self`, or one that is strictly nearer.
    pub open spec fn kept_or_nearer(self, after: RaysProjections, i: int) -> bool {
        after.winner(i) == self.winner(i) || after.min_toi[i].less(self.min_toi[i])
    }

    /// A wall leaves a lane its meeting or gives it a strictly nearer one.
    pub proof fn lemma_wall_keeps_or_nears<A: Arithmetic>(
        self,
        unit: &A,
        after: RaysProjections,
        axis: Axis,
        offset: Real,
        normal: Vector,
        color: Color,
        reflectance: Real,
        i: int,
    )
        requires
            0 <= i < LANES,
            self.tests_wall(unit, after, axis, offset, normal, color, reflectance),
        ensures
            self.kept_or_nearer(after, i),
    {
        let (toi, dark) = choose|toi: Reals, dark: Mask|
            {
                &&& forall|i: int|
                    0 <= i < LANES ==> is_wall_toi(
                        unit,
                        offset,
                        self.rays.origins.along(axis)[i],
                        self.rays.dirs.along(axis)[i],
                        #[trigger] toi[i],
                    )
                &&& forall|i: int|
                    0 <= i < LANES && is_closer(#[trigger] toi[i], self.min_toi[i])
                        ==> is_checkered(
                        unit,
                        self.rays.origins.lane(i),
                        self.rays.dirs.lane(i),
                        toi[i],
                        dark[i],
                    )
                &&& #[trigger] self.meets_wall(after, toi, dark, normal, color, reflectance)
            };
        assert(after.winner(i) == nearer(
            self.winner(i),
            wall_hit(toi[i], dark[i], normal, color, reflectance),
            true,
        ));
    }

    /// A sphere leaves a lane its meeting or gives it a strictly nearer
    /// one.
    pub proof fn lemma_sphere_keeps_or_nears<A: Arithmetic>(
        self,
        unit: &A,
        rule: NormalRule,
        after: RaysProjections,
        center: Point,
        radius: Real,
        color: Color,
        reflectance: Real,
        i: int,
    )
        requires
            0 <= i < LANES,
            self.tests_sphere_by(unit, rule, after, center, radius, color, reflectance),
        ensures
            self.kept_or_nearer(after, i),
    {
        let (terms, deltas, squares, d, towards, toi, normals) = choose|
            terms: int,
            deltas: Vectors,
            squares: Reals,
            d: Reals,
            towards: Reals,
            toi: Reals,
            normals: Vectors,
        | #[trigger]
            self.sphere_test(
                unit,
                rule,
                after,
                center,
                radius,
                color,
                reflectance,
                terms,
                deltas,
                squares,
                d,
                towards,
                toi,
                normals,
            );
        if !all_negative(d) {
            assert(after.winner(i) == nearer(
                self.winner(i),
                Hit { toi: toi[i], color, normal: normals.lane(i), reflectance },
                (Real { bits: ZERO_BITS }).at_most(d[i]),
            ));
        }
    }

    /// The spheres from number `from` on leave a lane its meeting or give
    /// it a strictly nearer one.
    pub proof fn lemma_spheres_keep_or_near<A: Arithmetic>(
        self,
        unit: &A,
        scene: Scene,
        from: int,
        after: RaysProjections,
        i: int,
    )
        requires
            0 <= i < LANES,
            0 <= from <= SPHERES_COUNT,
            self.tests_spheres(unit, scene, from, after),
        ensures
            self.kept_or_nearer(after, i),
        decreases SPHERES_COUNT - from,
    {
        if from < SPHERES_COUNT {
            let sphere = crate::scene::all_spheres()[from];
            let next = choose|next: RaysProjections| #[trigger]
                self.tests_sphere(
                    unit,
                    next,
                    scene.position(sphere),
                    sphere.radius(),
                    sphere.color(),
                    sphere.reflectance(),
                ) && next.tests_spheres(unit, scene, from + 1, after);
            self.lemma_sphere_keeps_or_nears(
                unit,
                NormalRule::ByRadius,
                next,
                scene.position(sphere),
                sphere.radius(),
                sphere.color(),
                sphere.reflectance(),
                i,
            );
            next.lemma_spheres_keep_or_near(unit, scene, from + 1, after, i);
        }
    }

    /// The walls from number `from` on leave a lane its meeting or give it
    /// a strictly nearer one.
    pub proof fn lemma_walls_keep_or_near<A: Arithmetic>(
        self,
        unit: &A,
        from: int,
        after: RaysProjections,
        i: int,
    )
        requires
            0 <= i < LANES,
            0 <= from <= PLANES_COUNT,
            self.tests_walls(unit, from, after),
        ensures
            self.kept_or_nearer(after, i),
        decreases PLANES_COUNT - from,
    {
        if from < PLANES_COUNT {
            let plane = crate::scene::all_planes()[from];
            let next = choose|next: RaysProjections| #[trigger]
                self.tests_wall(
                    unit,
                    next,
                    plane.axis(),
                    plane.offset(),
                    plane.normal(),
                    plane.color(),
                    plane.reflectance(),
                ) && next.tests_walls(unit, from + 1, after);
            self.lemma_wall_keeps_or_nears(
                unit,
                next,
                plane.axis(),
                plane.offset(),
                plane.normal(),
                plane.color(),
                plane.reflectance(),
                i,
            );
            next.lemma_walls_keep_or_near(unit, from + 1, after, i);
        }
    }

    /// A search leaves a lane its meeting or gives it a strictly nearer
    /// one.  So a lane that is as far from a meeting after the search as
    /// before has met nothing in it.
    pub proof fn lemma_search_keeps_or_nears<A: Arithmetic>(
        self,
        unit: &A,
        scene: Scene,
        after: RaysProjections,
        i: int,
    )
        requires
            0 <= i < LANES,
            self.searches(unit, scene, after),
        ensures
            self.kept_or_nearer(after, i),
            after.min_toi[i] == self.min_toi[i] ==> after.winner(i) == self.winner(i),
    {
        let between = choose|between: RaysProjections|
            #![trigger self.tests_spheres(unit, scene, 0, between)]
            self.tests_spheres(unit, scene, 0, between) && between.tests_walls(unit, 0, after);
        self.lemma_spheres_keep_or_near(unit, scene, 0, between, i);
        between.lemma_walls_keep_or_near(unit, 0, after, i);
    }

    /// A lane that meets nothing on the whole way stays untouched: with a
    /// unit that is exact on zero and one, it has at the end gathered
    /// nothing and counts in full, as at the start.
    pub proof fn lemma_unmet_lane_stays_untouched<A: Arithmetic>(
        self,
        unit: &A,
        scene: Scene,
        i: int,
        end: RaysProjections,
    )
        requires
            is_exact_on_zero_and_one(unit),
            0 <= i < LANES,
            self.is_untouched(i),
            self.traces_unmet(unit, scene, i, end),
        ensures
            end.is_untouched(i),
        decreases self.depth_left,
    {
        let (searched, reflected, done) = choose|
            searched: RaysProjections,
            reflected: RaysProjections,
            done: bool,
        |
            #![trigger self.searches(unit, scene, searched), searched.reflects(unit, reflected, done)]
            self.searches(unit, scene, searched) && searched.depth_left == self.depth_left
                && searched.min_toi[i] == self.min_toi[i] && searched.reflects(
                unit,
                reflected,
                done,
            ) && if done {
                end == reflected
            } else {
                reflected.traces_unmet(unit, scene, i, end)
            };
        self.lemma_search_keeps_course(unit, scene, searched);
        self.lemma_search_keeps_or_nears(unit, scene, searched, i);
        assert(searched.winner(i) == self.winner(i));
        assert(searched.is_untouched(i));
        searched.lemma_unmet_lane_keeps_its_light(unit, reflected, done, i);
        assert(reflected.is_untouched(i));
        if !done {
            reflected.lemma_unmet_lane_stays_untouched(unit, scene, i, end);
        }
    }
}

/// A lane that meets nothing brings back the light from beyond,
/// unattenuated.  With a unit that is exact on zero and one, if lane `i` of
/// a batch of `rays` meets nothing on any of its ways through `scene`, the
/// color that [`crate::render::tracer::trace_rays`] returns for it is
/// exactly white.
pub proof fn lemma_lane_that_meets_nothing_is_white<A: Arithmetic>(
    unit: &A,
    scene: Scene,
    rays: Rays,
    max_depth: usize,
    colors: Colors,
    i: int,
)
    requires
        is_exact_on_zero_and_one(unit),
        0 <= i < LANES,
        is_traced(unit, scene, rays, max_depth, colors),
        forall|start: RaysProjections, end: RaysProjections|
            start.is_fresh(rays, max_depth) && #[trigger] start.traces(unit, scene, end)
                ==> start.traces_unmet(unit, scene, i, end),
    ensures
        colors.lane(i) == point_of(ONE_BITS, ONE_BITS, ONE_BITS),
{
    let white_point = point_of(ONE_BITS, ONE_BITS, ONE_BITS);
    let (start, end, white) = choose|start: RaysProjections, end: RaysProjections, white: Colors|
        #![trigger start.traces(unit, scene, end), white.all_lanes_are(point_of(ONE_BITS, ONE_BITS, ONE_BITS))]
        start.is_fresh(rays, max_depth) && start.traces(unit, scene, end) && white.all_lanes_are(
            point_of(ONE_BITS, ONE_BITS, ONE_BITS),
        ) && crate::render::tracer::are_gathered(
            unit,
            end.offset_colors,
            end.coef_colors,
            white,
            colors,
        );
    assert(start.is_untouched(i)) by {
        assert(start.obstacle_colors.lane(i) == point_of(0, 0, 0));
        assert(start.offset_colors.lane(i) == point_of(0, 0, 0));
        assert(start.coef_colors.lane(i) == white_point);
        assert(start.obstacle_reflectances[i].bits == ONE_BITS);
    }
    start.lemma_unmet_lane_stays_untouched(unit, scene, i, end);
    assert(white.lane(i) == white_point);
    end.lemma_unmet_lane_sees_what_lies_beyond(unit, white, colors, i);
    let one = Real { bits: ONE_BITS };
    assert(colors.xs[i].same(one) && colors.ys[i].same(one) && colors.zs[i].same(one));
    assert(colors.xs[i] == one && colors.ys[i] == one && colors.zs[i] == one);
}

} // verus!
