//! What holds of the tracer whatever the rays and the obstacles.

use crate::exact::{
    is_faithful, is_held, lemma_next_whole, lemma_true_difference, lemma_true_quotient,
};
use crate::math::{Axis, Color, Colors, Mask, Point, Reals, Vector, Vectors, LANES};
use crate::render::spheres::NormalRule;
use crate::render::tracer::{are_gathered, is_closer, nearer, Hit, RaysProjections, MIN_TOI_BITS};
use crate::render::walls::{is_dark, is_wall_toi, wall_hit};
use crate::scalar::{
    is_difference, is_multiply_add, is_product, is_quotient, Arithmetic, Real, ONE_BITS,
    ZERO_BITS,
};
use crate::scene::point_of;
use vstd::prelude::*;

verus! {

/// Next to a dark checker cell lies a light one, and next to a light one a
/// dark one, along each of the three axes.
pub proof fn lemma_checker_cells_alternate(x: int, y: int, z: int)
    ensures
        is_dark(x + 1, y, z) != is_dark(x, y, z),
        is_dark(x, y + 1, z) != is_dark(x, y, z),
        is_dark(x, y, z + 1) != is_dark(x, y, z),
{
}

/// Of two neighbouring cells of a wall, one reflects nothing and the other
/// reflects as the wall is set to.
pub proof fn lemma_checker_reflectance_alternates(
    x: int,
    y: int,
    z: int,
    toi: Real,
    normal: Vector,
    color: Color,
    reflectance: Real,
)
    ensures
        ({
            let here = wall_hit(toi, is_dark(x, y, z), normal, color, reflectance).reflectance;
            let there = wall_hit(toi, is_dark(x + 1, y, z), normal, color, reflectance).reflectance;
            (here == Real { bits: ZERO_BITS } && there == reflectance) || (here == reflectance
                && there == Real { bits: ZERO_BITS })
        }),
{
}

/// One checker cell further along a wall, the wall reflects the other
/// way.  Of two meeting points, shifted and scaled as the checkerboard
/// asks, that are not negative, stand a whole one apart along `x` and share
/// `y` and `z`, one finds the reflectance of the wall and the other none.
pub proof fn lemma_checker_neighbours_alternate(
    here: Real,
    there: Real,
    y: Real,
    z: Real,
    toi: Real,
    normal: Vector,
    color: Color,
    reflectance: Real,
)
    requires
        !here.is_nan() && !here.is_negative(),
        !there.is_nan() && !there.is_negative(),
        there.value() == here.value() + 1 as real,
        there.whole() <= i32::MAX,
    ensures
        ({
            let near = wall_hit(
                toi,
                is_dark(here.cut(), y.cut(), z.cut()),
                normal,
                color,
                reflectance,
            ).reflectance;
            let far = wall_hit(
                toi,
                is_dark(there.cut(), y.cut(), z.cut()),
                normal,
                color,
                reflectance,
            ).reflectance;
            (near == Real { bits: ZERO_BITS } && far == reflectance) || (near == reflectance
                && far == Real { bits: ZERO_BITS })
        }),
{
    lemma_next_whole(here, there);
}

/// A ray meets a wall where it has gone the way to the wall.  Along the
/// wall's axis the ray starts at `origin` and goes by `dir`, and the wall
/// lies at `offset`: where nothing has to be rounded, the distance is the
/// number `t` for which `t * dir` is `offset - origin`.
pub proof fn lemma_wall_distance<A: Arithmetic>(
    unit: &A,
    offset: Real,
    origin: Real,
    dir: Real,
    t: real,
    toi: Real,
)
    requires
        is_faithful(unit),
        offset.is_finite() && origin.is_finite() && dir.is_finite(),
        dir.value() != 0 as real,
        t * dir.value() == offset.value() - origin.value(),
        is_held(offset.value() - origin.value()),
        is_held(t),
        is_wall_toi(unit, offset, origin, dir, toi),
    ensures
        toi.is_finite(),
        toi.value() == t,
{
    let gap = choose|gap: Real| #[trigger]
        is_difference(unit, offset, origin, gap) && is_quotient(unit, gap, dir, toi);
    lemma_true_difference(unit, offset, origin, gap, offset.value() - origin.value());
    lemma_true_quotient(unit, gap, dir, toi, t);
}

/// What is no number, or is infinite, is never a closer meeting than one at
/// a finite distance or none at all.
pub proof fn lemma_only_numbers_are_closer(toi: Real, min_toi: Real)
    requires
        toi.is_nan() || !toi.is_finite(),
        min_toi.is_finite() || min_toi.is_nan(),
    ensures
        !is_closer(toi, min_toi),
{
}

/// A meeting that is taken lies strictly beyond the least distance and
/// strictly before the one it replaces; one that is not taken changes
/// nothing.
pub proof fn lemma_nearer_is_closer_or_unchanged(current: Hit, candidate: Hit, counts: bool)
    ensures
        ({
            let kept = nearer(current, candidate, counts);
            if counts && is_closer(candidate.toi, current.toi) {
                kept == candidate && (Real { bits: MIN_TOI_BITS }).less(kept.toi) && kept.toi.less(
                    current.toi,
                )
            } else {
                kept == current
            }
        }),
{
}

/// The order in which two obstacles are tested matters only where a ray
/// meets both equally far away.
pub proof fn lemma_order_matters_only_on_ties(
    current: Hit,
    one: Hit,
    one_counts: bool,
    other: Hit,
    other_counts: bool,
)
    requires
        !one.toi.same(other.toi),
    ensures
        nearer(nearer(current, one, one_counts), other, other_counts) == nearer(
            nearer(current, other, other_counts),
            one,
            one_counts,
        ),
{
}

/// After two obstacles have been tested, no meeting with either that
/// counts and lies beyond the least distance is nearer than the one kept.
pub proof fn lemma_nearest_is_kept(
    current: Hit,
    one: Hit,
    one_counts: bool,
    other: Hit,
    other_counts: bool,
)
    requires
        !current.toi.is_nan(),
    ensures
        ({
            let kept = nearer(nearer(current, one, one_counts), other, other_counts);
            &&& kept.toi.at_most(current.toi)
            &&& one_counts && (Real { bits: MIN_TOI_BITS }).less(one.toi) ==> kept.toi.at_most(
                one.toi,
            )
            &&& other_counts && (Real { bits: MIN_TOI_BITS }).less(other.toi)
                ==> kept.toi.at_most(other.toi)
        }),
{
}

impl RaysProjections {
    /// A wall that no ray meets closer than what it has met already leaves
    /// the batch exactly as it was.
    pub proof fn lemma_wall_missed(
        self,
        after: RaysProjections,
        toi: Reals,
        dark: Mask,
        normal: Vector,
        color: Color,
        reflectance: Real,
    )
        requires
            self.meets_wall(after, toi, dark, normal, color, reflectance),
            forall|i: int| 0 <= i < LANES ==> !is_closer(#[trigger] toi[i], self.min_toi[i]),
        ensures
            after == self,
    {
        assert forall|i: int| 0 <= i < LANES implies #[trigger] after.winner(i) == self.winner(
            i,
        ) by {
            assert(!is_closer(toi[i], self.min_toi[i]));
        }
        self.lemma_same_winners(after);
    }

    /// A sphere that no ray meets closer than what it has met already
    /// leaves the batch exactly as it was.
    pub proof fn lemma_sphere_missed(
        self,
        after: RaysProjections,
        discriminant: Reals,
        toi: Reals,
        normals: Vectors,
        color: Color,
        reflectance: Real,
    )
        requires
            self.meets_sphere(after, discriminant, toi, normals, color, reflectance),
            forall|i: int| 0 <= i < LANES ==> !self.sphere_wins(discriminant, toi, i),
        ensures
            after == self,
    {
        assert forall|i: int| 0 <= i < LANES implies #[trigger] after.winner(i) == self.winner(
            i,
        ) by {
            assert(!self.sphere_wins(discriminant, toi, i));
        }
        self.lemma_same_winners(after);
    }

    /// Two batches on the same course whose lanes have met the same are the
    /// same batch.
    pub proof fn lemma_same_winners(self, after: RaysProjections)
        requires
            after.same_course(self),
            forall|i: int| 0 <= i < LANES ==> #[trigger] after.winner(i) == self.winner(i),
        ensures
            after == self,
    {
        assert forall|i: int| 0 <= i < LANES implies #[trigger] after.min_toi[i]
            == self.min_toi[i] by {
            assert(after.winner(i) == self.winner(i));
        }
        assert forall|i: int| 0 <= i < LANES implies #[trigger] after.obstacle_reflectances[i]
            == self.obstacle_reflectances[i] by {
            assert(after.winner(i) == self.winner(i));
        }
        assert forall|i: int| 0 <= i < LANES implies #[trigger] after.obstacle_colors.xs[i]
            == self.obstacle_colors.xs[i] by {
            assert(after.winner(i) == self.winner(i));
            assert(after.obstacle_colors.lane(i) == self.obstacle_colors.lane(i));
        }
        assert forall|i: int| 0 <= i < LANES implies #[trigger] after.obstacle_colors.ys[i]
            == self.obstacle_colors.ys[i] by {
            assert(after.winner(i) == self.winner(i));
            assert(after.obstacle_colors.lane(i) == self.obstacle_colors.lane(i));
        }
        assert forall|i: int| 0 <= i < LANES implies #[trigger] after.obstacle_colors.zs[i]
            == self.obstacle_colors.zs[i] by {
            assert(after.winner(i) == self.winner(i));
            assert(after.obstacle_colors.lane(i) == self.obstacle_colors.lane(i));
        }
        assert forall|i: int| 0 <= i < LANES implies #[trigger] after.obstacle_normals.xs[i]
            == self.obstacle_normals.xs[i] by {
            assert(after.winner(i) == self.winner(i));
            assert(after.obstacle_normals.lane(i) == self.obstacle_normals.lane(i));
        }
        assert forall|i: int| 0 <= i < LANES implies #[trigger] after.obstacle_normals.ys[i]
            == self.obstacle_normals.ys[i] by {
            assert(after.winner(i) == self.winner(i));
            assert(after.obstacle_normals.lane(i) == self.obstacle_normals.lane(i));
        }
        assert forall|i: int| 0 <= i < LANES implies #[trigger] after.obstacle_normals.zs[i]
            == self.obstacle_normals.zs[i] by {
            assert(after.winner(i) == self.winner(i));
            assert(after.obstacle_normals.lane(i) == self.obstacle_normals.lane(i));
        }
        assert(after.min_toi =~= self.min_toi);
        assert(after.obstacle_reflectances =~= self.obstacle_reflectances);
        assert(after.obstacle_colors.xs =~= self.obstacle_colors.xs);
        assert(after.obstacle_colors.ys =~= self.obstacle_colors.ys);
        assert(after.obstacle_colors.zs =~= self.obstacle_colors.zs);
        assert(after.obstacle_normals.xs =~= self.obstacle_normals.xs);
        assert(after.obstacle_normals.ys =~= self.obstacle_normals.ys);
        assert(after.obstacle_normals.zs =~= self.obstacle_normals.zs);
    }
}

impl RaysProjections {
    /// Testing a wall changes nothing but the nearest meetings.
    pub proof fn lemma_wall_keeps_course<A: Arithmetic>(
        self,
        unit: &A,
        after: RaysProjections,
        axis: Axis,
        offset: Real,
        normal: Vector,
        color: Color,
        reflectance: Real,
    )
        requires
            self.tests_wall(unit, after, axis, offset, normal, color, reflectance),
        ensures
            after.same_course(self),
    {
    }

    /// Testing a sphere changes nothing but the nearest meetings.
    pub proof fn lemma_sphere_keeps_course<A: Arithmetic>(
        self,
        unit: &A,
        rule: NormalRule,
        after: RaysProjections,
        center: Point,
        radius: Real,
        color: Color,
        reflectance: Real,
    )
        requires
            self.tests_sphere_by(unit, rule, after, center, radius, color, reflectance),
        ensures
            after.same_course(self),
    {
    }
}

/// A finite number that is not negative.
pub open spec fn is_countable(r: Real) -> bool {
    r.is_finite() && (Real { bits: ZERO_BITS }).at_most(r)
}

impl RaysProjections {
    /// Reflectance never amplifies: with a unit that rounds products in
    /// order and keeps a number times one, a lane whose obstacle reflects
    /// at most all of the light counts for no more after a reflection than
    /// before, in each of the three colors, as far as it counted for a
    /// finite amount that is not negative.
    pub proof fn lemma_reflecting_never_amplifies<A: Arithmetic>(
        self,
        unit: &A,
        after: RaysProjections,
        done: bool,
        i: int,
    )
        requires
            crate::scalar::rounds_products_in_order(unit),
            crate::scalar::keeps_times_one(unit),
            self.reflects(unit, after, done),
            0 <= i < LANES,
            self.obstacle_reflectances[i].is_finite(),
            self.obstacle_reflectances[i].at_most(Real { bits: ONE_BITS }),
        ensures
            is_countable(self.coef_colors.xs[i]) ==> after.coef_colors.xs[i].at_most(
                self.coef_colors.xs[i],
            ),
            is_countable(self.coef_colors.ys[i]) ==> after.coef_colors.ys[i].at_most(
                self.coef_colors.ys[i],
            ),
            is_countable(self.coef_colors.zs[i]) ==> after.coef_colors.zs[i].at_most(
                self.coef_colors.zs[i],
            ),
    {
        let share = self.obstacle_reflectances[i];
        assert(is_product(unit, self.coef_colors.xs[i], share, after.coef_colors.xs[i]));
        assert(is_product(unit, self.coef_colors.ys[i], share, after.coef_colors.ys[i]));
        assert(is_product(unit, self.coef_colors.zs[i], share, after.coef_colors.zs[i]));
        if is_countable(self.coef_colors.xs[i]) {
            crate::scalar::lemma_share_is_no_more(
                unit,
                self.coef_colors.xs[i],
                share,
                after.coef_colors.xs[i],
            );
        }
        if is_countable(self.coef_colors.ys[i]) {
            crate::scalar::lemma_share_is_no_more(
                unit,
                self.coef_colors.ys[i],
                share,
                after.coef_colors.ys[i],
            );
        }
        if is_countable(self.coef_colors.zs[i]) {
            crate::scalar::lemma_share_is_no_more(
                unit,
                self.coef_colors.zs[i],
                share,
                after.coef_colors.zs[i],
            );
        }
    }
}

impl RaysProjections {
    /// After a reflection a lane counts for no less than nothing and for
    /// no more than before.  With a unit that rounds products in order,
    /// keeps a number times one and keeps zero for a number times zero, a
    /// lane whose obstacle reflects some share of the light from none to
    /// all of it counts, in each of the three colors, for a finite amount
    /// that is not negative and not more than before, as far as it did
    /// before.
    pub proof fn lemma_reflecting_keeps_within_bounds<A: Arithmetic>(
        self,
        unit: &A,
        after: RaysProjections,
        done: bool,
        i: int,
    )
        requires
            crate::scalar::rounds_products_in_order(unit),
            crate::scalar::keeps_times_one(unit),
            crate::scalar::keeps_times_zero(unit),
            self.reflects(unit, after, done),
            0 <= i < LANES,
            is_countable(self.obstacle_reflectances[i]),
            self.obstacle_reflectances[i].at_most(Real { bits: ONE_BITS }),
        ensures
            is_countable(self.coef_colors.xs[i]) ==> is_countable(after.coef_colors.xs[i])
                && after.coef_colors.xs[i].at_most(self.coef_colors.xs[i]),
            is_countable(self.coef_colors.ys[i]) ==> is_countable(after.coef_colors.ys[i])
                && after.coef_colors.ys[i].at_most(self.coef_colors.ys[i]),
            is_countable(self.coef_colors.zs[i]) ==> is_countable(after.coef_colors.zs[i])
                && after.coef_colors.zs[i].at_most(self.coef_colors.zs[i]),
    {
        let share = self.obstacle_reflectances[i];
        self.lemma_reflecting_never_amplifies(unit, after, done, i);
        assert(is_product(unit, self.coef_colors.xs[i], share, after.coef_colors.xs[i]));
        assert(is_product(unit, self.coef_colors.ys[i], share, after.coef_colors.ys[i]));
        assert(is_product(unit, self.coef_colors.zs[i], share, after.coef_colors.zs[i]));
        if is_countable(self.coef_colors.xs[i]) {
            crate::scalar::lemma_share_is_no_less(
                unit,
                self.coef_colors.xs[i],
                share,
                after.coef_colors.xs[i],
            );
        }
        if is_countable(self.coef_colors.ys[i]) {
            crate::scalar::lemma_share_is_no_less(
                unit,
                self.coef_colors.ys[i],
                share,
                after.coef_colors.ys[i],
            );
        }
        if is_countable(self.coef_colors.zs[i]) {
            crate::scalar::lemma_share_is_no_less(
                unit,
                self.coef_colors.zs[i],
                share,
                after.coef_colors.zs[i],
            );
        }
    }
}

/// What stands for the meeting of a lane that has met nothing: black, and
/// of reflectance one.
pub open spec fn is_unmet(hit: Hit) -> bool {
    hit.color == point_of(ZERO_BITS, ZERO_BITS, ZERO_BITS) && hit.reflectance == Real {
        bits: ONE_BITS,
    }
}

impl RaysProjections {
    /// A lane that meets nothing loses nothing: with a unit that is exact
    /// on zero and one, a reflection leaves what the lane has gathered and
    /// what it still counts for as they were, and the lane has still met
    /// nothing.
    pub proof fn lemma_unmet_lane_keeps_its_light<A: Arithmetic>(
        self,
        unit: &A,
        after: RaysProjections,
        done: bool,
        i: int,
    )
        requires
            crate::scalar::is_exact_on_zero_and_one(unit),
            self.reflects(unit, after, done),
            0 <= i < LANES,
            is_unmet(self.winner(i)),
            self.coef_colors.xs[i].is_finite(),
            self.coef_colors.ys[i].is_finite(),
            self.coef_colors.zs[i].is_finite(),
            !self.offset_colors.xs[i].is_nan(),
            !self.offset_colors.ys[i].is_nan(),
            !self.offset_colors.zs[i].is_nan(),
        ensures
            after.coef_colors.lane(i) == self.coef_colors.lane(i),
            after.offset_colors.xs[i].same(self.offset_colors.xs[i]),
            after.offset_colors.ys[i].same(self.offset_colors.ys[i]),
            after.offset_colors.zs[i].same(self.offset_colors.zs[i]),
            is_unmet(after.winner(i)),
    {
        let color = self.obstacle_colors.lane(i);
        assert(color.x.is_zero() && color.y.is_zero() && color.z.is_zero());
        assert(self.obstacle_reflectances[i] == Real { bits: ONE_BITS });
        assert(is_multiply_add(
            unit,
            self.offset_colors.xs[i],
            self.coef_colors.xs[i],
            self.obstacle_colors.xs[i],
            after.offset_colors.xs[i],
        ));
        assert(is_multiply_add(
            unit,
            self.offset_colors.ys[i],
            self.coef_colors.ys[i],
            self.obstacle_colors.ys[i],
            after.offset_colors.ys[i],
        ));
        assert(is_multiply_add(
            unit,
            self.offset_colors.zs[i],
            self.coef_colors.zs[i],
            self.obstacle_colors.zs[i],
            after.offset_colors.zs[i],
        ));
        assert(is_product(
            unit,
            self.coef_colors.xs[i],
            self.obstacle_reflectances[i],
            after.coef_colors.xs[i],
        ));
        assert(is_product(
            unit,
            self.coef_colors.ys[i],
            self.obstacle_reflectances[i],
            after.coef_colors.ys[i],
        ));
        assert(is_product(
            unit,
            self.coef_colors.zs[i],
            self.obstacle_reflectances[i],
            after.coef_colors.zs[i],
        ));
    }

    /// A lane that has met nothing sees what lies beyond: with a unit that
    /// is exact on zero and one, a lane that has gathered nothing and
    /// still counts in full brings back the color that it is given at the
    /// end.
    pub proof fn lemma_unmet_lane_sees_what_lies_beyond<A: Arithmetic>(
        self,
        unit: &A,
        base_colors: Colors,
        colors: Colors,
        i: int,
    )
        requires
            crate::scalar::is_exact_on_zero_and_one(unit),
            are_gathered(unit, self.offset_colors, self.coef_colors, base_colors, colors),
            0 <= i < LANES,
            self.coef_colors.lane(i) == point_of(ONE_BITS, ONE_BITS, ONE_BITS),
            self.offset_colors.xs[i].is_zero(),
            self.offset_colors.ys[i].is_zero(),
            self.offset_colors.zs[i].is_zero(),
            !base_colors.xs[i].is_nan(),
            !base_colors.ys[i].is_nan(),
            !base_colors.zs[i].is_nan(),
        ensures
            colors.xs[i].same(base_colors.xs[i]),
            colors.ys[i].same(base_colors.ys[i]),
            colors.zs[i].same(base_colors.zs[i]),
    {
        assert(self.coef_colors.xs[i] == Real { bits: ONE_BITS });
        assert(self.coef_colors.ys[i] == Real { bits: ONE_BITS });
        assert(self.coef_colors.zs[i] == Real { bits: ONE_BITS });
        assert(is_multiply_add(
            unit,
            self.offset_colors.xs[i],
            self.coef_colors.xs[i],
            base_colors.xs[i],
            colors.xs[i],
        ));
        assert(is_multiply_add(
            unit,
            self.offset_colors.ys[i],
            self.coef_colors.ys[i],
            base_colors.ys[i],
            colors.ys[i],
        ));
        assert(is_multiply_add(
            unit,
            self.offset_colors.zs[i],
            self.coef_colors.zs[i],
            base_colors.zs[i],
            colors.zs[i],
        ));
    }
}

} // verus!
