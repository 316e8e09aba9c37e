//! Tracing twice, and rendering twice.
//!
//! A unit of arithmetic need not give the same result twice.  One that
//! does is deterministic, and with such a unit every step of the tracer
//! has one outcome only: what a batch of rays brings back from the scene is
//! settled by the rays, the scene and the depth, and an image by the
//! scene, the camera and the renderer.

use crate::lanes::{are_multiply_adds, are_products, are_sums};
use crate::nearest::{is_nearest_single, lemma_one_nearest_single};
use crate::render::batch::{aims, are_added, are_toned, gathers, is_place, is_toned, shades};
use crate::render::camera::{is_direction, Camera};
use crate::render::renderer::{is_painted, is_shown, Brightness, Renderer};
use crate::render::scene::{is_seen, lemma_room_is_traced, Scene as SceneOfRays};
use crate::math::{
    is_dot, Axis, Color, Colors, Mask, Point, Points, Rays, Reals, Vector, Vectors, LANES,
};
use crate::render::spheres::{
    is_apart, is_discriminant, is_sphere_normal, is_sphere_toi, is_toward, NormalRule,
};
use crate::render::tracer::{
    are_gathered, is_closer, is_mirrored, is_traced, nearer, RaysProjections,
};
use crate::render::walls::{is_checkered, is_wall_toi, wall_hit};
use crate::scalar::{
    is_difference, is_multiply_add, is_power, is_product, is_quotient, is_root, is_sum,
    Arithmetic, Real, ONE_BITS, ZERO_BITS,
};
use crate::scene::{point_of, Scene, PLANES_COUNT, SPHERES_COUNT};
use vstd::prelude::*;

verus! {

/// Whether `unit` gives one result only for each operation on the same
/// operands.
pub open spec fn is_deterministic<A: Arithmetic>(unit: &A) -> bool {
    &&& forall|a: Real, b: Real, r: Real, s: Real|
        #![trigger is_sum(unit, a, b, r), is_sum(unit, a, b, s)]
        is_sum(unit, a, b, r) && is_sum(unit, a, b, s) ==> r == s
    &&& forall|a: Real, b: Real, r: Real, s: Real|
        #![trigger is_difference(unit, a, b, r), is_difference(unit, a, b, s)]
        is_difference(unit, a, b, r) && is_difference(unit, a, b, s) ==> r == s
    &&& forall|a: Real, b: Real, r: Real, s: Real|
        #![trigger is_product(unit, a, b, r), is_product(unit, a, b, s)]
        is_product(unit, a, b, r) && is_product(unit, a, b, s) ==> r == s
    &&& forall|a: Real, b: Real, r: Real, s: Real|
        #![trigger is_quotient(unit, a, b, r), is_quotient(unit, a, b, s)]
        is_quotient(unit, a, b, r) && is_quotient(unit, a, b, s) ==> r == s
    &&& forall|a: Real, r: Real, s: Real|
        #![trigger is_root(unit, a, r), is_root(unit, a, s)]
        is_root(unit, a, r) && is_root(unit, a, s) ==> r == s
    &&& forall|a: Real, b: Real, r: Real, s: Real|
        #![trigger is_power(unit, a, b, r), is_power(unit, a, b, s)]
        is_power(unit, a, b, r) && is_power(unit, a, b, s) ==> r == s
}

/// With a deterministic unit, `a + b * c` has one value.
pub proof fn lemma_one_multiply_add<A: Arithmetic>(
    unit: &A,
    a: Real,
    b: Real,
    c: Real,
    r: Real,
    s: Real,
)
    requires
        is_deterministic(unit),
        is_multiply_add(unit, a, b, c, r),
        is_multiply_add(unit, a, b, c, s),
    ensures
        r == s,
{
}

/// With a deterministic unit, a dot product has one value.
pub proof fn lemma_one_dot<A: Arithmetic>(unit: &A, a: Point, b: Point, r: Real, s: Real)
    requires
        is_deterministic(unit),
        is_dot(unit, a, b, r),
        is_dot(unit, a, b, s),
    ensures
        r == s,
{
}

/// With a deterministic unit, the way from a centre has one value.
pub proof fn lemma_one_apart<A: Arithmetic>(
    unit: &A,
    origin: Point,
    center: Point,
    r: Vector,
    s: Vector,
)
    requires
        is_deterministic(unit),
        is_apart(unit, origin, center, r),
        is_apart(unit, origin, center, s),
    ensures
        r == s,
{
}

/// With a deterministic unit, a discriminant has one value.
pub proof fn lemma_one_discriminant<A: Arithmetic>(
    unit: &A,
    dir: Vector,
    delta: Vector,
    square: Real,
    radius: Real,
    terms: int,
    r: Real,
    s: Real,
)
    requires
        is_deterministic(unit),
        is_discriminant(unit, dir, delta, square, radius, terms, r),
        is_discriminant(unit, dir, delta, square, radius, terms, s),
    ensures
        r == s,
{
}

/// With a deterministic unit, the distance to a sphere has one value.
pub proof fn lemma_one_sphere_toi<A: Arithmetic>(
    unit: &A,
    delta: Vector,
    dir: Vector,
    square: Real,
    d: Real,
    toward: Real,
    other: Real,
    r: Real,
    s: Real,
)
    requires
        is_deterministic(unit),
        is_toward(unit, delta, dir, toward),
        is_toward(unit, delta, dir, other),
        is_sphere_toi(unit, toward, square, d, r),
        is_sphere_toi(unit, other, square, d, s),
    ensures
        toward == other,
        r == s,
{
}

/// With a deterministic unit, the normal of a sphere has one value.
pub proof fn lemma_one_sphere_normal<A: Arithmetic>(
    unit: &A,
    rule: NormalRule,
    origin: Point,
    dir: Vector,
    toi: Real,
    center: Point,
    radius: Real,
    r: Vector,
    s: Vector,
)
    requires
        is_deterministic(unit),
        is_sphere_normal(unit, rule, origin, dir, toi, center, radius, r),
        is_sphere_normal(unit, rule, origin, dir, toi, center, radius, s),
    ensures
        r == s,
{
}

/// With a deterministic unit, the distance to a wall and the color of its
/// checker cell have one value.
pub proof fn lemma_one_wall<A: Arithmetic>(
    unit: &A,
    offset: Real,
    origin: Point,
    dir: Vector,
    along_origin: Real,
    along_dir: Real,
    r: Real,
    s: Real,
    dark: bool,
    other: bool,
)
    requires
        is_deterministic(unit),
        is_wall_toi(unit, offset, along_origin, along_dir, r),
        is_wall_toi(unit, offset, along_origin, along_dir, s),
        is_checkered(unit, origin, dir, r, dark),
        is_checkered(unit, origin, dir, s, other),
    ensures
        r == s,
        dark == other,
{
}

/// With a deterministic unit, a mirrored direction has one value.
pub proof fn lemma_one_mirror<A: Arithmetic>(
    unit: &A,
    dir: Vector,
    normal: Vector,
    r: Vector,
    s: Vector,
)
    requires
        is_deterministic(unit),
        is_mirrored(unit, dir, normal, r),
        is_mirrored(unit, dir, normal, s),
    ensures
        r == s,
{
}

/// Two batches of points that hold the same point in every lane are the
/// same.
pub proof fn lemma_same_lanes(a: Points, b: Points)
    requires
        forall|i: int| 0 <= i < LANES ==> #[trigger] a.lane(i) == b.lane(i),
    ensures
        a == b,
{
    assert forall|i: int| 0 <= i < LANES implies a.xs[i] == b.xs[i] && a.ys[i] == b.ys[i]
        && a.zs[i] == b.zs[i] by {
        assert(a.lane(i) == b.lane(i));
    }
    assert(a.xs =~= b.xs);
    assert(a.ys =~= b.ys);
    assert(a.zs =~= b.zs);
}

impl RaysProjections {
    /// With a deterministic unit, the ways from the centre of a sphere to
    /// where the rays start, and the squared lengths of the directions,
    /// have one value.
    pub proof fn lemma_one_sphere_start<A: Arithmetic>(
        self,
        unit: &A,
        center: Point,
        radius: Real,
        terms: int,
        deltas: Vectors,
        squares: Reals,
        d: Reals,
        other_terms: int,
        other_deltas: Vectors,
        other_squares: Reals,
        other_d: Reals,
    )
        requires
            is_deterministic(unit),
            self.sphere_terms(unit, center, radius, terms, deltas, squares, d),
            self.sphere_terms(
                unit,
                center,
                radius,
                other_terms,
                other_deltas,
                other_squares,
                other_d,
            ),
        ensures
            deltas == other_deltas,
            squares == other_squares,
    {
        assert forall|i: int| 0 <= i < LANES implies #[trigger] deltas.lane(i)
            == other_deltas.lane(i) by {
            let origin = self.rays.origins.lane(i);
            let dir = self.rays.dirs.lane(i);
            assert(is_discriminant(unit, dir, deltas.lane(i), squares[i], radius, terms, d[i]));
            assert(is_discriminant(
                unit,
                dir,
                other_deltas.lane(i),
                other_squares[i],
                radius,
                other_terms,
                other_d[i],
            ));
            lemma_one_apart(unit, origin, center, deltas.lane(i), other_deltas.lane(i));
        }
        lemma_same_lanes(deltas, other_deltas);
        assert forall|i: int| 0 <= i < LANES implies #[trigger] squares[i]
            == other_squares[i] by {
            let dir = self.rays.dirs.lane(i);
            assert(is_discriminant(unit, dir, deltas.lane(i), squares[i], radius, terms, d[i]));
            assert(is_discriminant(
                unit,
                dir,
                other_deltas.lane(i),
                other_squares[i],
                radius,
                other_terms,
                other_d[i],
            ));
            lemma_one_dot(unit, dir, dir, squares[i], other_squares[i]);
        }
        assert(squares =~= other_squares);
    }

    /// With a deterministic unit, the discriminant as far as its first
    /// `terms` parts has one value.
    pub proof fn lemma_one_sphere_terms<A: Arithmetic>(
        self,
        unit: &A,
        center: Point,
        radius: Real,
        terms: int,
        deltas: Vectors,
        squares: Reals,
        d: Reals,
        other_d: Reals,
    )
        requires
            is_deterministic(unit),
            self.sphere_terms(unit, center, radius, terms, deltas, squares, d),
            self.sphere_terms(unit, center, radius, terms, deltas, squares, other_d),
        ensures
            d == other_d,
    {
        assert forall|i: int| 0 <= i < LANES implies #[trigger] d[i] == other_d[i] by {
            let dir = self.rays.dirs.lane(i);
            assert(is_discriminant(unit, dir, deltas.lane(i), squares[i], radius, terms, d[i]));
            assert(is_discriminant(
                unit,
                dir,
                deltas.lane(i),
                squares[i],
                radius,
                terms,
                other_d[i],
            ));
            lemma_one_discriminant(
                unit,
                dir,
                deltas.lane(i),
                squares[i],
                radius,
                terms,
                d[i],
                other_d[i],
            );
        }
        assert(d =~= other_d);
    }

    /// With a deterministic unit, the test of a sphere has one outcome.
    pub proof fn lemma_one_sphere_test<A: Arithmetic>(
        self,
        unit: &A,
        rule: NormalRule,
        after: RaysProjections,
        other: RaysProjections,
        center: Point,
        radius: Real,
        color: Color,
        reflectance: Real,
    )
        requires
            is_deterministic(unit),
            self.tests_sphere_by(unit, rule, after, center, radius, color, reflectance),
            self.tests_sphere_by(unit, rule, other, center, radius, color, reflectance),
        ensures
            after == other,
    {
        let (terms, deltas, squares, d, towards, toi, normals) = choose|
            terms: int,
            deltas: Vectors,
            squares: Reals,
            d: Reals,
            towards: Reals,
            toi: Reals,
            normals: Vectors,
        | #[trigger]
            self.sphere_test(
                unit,
                rule,
                after,
                center,
                radius,
                color,
                reflectance,
                terms,
                deltas,
                squares,
                d,
                towards,
                toi,
                normals,
            );
        let (terms2, deltas2, squares2, d2, towards2, toi2, normals2) = choose|
            terms: int,
            deltas: Vectors,
            squares: Reals,
            d: Reals,
            towards: Reals,
            toi: Reals,
            normals: Vectors,
        | #[trigger]
            self.sphere_test(
                unit,
                rule,
                other,
                center,
                radius,
                color,
                reflectance,
                terms,
                deltas,
                squares,
                d,
                towards,
                toi,
                normals,
            );
        // Both tests took the same way from the centre and the same squares.
        self.lemma_one_sphere_start(
            unit,
            center,
            radius,
            terms,
            deltas,
            squares,
            d,
            terms2,
            deltas2,
            squares2,
            d2,
        );
        if terms < terms2 {
            self.lemma_went_no_further(unit, center, radius, terms, deltas, squares, d);
            assert(false);
        }
        if terms2 < terms {
            self.lemma_went_no_further(unit, center, radius, terms2, deltas, squares, d2);
            assert(false);
        }
        self.lemma_one_sphere_terms(unit, center, radius, terms, deltas, squares, d, d2);
        if !crate::render::spheres::all_negative(d) {
            assert forall|i: int| 0 <= i < LANES implies #[trigger] after.winner(i)
                == other.winner(i) by {
                let dir = self.rays.dirs.lane(i);
                assert(is_sphere_toi(unit, towards[i], squares[i], d[i], toi[i]));
                assert(is_sphere_toi(unit, towards2[i], squares[i], d[i], toi2[i]));
                lemma_one_sphere_toi(
                    unit,
                    deltas.lane(i),
                    dir,
                    squares[i],
                    d[i],
                    towards[i],
                    towards2[i],
                    toi[i],
                    toi2[i],
                );
                if self.sphere_wins(d, toi, i) {
                    lemma_one_sphere_normal(
                        unit,
                        rule,
                        self.rays.origins.lane(i),
                        dir,
                        toi[i],
                        center,
                        radius,
                        normals.lane(i),
                        normals2.lane(i),
                    );
                }
            }
            other.lemma_same_winners(after);
        }
    }

    /// A test that stopped after `terms` parts of the discriminant did not
    /// go on after them.
    proof fn lemma_went_no_further<A: Arithmetic>(
        self,
        unit: &A,
        center: Point,
        radius: Real,
        terms: int,
        deltas: Vectors,
        squares: Reals,
        d: Reals,
    )
        requires
            is_deterministic(unit),
            1 <= terms <= 2,
            self.sphere_terms(unit, center, radius, terms, deltas, squares, d),
            crate::render::spheres::all_negative(d),
        ensures
            !self.goes_on_after(unit, center, radius, deltas, squares, terms),
    {
        if self.goes_on_after(unit, center, radius, deltas, squares, terms) {
            let early = choose|early: Reals| #[trigger]
                self.sphere_terms(unit, center, radius, terms, deltas, squares, early)
                    && !crate::render::spheres::all_negative(early);
            self.lemma_one_sphere_terms(unit, center, radius, terms, deltas, squares, d, early);
        }
    }
}

impl RaysProjections {
    /// With a deterministic unit, the test of a wall has one outcome.
    pub proof fn lemma_one_wall_test<A: Arithmetic>(
        self,
        unit: &A,
        after: RaysProjections,
        other: RaysProjections,
        axis: Axis,
        offset: Real,
        normal: Vector,
        color: Color,
        reflectance: Real,
    )
        requires
            is_deterministic(unit),
            self.tests_wall(unit, after, axis, offset, normal, color, reflectance),
            self.tests_wall(unit, other, axis, offset, normal, color, reflectance),
        ensures
            after == other,
    {
        let (toi, dark) = choose|toi: Reals, dark: Mask|
            {
                &&& forall|i: int|
                    0 <= i < LANES ==> is_wall_toi(
                        unit,
                        offset,
                        self.rays.origins.along(axis)[i],
                        self.rays.dirs.along(axis)[i],
                        #[trigger] toi[i],
                    )
                &&& forall|i: int|
                    0 <= i < LANES && is_closer(#[trigger] toi[i], self.min_toi[i])
                        ==> is_checkered(
                        unit,
                        self.rays.origins.lane(i),
                        self.rays.dirs.lane(i),
                        toi[i],
                        dark[i],
                    )
                &&& #[trigger] self.meets_wall(after, toi, dark, normal, color, reflectance)
            };
        let (toi2, dark2) = choose|toi: Reals, dark: Mask|
            {
                &&& forall|i: int|
                    0 <= i < LANES ==> is_wall_toi(
                        unit,
                        offset,
                        self.rays.origins.along(axis)[i],
                        self.rays.dirs.along(axis)[i],
                        #[trigger] toi[i],
                    )
                &&& forall|i: int|
                    0 <= i < LANES && is_closer(#[trigger] toi[i], self.min_toi[i])
                        ==> is_checkered(
                        unit,
                        self.rays.origins.lane(i),
                        self.rays.dirs.lane(i),
                        toi[i],
                        dark[i],
                    )
                &&& #[trigger] self.meets_wall(other, toi, dark, normal, color, reflectance)
            };
        assert forall|i: int| 0 <= i < LANES implies #[trigger] after.winner(i) == other.winner(
            i,
        ) by {
            assert(is_wall_toi(
                unit,
                offset,
                self.rays.origins.along(axis)[i],
                self.rays.dirs.along(axis)[i],
                toi[i],
            ));
            assert(is_wall_toi(
                unit,
                offset,
                self.rays.origins.along(axis)[i],
                self.rays.dirs.along(axis)[i],
                toi2[i],
            ));
            assert(toi[i] == toi2[i]);
            assert(after.winner(i) == nearer(
                self.winner(i),
                wall_hit(toi[i], dark[i], normal, color, reflectance),
                true,
            ));
            assert(other.winner(i) == nearer(
                self.winner(i),
                wall_hit(toi2[i], dark2[i], normal, color, reflectance),
                true,
            ));
            if is_closer(toi[i], self.min_toi[i]) {
                lemma_one_wall(
                    unit,
                    offset,
                    self.rays.origins.lane(i),
                    self.rays.dirs.lane(i),
                    self.rays.origins.along(axis)[i],
                    self.rays.dirs.along(axis)[i],
                    toi[i],
                    toi2[i],
                    dark[i],
                    dark2[i],
                );
            }
        }
        other.lemma_same_winners(after);
    }

    /// With a deterministic unit, the test of the spheres from number
    /// `from` on has one outcome.
    pub proof fn lemma_one_spheres_test<A: Arithmetic>(
        self,
        unit: &A,
        scene: Scene,
        from: int,
        after: RaysProjections,
        other: RaysProjections,
    )
        requires
            is_deterministic(unit),
            0 <= from <= SPHERES_COUNT,
            self.tests_spheres(unit, scene, from, after),
            self.tests_spheres(unit, scene, from, other),
        ensures
            after == other,
        decreases SPHERES_COUNT - from,
    {
        if from < SPHERES_COUNT {
            let sphere = crate::scene::all_spheres()[from];
            let next = choose|next: RaysProjections| #[trigger]
                self.tests_sphere(
                    unit,
                    next,
                    scene.position(sphere),
                    sphere.radius(),
                    sphere.color(),
                    sphere.reflectance(),
                ) && next.tests_spheres(unit, scene, from + 1, after);
            let next2 = choose|next: RaysProjections| #[trigger]
                self.tests_sphere(
                    unit,
                    next,
                    scene.position(sphere),
                    sphere.radius(),
                    sphere.color(),
                    sphere.reflectance(),
                ) && next.tests_spheres(unit, scene, from + 1, other);
            self.lemma_one_sphere_test(
                unit,
                NormalRule::ByRadius,
                next,
                next2,
                scene.position(sphere),
                sphere.radius(),
                sphere.color(),
                sphere.reflectance(),
            );
            next.lemma_one_spheres_test(unit, scene, from + 1, after, other);
        }
    }

    /// With a deterministic unit, the test of the walls from number `from`
    /// on has one outcome.
    pub proof fn lemma_one_walls_test<A: Arithmetic>(
        self,
        unit: &A,
        from: int,
        after: RaysProjections,
        other: RaysProjections,
    )
        requires
            is_deterministic(unit),
            0 <= from <= PLANES_COUNT,
            self.tests_walls(unit, from, after),
            self.tests_walls(unit, from, other),
        ensures
            after == other,
        decreases PLANES_COUNT - from,
    {
        if from < PLANES_COUNT {
            let plane = crate::scene::all_planes()[from];
            let next = choose|next: RaysProjections| #[trigger]
                self.tests_wall(
                    unit,
                    next,
                    plane.axis(),
                    plane.offset(),
                    plane.normal(),
                    plane.color(),
                    plane.reflectance(),
                ) && next.tests_walls(unit, from + 1, after);
            let next2 = choose|next: RaysProjections| #[trigger]
                self.tests_wall(
                    unit,
                    next,
                    plane.axis(),
                    plane.offset(),
                    plane.normal(),
                    plane.color(),
                    plane.reflectance(),
                ) && next.tests_walls(unit, from + 1, other);
            self.lemma_one_wall_test(
                unit,
                next,
                next2,
                plane.axis(),
                plane.offset(),
                plane.normal(),
                plane.color(),
                plane.reflectance(),
            );
            next.lemma_one_walls_test(unit, from + 1, after, other);
        }
    }

    /// With a deterministic unit, a search has one outcome.
    pub proof fn lemma_one_search<A: Arithmetic>(
        self,
        unit: &A,
        scene: Scene,
        after: RaysProjections,
        other: RaysProjections,
    )
        requires
            is_deterministic(unit),
            self.searches(unit, scene, after),
            self.searches(unit, scene, other),
        ensures
            after == other,
    {
        let between = choose|between: RaysProjections|
            #![trigger self.tests_spheres(unit, scene, 0, between)]
            self.tests_spheres(unit, scene, 0, between) && between.tests_walls(unit, 0, after);
        let between2 = choose|between: RaysProjections|
            #![trigger self.tests_spheres(unit, scene, 0, between)]
            self.tests_spheres(unit, scene, 0, between) && between.tests_walls(unit, 0, other);
        self.lemma_one_spheres_test(unit, scene, 0, between, between2);
        between.lemma_one_walls_test(unit, 0, after, other);
    }
}

/// With a deterministic unit, lane by lane `a + b * c` has one value.
pub proof fn lemma_one_of_multiply_adds<A: Arithmetic>(
    unit: &A,
    a: Reals,
    b: Reals,
    c: Reals,
    r: Reals,
    s: Reals,
)
    requires
        is_deterministic(unit),
        are_multiply_adds(unit, a, b, c, r),
        are_multiply_adds(unit, a, b, c, s),
    ensures
        r == s,
{
    assert forall|i: int| 0 <= i < LANES implies #[trigger] r[i] == s[i] by {
        assert(is_multiply_add(unit, a[i], b[i], c[i], r[i]));
        assert(is_multiply_add(unit, a[i], b[i], c[i], s[i]));
    }
    assert(r =~= s);
}

/// With a deterministic unit, lane by lane a product has one value.
pub proof fn lemma_one_of_products<A: Arithmetic>(unit: &A, a: Reals, b: Reals, r: Reals, s: Reals)
    requires
        is_deterministic(unit),
        are_products(unit, a, b, r),
        are_products(unit, a, b, s),
    ensures
        r == s,
{
    assert forall|i: int| 0 <= i < LANES implies #[trigger] r[i] == s[i] by {
        assert(is_product(unit, a[i], b[i], r[i]));
        assert(is_product(unit, a[i], b[i], s[i]));
    }
    assert(r =~= s);
}

/// With a deterministic unit, what is gathered has one value.
pub proof fn lemma_one_gathered<A: Arithmetic>(
    unit: &A,
    a: Points,
    b: Points,
    c: Points,
    r: Points,
    s: Points,
)
    requires
        is_deterministic(unit),
        are_gathered(unit, a, b, c, r),
        are_gathered(unit, a, b, c, s),
    ensures
        r == s,
{
    lemma_one_of_multiply_adds(unit, a.xs, b.xs, c.xs, r.xs, s.xs);
    lemma_one_of_multiply_adds(unit, a.ys, b.ys, c.ys, r.ys, s.ys);
    lemma_one_of_multiply_adds(unit, a.zs, b.zs, c.zs, r.zs, s.zs);
}

impl RaysProjections {
    /// With a deterministic unit, a reflection has one outcome.
    pub proof fn lemma_one_reflection<A: Arithmetic>(
        self,
        unit: &A,
        after: RaysProjections,
        done: bool,
        other: RaysProjections,
        other_done: bool,
    )
        requires
            is_deterministic(unit),
            self.reflects(unit, after, done),
            self.reflects(unit, other, other_done),
        ensures
            after == other,
            done == other_done,
    {
        lemma_one_gathered(
            unit,
            self.offset_colors,
            self.coef_colors,
            self.obstacle_colors,
            after.offset_colors,
            other.offset_colors,
        );
        lemma_one_of_products(
            unit,
            self.coef_colors.xs,
            self.obstacle_reflectances,
            after.coef_colors.xs,
            other.coef_colors.xs,
        );
        lemma_one_of_products(
            unit,
            self.coef_colors.ys,
            self.obstacle_reflectances,
            after.coef_colors.ys,
            other.coef_colors.ys,
        );
        lemma_one_of_products(
            unit,
            self.coef_colors.zs,
            self.obstacle_reflectances,
            after.coef_colors.zs,
            other.coef_colors.zs,
        );
        if !done {
            assert forall|i: int| 0 <= i < LANES implies #[trigger] after.min_toi[i]
                == other.min_toi[i] by {
                assert(after.min_toi[i].bits == other.min_toi[i].bits);
            }
            assert(after.min_toi =~= other.min_toi);
            lemma_one_of_multiply_adds(
                unit,
                self.rays.origins.xs,
                self.rays.dirs.xs,
                self.min_toi,
                after.rays.origins.xs,
                other.rays.origins.xs,
            );
            lemma_one_of_multiply_adds(
                unit,
                self.rays.origins.ys,
                self.rays.dirs.ys,
                self.min_toi,
                after.rays.origins.ys,
                other.rays.origins.ys,
            );
            lemma_one_of_multiply_adds(
                unit,
                self.rays.origins.zs,
                self.rays.dirs.zs,
                self.min_toi,
                after.rays.origins.zs,
                other.rays.origins.zs,
            );
            assert forall|i: int| 0 <= i < LANES implies #[trigger] after.rays.dirs.lane(i)
                == other.rays.dirs.lane(i) by {
                lemma_one_mirror(
                    unit,
                    self.rays.dirs.lane(i),
                    self.obstacle_normals.lane(i),
                    after.rays.dirs.lane(i),
                    other.rays.dirs.lane(i),
                );
            }
            lemma_same_lanes(after.rays.dirs, other.rays.dirs);
        }
    }

    /// With a deterministic unit, a batch has one way through the scene.
    pub proof fn lemma_one_trace<A: Arithmetic>(
        self,
        unit: &A,
        scene: Scene,
        end: RaysProjections,
        other: RaysProjections,
    )
        requires
            is_deterministic(unit),
            self.traces(unit, scene, end),
            self.traces(unit, scene, other),
        ensures
            end == other,
        decreases self.depth_left,
    {
        let (searched, reflected, done) = choose|
            searched: RaysProjections,
            reflected: RaysProjections,
            done: bool,
        |
            #![trigger self.searches(unit, scene, searched), searched.reflects(unit, reflected, done)]
            self.searches(unit, scene, searched) && searched.depth_left == self.depth_left
                && searched.reflects(unit, reflected, done) && if done {
                end == reflected
            } else {
                reflected.traces(unit, scene, end)
            };
        let (searched2, reflected2, done2) = choose|
            searched: RaysProjections,
            reflected: RaysProjections,
            done: bool,
        |
            #![trigger self.searches(unit, scene, searched), searched.reflects(unit, reflected, done)]
            self.searches(unit, scene, searched) && searched.depth_left == self.depth_left
                && searched.reflects(unit, reflected, done) && if done {
                other == reflected
            } else {
                reflected.traces(unit, scene, other)
            };
        self.lemma_one_search(unit, scene, searched, searched2);
        searched.lemma_one_reflection(unit, reflected, done, reflected2, done2);
        if !done {
            reflected.lemma_one_trace(unit, scene, end, other);
        }
    }
}

/// Tracing twice gives the same.  With a deterministic unit, what a batch
/// of `rays` brings back from `scene` within `max_depth` reflections is
/// settled: two runs of [`crate::render::tracer::trace_rays`] return the
/// same colors.
pub proof fn lemma_tracing_twice_gives_the_same<A: Arithmetic>(
    unit: &A,
    scene: Scene,
    rays: Rays,
    max_depth: usize,
    colors: Colors,
    again: Colors,
)
    requires
        is_deterministic(unit),
        is_traced(unit, scene, rays, max_depth, colors),
        is_traced(unit, scene, rays, max_depth, again),
    ensures
        colors == again,
{
    let (start, end, white) = choose|start: RaysProjections, end: RaysProjections, white: Colors|
        #![trigger start.traces(unit, scene, end), white.all_lanes_are(point_of(ONE_BITS, ONE_BITS, ONE_BITS))]
        start.is_fresh(rays, max_depth) && start.traces(unit, scene, end) && white.all_lanes_are(
            point_of(ONE_BITS, ONE_BITS, ONE_BITS),
        ) && are_gathered(unit, end.offset_colors, end.coef_colors, white, colors);
    let (start2, end2, white2) = choose|
        start: RaysProjections,
        end: RaysProjections,
        white: Colors,
    |
        #![trigger start.traces(unit, scene, end), white.all_lanes_are(point_of(ONE_BITS, ONE_BITS, ONE_BITS))]
        start.is_fresh(rays, max_depth) && start.traces(unit, scene, end) && white.all_lanes_are(
            point_of(ONE_BITS, ONE_BITS, ONE_BITS),
        ) && are_gathered(unit, end.offset_colors, end.coef_colors, white, again);
    lemma_same_lanes(white, white2);
    lemma_one_fresh_batch(start, start2, rays, max_depth);
    start.lemma_one_trace(unit, scene, end, end2);
    lemma_one_gathered(unit, end.offset_colors, end.coef_colors, white, colors, again);
}

/// Whether `scene` gives one light only for the same rays and depth.
pub open spec fn sees_one<A: Arithmetic, S: SceneOfRays<A>>(unit: &A, scene: &S) -> bool {
    forall|rays: Rays, depth: usize, light: Colors, again: Colors|
        #![trigger is_seen(unit, scene, rays, depth, light), is_seen(unit, scene, rays, depth, again)]
        is_seen(unit, scene, rays, depth, light) && is_seen(unit, scene, rays, depth, again)
            ==> light == again
}

/// A fresh batch is settled by its rays and its depth.
pub proof fn lemma_one_fresh_batch(
    start: RaysProjections,
    other: RaysProjections,
    rays: Rays,
    max_depth: usize,
)
    requires
        start.is_fresh(rays, max_depth),
        other.is_fresh(rays, max_depth),
    ensures
        start == other,
{
    lemma_same_lanes(start.obstacle_colors, other.obstacle_colors);
    lemma_same_lanes(start.obstacle_normals, other.obstacle_normals);
    lemma_same_lanes(start.offset_colors, other.offset_colors);
    lemma_same_lanes(start.coef_colors, other.coef_colors);
    assert forall|i: int| 0 <= i < LANES implies #[trigger] start.min_toi[i]
        == other.min_toi[i] by {
        assert(start.min_toi[i].bits == other.min_toi[i].bits);
    }
    assert(start.min_toi =~= other.min_toi);
    assert forall|i: int| 0 <= i < LANES implies #[trigger] start.obstacle_reflectances[i]
        == other.obstacle_reflectances[i] by {
        assert(start.obstacle_reflectances[i].bits == other.obstacle_reflectances[i].bits);
    }
    assert(start.obstacle_reflectances =~= other.obstacle_reflectances);
}

/// With a deterministic unit the room of the game gives one light only
/// for the same rays and depth.
pub proof fn lemma_room_sees_one<A: Arithmetic>(unit: &A, scene: &Scene)
    requires
        is_deterministic(unit),
    ensures
        sees_one(unit, scene),
{
    assert forall|rays: Rays, depth: usize, light: Colors, again: Colors|
        is_seen(unit, scene, rays, depth, light) && is_seen(
            unit,
            scene,
            rays,
            depth,
            again,
        ) implies light == again by {
        if depth >= 1 {
            lemma_room_is_traced(unit, scene, rays, depth, light);
            lemma_room_is_traced(unit, scene, rays, depth, again);
            lemma_tracing_twice_gives_the_same(unit, *scene, rays, depth, light, again);
        } else {
            let (start, white) = choose|start: RaysProjections, white: Colors|
                #![trigger start.is_fresh(rays, depth), are_gathered(unit, start.offset_colors, start.coef_colors, white, light)]
                start.is_fresh(rays, depth) && white.all_lanes_are(
                    point_of(ONE_BITS, ONE_BITS, ONE_BITS),
                ) && are_gathered(unit, start.offset_colors, start.coef_colors, white, light);
            let (start2, white2) = choose|start: RaysProjections, white: Colors|
                #![trigger start.is_fresh(rays, depth), are_gathered(unit, start.offset_colors, start.coef_colors, white, again)]
                start.is_fresh(rays, depth) && white.all_lanes_are(
                    point_of(ONE_BITS, ONE_BITS, ONE_BITS),
                ) && are_gathered(unit, start.offset_colors, start.coef_colors, white, again);
            lemma_one_fresh_batch(start, start2, rays, depth);
            lemma_same_lanes(white, white2);
            lemma_one_gathered(unit, start.offset_colors, start.coef_colors, white, light, again);
        }
    }
}

/// With a deterministic unit, a place in the image has one value.
pub proof fn lemma_one_place<A: Arithmetic>(
    unit: &A,
    pixel: u64,
    delta: Real,
    size: Real,
    r: Real,
    s: Real,
)
    requires
        is_deterministic(unit),
        is_place(unit, pixel, delta, size, r),
        is_place(unit, pixel, delta, size, s),
    ensures
        r == s,
{
    let (at, moved) = choose|at: Real, moved: Real|
        #![trigger is_nearest_single(pixel, at), is_sum(unit, at, delta, moved)]
        is_nearest_single(pixel, at) && is_sum(unit, at, delta, moved) && is_quotient(
            unit,
            moved,
            size,
            r,
        );
    let (at2, moved2) = choose|at: Real, moved: Real|
        #![trigger is_nearest_single(pixel, at), is_sum(unit, at, delta, moved)]
        is_nearest_single(pixel, at) && is_sum(unit, at, delta, moved) && is_quotient(
            unit,
            moved,
            size,
            s,
        );
    lemma_one_nearest_single(pixel, at, at2);
}

/// With a deterministic unit, a group of pixels has one batch of rays.
pub proof fn lemma_one_aim<A: Arithmetic>(
    unit: &A,
    camera: Camera,
    width: Real,
    height: Real,
    x_deltas: Reals,
    y_deltas: Reals,
    x: int,
    y: int,
    rays: Rays,
    again: Rays,
)
    requires
        is_deterministic(unit),
        aims(unit, camera, width, height, x_deltas, y_deltas, x, y, rays),
        aims(unit, camera, width, height, x_deltas, y_deltas, x, y, again),
    ensures
        rays == again,
{
    let (xs, ys) = choose|x_offsets: Reals, y_offsets: Reals|
        #![trigger camera.casts(unit, x_offsets, y_offsets, rays)]
        {
            &&& forall|i: int|
                0 <= i < LANES ==> is_place(
                    unit,
                    (x * LANES + i) as u64,
                    x_deltas[i],
                    width,
                    #[trigger] x_offsets[i],
                )
            &&& forall|i: int|
                0 <= i < LANES ==> is_place(
                    unit,
                    y as u64,
                    y_deltas[i],
                    height,
                    #[trigger] y_offsets[i],
                )
            &&& camera.casts(unit, x_offsets, y_offsets, rays)
        };
    let (xs2, ys2) = choose|x_offsets: Reals, y_offsets: Reals|
        #![trigger camera.casts(unit, x_offsets, y_offsets, again)]
        {
            &&& forall|i: int|
                0 <= i < LANES ==> is_place(
                    unit,
                    (x * LANES + i) as u64,
                    x_deltas[i],
                    width,
                    #[trigger] x_offsets[i],
                )
            &&& forall|i: int|
                0 <= i < LANES ==> is_place(
                    unit,
                    y as u64,
                    y_deltas[i],
                    height,
                    #[trigger] y_offsets[i],
                )
            &&& camera.casts(unit, x_offsets, y_offsets, again)
        };
    assert forall|i: int| 0 <= i < LANES implies #[trigger] xs[i] == xs2[i] by {
        lemma_one_place(unit, (x * LANES + i) as u64, x_deltas[i], width, xs[i], xs2[i]);
    }
    assert(xs =~= xs2);
    assert forall|i: int| 0 <= i < LANES implies #[trigger] ys[i] == ys2[i] by {
        lemma_one_place(unit, y as u64, y_deltas[i], height, ys[i], ys2[i]);
    }
    assert(ys =~= ys2);
    lemma_same_lanes(rays.origins, again.origins);
    assert forall|i: int| 0 <= i < LANES implies #[trigger] rays.dirs.xs[i]
        == again.dirs.xs[i] by {
        assert(is_direction(
            unit,
            camera.view_port_base().x,
            camera.view_port_x_axis().x,
            xs[i],
            camera.view_port_y_axis().x,
            ys[i],
            rays.dirs.xs[i],
        ));
        assert(is_direction(
            unit,
            camera.view_port_base().x,
            camera.view_port_x_axis().x,
            xs[i],
            camera.view_port_y_axis().x,
            ys[i],
            again.dirs.xs[i],
        ));
    }
    assert(rays.dirs.xs =~= again.dirs.xs);
    assert forall|i: int| 0 <= i < LANES implies #[trigger] rays.dirs.ys[i]
        == again.dirs.ys[i] by {
        assert(is_direction(
            unit,
            camera.view_port_base().y,
            camera.view_port_x_axis().y,
            xs[i],
            camera.view_port_y_axis().y,
            ys[i],
            rays.dirs.ys[i],
        ));
        assert(is_direction(
            unit,
            camera.view_port_base().y,
            camera.view_port_x_axis().y,
            xs[i],
            camera.view_port_y_axis().y,
            ys[i],
            again.dirs.ys[i],
        ));
    }
    assert(rays.dirs.ys =~= again.dirs.ys);
    assert forall|i: int| 0 <= i < LANES implies #[trigger] rays.dirs.zs[i]
        == again.dirs.zs[i] by {
        assert(is_direction(
            unit,
            camera.view_port_base().z,
            camera.view_port_x_axis().z,
            xs[i],
            camera.view_port_y_axis().z,
            ys[i],
            rays.dirs.zs[i],
        ));
        assert(is_direction(
            unit,
            camera.view_port_base().z,
            camera.view_port_x_axis().z,
            xs[i],
            camera.view_port_y_axis().z,
            ys[i],
            again.dirs.zs[i],
        ));
    }
    assert(rays.dirs.zs =~= again.dirs.zs);
}

/// With a deterministic unit, lane by lane a sum has one value.
pub proof fn lemma_one_of_sums<A: Arithmetic>(unit: &A, a: Reals, b: Reals, r: Reals, s: Reals)
    requires
        is_deterministic(unit),
        are_sums(unit, a, b, r),
        are_sums(unit, a, b, s),
    ensures
        r == s,
{
    assert forall|i: int| 0 <= i < LANES implies #[trigger] r[i] == s[i] by {
        assert(is_sum(unit, a[i], b[i], r[i]));
        assert(is_sum(unit, a[i], b[i], s[i]));
    }
    assert(r =~= s);
}

/// With a deterministic unit and a scene that gives one light only, the
/// light of the samples from number `from` on adds up to one total.
pub proof fn lemma_one_gathering<A: Arithmetic, S: SceneOfRays<A>>(
    unit: &A,
    scene: &S,
    camera: Camera,
    width: Real,
    height: Real,
    x_deltas: Seq<Reals>,
    y_deltas: Seq<Reals>,
    depth: usize,
    x: int,
    y: int,
    from: int,
    so_far: Colors,
    total: Colors,
    again: Colors,
)
    requires
        is_deterministic(unit),
        sees_one(unit, scene),
        0 <= from <= x_deltas.len(),
        gathers(
            unit,
            scene,
            camera,
            width,
            height,
            x_deltas,
            y_deltas,
            depth,
            x,
            y,
            from,
            so_far,
            total,
        ),
        gathers(
            unit,
            scene,
            camera,
            width,
            height,
            x_deltas,
            y_deltas,
            depth,
            x,
            y,
            from,
            so_far,
            again,
        ),
    ensures
        total == again,
    decreases x_deltas.len() - from,
{
    if from < x_deltas.len() {
        let (rays, light, next) = choose|rays: Rays, light: Colors, next: Colors|
            #![trigger aims(unit, camera, width, height, x_deltas[from], y_deltas[from], x, y, rays), are_added(unit, so_far, light, next)]
            aims(unit, camera, width, height, x_deltas[from], y_deltas[from], x, y, rays)
                && is_seen(unit, scene, rays, depth, light) && are_added(
                unit,
                so_far,
                light,
                next,
            ) && gathers(
                unit,
                scene,
                camera,
                width,
                height,
                x_deltas,
                y_deltas,
                depth,
                x,
                y,
                from + 1,
                next,
                total,
            );
        let (rays2, light2, next2) = choose|rays: Rays, light: Colors, next: Colors|
            #![trigger aims(unit, camera, width, height, x_deltas[from], y_deltas[from], x, y, rays), are_added(unit, so_far, light, next)]
            aims(unit, camera, width, height, x_deltas[from], y_deltas[from], x, y, rays)
                && is_seen(unit, scene, rays, depth, light) && are_added(
                unit,
                so_far,
                light,
                next,
            ) && gathers(
                unit,
                scene,
                camera,
                width,
                height,
                x_deltas,
                y_deltas,
                depth,
                x,
                y,
                from + 1,
                next,
                again,
            );
        lemma_one_aim(
            unit,
            camera,
            width,
            height,
            x_deltas[from],
            y_deltas[from],
            x,
            y,
            rays,
            rays2,
        );
        assert(light == light2);
        lemma_one_of_sums(unit, so_far.xs, light.xs, next.xs, next2.xs);
        lemma_one_of_sums(unit, so_far.ys, light.ys, next.ys, next2.ys);
        lemma_one_of_sums(unit, so_far.zs, light.zs, next.zs, next2.zs);
        lemma_one_gathering(
            unit,
            scene,
            camera,
            width,
            height,
            x_deltas,
            y_deltas,
            depth,
            x,
            y,
            from + 1,
            next,
            total,
            again,
        );
    }
}

/// With a deterministic unit and a scene that gives one light only, a
/// group of pixels has one batch of colors.
pub proof fn lemma_one_shading<A: Arithmetic, S: SceneOfRays<A>>(
    unit: &A,
    scene: &S,
    camera: Camera,
    width: Real,
    height: Real,
    x_deltas: Seq<Reals>,
    y_deltas: Seq<Reals>,
    depth: usize,
    x: int,
    y: int,
    colors: Colors,
    again: Colors,
)
    requires
        is_deterministic(unit),
        sees_one(unit, scene),
        shades(unit, scene, camera, width, height, x_deltas, y_deltas, depth, x, y, colors),
        shades(unit, scene, camera, width, height, x_deltas, y_deltas, depth, x, y, again),
    ensures
        colors == again,
{
    let (black, total, count) = choose|black: Colors, total: Colors, count: Real|
        #![trigger gathers(unit, scene, camera, width, height, x_deltas, y_deltas, depth, x, y, 0, black, total), is_nearest_single(x_deltas.len() as u64, count)]
        black.all_lanes_are(point_of(ZERO_BITS, ZERO_BITS, ZERO_BITS)) && gathers(
            unit,
            scene,
            camera,
            width,
            height,
            x_deltas,
            y_deltas,
            depth,
            x,
            y,
            0,
            black,
            total,
        ) && is_nearest_single(x_deltas.len() as u64, count) && are_toned(
            unit,
            total,
            count,
            colors,
        );
    let (black2, total2, count2) = choose|black: Colors, total: Colors, count: Real|
        #![trigger gathers(unit, scene, camera, width, height, x_deltas, y_deltas, depth, x, y, 0, black, total), is_nearest_single(x_deltas.len() as u64, count)]
        black.all_lanes_are(point_of(ZERO_BITS, ZERO_BITS, ZERO_BITS)) && gathers(
            unit,
            scene,
            camera,
            width,
            height,
            x_deltas,
            y_deltas,
            depth,
            x,
            y,
            0,
            black,
            total,
        ) && is_nearest_single(x_deltas.len() as u64, count) && are_toned(
            unit,
            total,
            count,
            again,
        );
    lemma_same_lanes(black, black2);
    lemma_one_gathering(
        unit,
        scene,
        camera,
        width,
        height,
        x_deltas,
        y_deltas,
        depth,
        x,
        y,
        0,
        black,
        total,
        total2,
    );
    lemma_one_nearest_single(x_deltas.len() as u64, count, count2);
    assert forall|i: int| 0 <= i < LANES implies #[trigger] colors.xs[i] == again.xs[i] by {
        assert(is_toned(unit, total.xs[i], count, colors.xs[i]));
        assert(is_toned(unit, total.xs[i], count, again.xs[i]));
    }
    assert(colors.xs =~= again.xs);
    assert forall|i: int| 0 <= i < LANES implies #[trigger] colors.ys[i] == again.ys[i] by {
        assert(is_toned(unit, total.ys[i], count, colors.ys[i]));
        assert(is_toned(unit, total.ys[i], count, again.ys[i]));
    }
    assert(colors.ys =~= again.ys);
    assert forall|i: int| 0 <= i < LANES implies #[trigger] colors.zs[i] == again.zs[i] by {
        assert(is_toned(unit, total.zs[i], count, colors.zs[i]));
        assert(is_toned(unit, total.zs[i], count, again.zs[i]));
    }
    assert(colors.zs =~= again.zs);
}

/// With a deterministic unit, a channel is shown as one byte.
pub proof fn lemma_one_byte<A: Arithmetic>(
    unit: &A,
    shade: Real,
    brightness: Brightness,
    byte: u8,
    again: u8,
)
    requires
        is_deterministic(unit),
        is_shown(unit, shade, brightness, byte),
        is_shown(unit, shade, brightness, again),
    ensures
        byte == again,
{
}

impl Renderer {
    /// Rendering twice gives the same image.  With a deterministic unit and
    /// a scene that gives one light only for the same rays, what
    /// [`Renderer::render`] makes of an image is settled by the scene, the
    /// camera, the brightness and the image as it was.
    pub proof fn lemma_rendering_twice_gives_the_same<A: Arithmetic, S: SceneOfRays<A>>(
        self,
        unit: &A,
        scene: &S,
        camera: Camera,
        brightness: Brightness,
        before: Seq<[u8; 4]>,
        after: Seq<[u8; 4]>,
        again: Seq<[u8; 4]>,
    )
        requires
            is_deterministic(unit),
            sees_one(unit, scene),
            self.renders(unit, scene, camera, brightness, before, after),
            self.renders(unit, scene, camera, brightness, before, again),
        ensures
            after == again,
    {
        let groups = before.len() / LANES as nat;
        assert forall|k: int| 0 <= k < after.len() implies after[k] == again[k] by {
            if k >= groups * LANES {
                assert(after[k] == before[k]);
                assert(again[k] == before[k]);
            } else {
                let n = k / LANES as int;
                let i = k % LANES as int;
                assert(0 <= n < groups && 0 <= i < LANES && k == n * LANES + i);
                assert(self.paints(unit, scene, camera, brightness, n, before, after));
                assert(self.paints(unit, scene, camera, brightness, n, before, again));
                let colors = choose|shades: Colors| #[trigger]
                    self.shades(unit, scene, camera, n, shades) && forall|i: int|
                        0 <= i < LANES ==> is_painted(
                            unit,
                            #[trigger] shades.lane(i),
                            brightness,
                            before[n * LANES + i],
                            after[n * LANES + i],
                        );
                let colors2 = choose|shades: Colors| #[trigger]
                    self.shades(unit, scene, camera, n, shades) && forall|i: int|
                        0 <= i < LANES ==> is_painted(
                            unit,
                            #[trigger] shades.lane(i),
                            brightness,
                            before[n * LANES + i],
                            again[n * LANES + i],
                        );
                lemma_one_shading(
                    unit,
                    scene,
                    camera,
                    self.width(),
                    self.height(),
                    self.x_deltas(),
                    self.y_deltas(),
                    self.max_depth() as usize,
                    self.group_of(n),
                    self.row_of(n),
                    colors,
                    colors2,
                );
                let shade = colors.lane(i);
                assert(is_painted(unit, shade, brightness, before[k], after[k]));
                assert(is_painted(unit, colors2.lane(i), brightness, before[k], again[k]));
                lemma_one_byte(unit, shade.x, brightness, after[k][0], again[k][0]);
                lemma_one_byte(unit, shade.y, brightness, after[k][1], again[k][1]);
                lemma_one_byte(unit, shade.z, brightness, after[k][2], again[k][2]);
                assert(after[k] =~= again[k]);
            }
        }
        assert(after =~= again);
    }
}

} // verus!
