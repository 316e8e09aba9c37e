use ray_ten::render::camera::Camera;
use ray_ten::math::{Axis, Point, Points, Rays, Reals, LANES};
use ray_ten::render::batch::to_byte;
use ray_ten::render::renderer::Renderer;
use ray_ten::scalar::{Arithmetic, Real};
use ray_ten::scene::{Obstacle, Scene, Sphere};
use ray_ten::render::tracer::{trace_rays, RaysProjections};
use ray_ten::render::walls::checker_mask;

struct Ieee;

impl Arithmetic for Ieee {
    fn add(&self, a: Real, b: Real) -> Real {
        number(single(a) + single(b))
    }

    fn sub(&self, a: Real, b: Real) -> Real {
        number(single(a) - single(b))
    }

    fn mul(&self, a: Real, b: Real) -> Real {
        number(single(a) * single(b))
    }

    fn div(&self, a: Real, b: Real) -> Real {
        number(single(a) / single(b))
    }

    fn sqrt(&self, a: Real) -> Real {
        number(single(a).sqrt())
    }

    fn powf(&self, a: Real, b: Real) -> Real {
        number(single(a).powf(single(b)))
    }
}

fn number(x: f32) -> Real {
    Real::from_bits(x.to_bits())
}

fn single(x: Real) -> f32 {
    f32::from_bits(x.to_bits())
}

fn point(x: f32, y: f32, z: f32) -> Point {
    Point::new(number(x), number(y), number(z))
}

fn batch(values: [f32; LANES]) -> Reals {
    let mut r = [Real::zero(); LANES];
    for i in 0..LANES {
        r[i] = number(values[i]);
    }
    r
}

fn singles(values: Reals) -> [f32; LANES] {
    let mut r = [0.0f32; LANES];
    for i in 0..LANES {
        r[i] = single(values[i]);
    }
    r
}

fn bits(values: Reals) -> [u32; LANES] {
    let mut r = [0u32; LANES];
    for i in 0..LANES {
        r[i] = values[i].to_bits();
    }
    r
}

fn rays_of(origins: [[f32; 3]; LANES], dirs: [[f32; 3]; LANES]) -> Rays {
    let mut o = [[0.0f32; LANES]; 3];
    let mut d = [[0.0f32; LANES]; 3];
    for i in 0..LANES {
        for axis in 0..3 {
            o[axis][i] = origins[i][axis];
            d[axis][i] = dirs[i][axis];
        }
    }
    Rays::new(
        Points::new(batch(o[0]), batch(o[1]), batch(o[2])),
        Points::new(batch(d[0]), batch(d[1]), batch(d[2])),
    )
}

fn same_ray(origin: [f32; 3], dir: [f32; 3]) -> Rays {
    rays_of([origin; LANES], [dir; LANES])
}

fn state_bits(p: &RaysProjections) -> Vec<u32> {
    let mut all = Vec::new();
    for batch in [
        p.rays.origins.xs,
        p.rays.origins.ys,
        p.rays.origins.zs,
        p.rays.dirs.xs,
        p.rays.dirs.ys,
        p.rays.dirs.zs,
        p.min_toi,
        p.obstacle_reflectances,
        p.obstacle_colors.xs,
        p.obstacle_colors.ys,
        p.obstacle_colors.zs,
        p.obstacle_normals.xs,
        p.obstacle_normals.ys,
        p.obstacle_normals.zs,
        p.offset_colors.xs,
        p.offset_colors.ys,
        p.offset_colors.zs,
        p.coef_colors.xs,
        p.coef_colors.ys,
        p.coef_colors.zs,
    ] {
        all.extend_from_slice(&bits(batch));
    }
    all.push(p.depth_left as u32);
    all
}

// The tracer once more, written out on plain singles, to hold the library's
// results against.

const MIN_TOI: f32 = 0.001;

struct Followed {
    origins: [[f32; LANES]; 3],
    dirs: [[f32; LANES]; 3],
    min_toi: [f32; LANES],
    reflectances: [f32; LANES],
    colors: [[f32; LANES]; 3],
    normals: [[f32; LANES]; 3],
    offsets: [[f32; LANES]; 3],
    coefs: [[f32; LANES]; 3],
    depth_left: usize,
}

fn plain(p: Point) -> [f32; 3] {
    [single(p.x()), single(p.y()), single(p.z())]
}

fn followed(origins: [[f32; 3]; LANES], dirs: [[f32; 3]; LANES], max_depth: usize) -> Followed {
    let mut o = [[0.0f32; LANES]; 3];
    let mut d = [[0.0f32; LANES]; 3];
    for i in 0..LANES {
        for axis in 0..3 {
            o[axis][i] = origins[i][axis];
            d[axis][i] = dirs[i][axis];
        }
    }
    Followed {
        origins: o,
        dirs: d,
        min_toi: [f32::MAX; LANES],
        reflectances: [1.0; LANES],
        colors: [[0.0; LANES]; 3],
        normals: [[0.0; LANES]; 3],
        offsets: [[0.0; LANES]; 3],
        coefs: [[1.0; LANES]; 3],
        depth_left: max_depth,
    }
}

fn plain_sphere(t: &mut Followed, center: [f32; 3], radius: f32, color: [f32; 3], reflectance: f32) {
    let mut d = [0.0f32; LANES];
    let mut squares = [0.0f32; LANES];
    let mut deltas = [[0.0f32; LANES]; 3];
    let r_squared = radius * radius;
    for i in 0..LANES {
        for axis in 0..3 {
            deltas[axis][i] = t.origins[axis][i] - center[axis];
        }
        squares[i] = t.dirs[0][i] * t.dirs[0][i] + t.dirs[1][i] * t.dirs[1][i]
            + t.dirs[2][i] * t.dirs[2][i];
        d[i] = r_squared * squares[i];
        let a = t.dirs[0][i] * deltas[1][i] - t.dirs[1][i] * deltas[0][i];
        d[i] -= a * a;
    }
    if !d.iter().any(|&x| x >= 0.0) {
        return;
    }
    for i in 0..LANES {
        let b = t.dirs[0][i] * deltas[2][i] - t.dirs[2][i] * deltas[0][i];
        d[i] -= b * b;
    }
    if !d.iter().any(|&x| x >= 0.0) {
        return;
    }
    for i in 0..LANES {
        let c = t.dirs[1][i] * deltas[2][i] - t.dirs[2][i] * deltas[1][i];
        d[i] -= c * c;
    }
    if !d.iter().any(|&x| x >= 0.0) {
        return;
    }
    for i in 0..LANES {
        let counts = d[i] >= 0.0;
        let floored = if d[i] >= 0.0 { d[i] } else { 0.0 };
        let tts = 0.0 - deltas[0][i] * t.dirs[0][i] - deltas[1][i] * t.dirs[1][i]
            - deltas[2][i] * t.dirs[2][i];
        let mut t1 = (tts + floored.sqrt()) / squares[i];
        let mut t2 = (tts - floored.sqrt()) / squares[i];
        t1 = t1.max(0.0);
        t2 = t2.max(0.0);
        let toi = t1.min(t2);
        if counts && toi > MIN_TOI && toi < t.min_toi[i] {
            t.min_toi[i] = toi;
            t.reflectances[i] = reflectance;
            for axis in 0..3 {
                t.colors[axis][i] = color[axis];
                let poi = t.origins[axis][i] + t.dirs[axis][i] * toi;
                t.normals[axis][i] = (poi - center[axis]) / radius;
            }
        }
    }
}

fn plain_plane(
    t: &mut Followed,
    axis: usize,
    offset: f32,
    normal: [f32; 3],
    color: [f32; 3],
    reflectance: f32,
) {
    for i in 0..LANES {
        let toi = (offset - t.origins[axis][i]) / t.dirs[axis][i];
        if toi > MIN_TOI && toi < t.min_toi[i] {
            t.min_toi[i] = toi;
            t.reflectances[i] = reflectance;
            let mut cells = 0i32;
            for k in 0..3 {
                t.colors[k][i] = color[k];
                t.normals[k][i] = normal[k];
                let poi = (t.origins[k][i] + t.dirs[k][i] * toi + 1000.0) * 1.5;
                cells = cells.wrapping_add(poi as i32);
            }
            if cells % 2 == 0 {
                t.reflectances[i] = 0.0;
            }
        }
    }
}

fn plain_reflect(t: &mut Followed) -> bool {
    for i in 0..LANES {
        for k in 0..3 {
            t.offsets[k][i] += t.coefs[k][i] * t.colors[k][i];
            t.coefs[k][i] *= t.reflectances[i];
        }
    }
    t.depth_left -= 1;
    if t.depth_left == 0 || t.reflectances.iter().all(|&r| r == 0.0) {
        return true;
    }
    for i in 0..LANES {
        let dot = t.dirs[0][i] * t.normals[0][i] + t.dirs[1][i] * t.normals[1][i]
            + t.dirs[2][i] * t.normals[2][i];
        for k in 0..3 {
            t.origins[k][i] = t.origins[k][i] + t.dirs[k][i] * t.min_toi[i];
            t.dirs[k][i] = t.dirs[k][i] - t.normals[k][i] * dot * 2.0;
        }
        t.min_toi[i] = f32::MAX;
    }
    false
}

fn axis_index(axis: Axis) -> usize {
    match axis {
        Axis::XS => 0,
        Axis::YS => 1,
        Axis::ZS => 2,
    }
}

fn plain_search(t: &mut Followed, scene: &Scene) {
    for sphere in scene.spheres() {
        plain_sphere(
            t,
            plain(scene.sphere_pos(sphere)),
            single(scene.sphere_radius(sphere)),
            plain(scene.obstacle_color(Obstacle::Sphere(sphere))),
            single(scene.obstacle_reflectance(Obstacle::Sphere(sphere))),
        );
    }
    for plane in scene.planes() {
        plain_plane(
            t,
            axis_index(scene.plane_alignment_axis(plane)),
            single(scene.plane_offset(plane)),
            plain(scene.plane_normal(plane)),
            plain(scene.obstacle_color(Obstacle::Plane(plane))),
            single(scene.obstacle_reflectance(Obstacle::Plane(plane))),
        );
    }
}

fn plain_trace(
    scene: &Scene,
    origins: [[f32; 3]; LANES],
    dirs: [[f32; 3]; LANES],
    max_depth: usize,
) -> [[f32; LANES]; 3] {
    let mut t = followed(origins, dirs, max_depth);
    loop {
        plain_search(&mut t, scene);
        if plain_reflect(&mut t) {
            break;
        }
    }
    let mut out = [[0.0f32; LANES]; 3];
    for i in 0..LANES {
        for k in 0..3 {
            t.coefs[k][i] *= 1.0;
            out[k][i] = t.offsets[k][i] + t.coefs[k][i];
        }
    }
    out
}

fn plain_render(
    scene: &Scene,
    origin: [f32; 3],
    aspect_ratio: f32,
    view_width: f32,
    dimensions: (u16, u16),
    max_depth: usize,
    coef: f32,
    buffer: &mut [[u8; 4]],
) {
    let (width, height) = dimensions;
    let view_height = view_width / aspect_ratio;
    let base = [-view_width / 2.0, view_height / 2.0, -1.0];
    let x_axis = [view_width, 0.0, 0.0];
    let y_axis = [0.0, -view_height, 0.0];
    let lanes_per_line = width as usize / LANES;
    for (n, slice) in buffer.chunks_exact_mut(LANES).enumerate() {
        let y = n / lanes_per_line;
        let x = n % lanes_per_line;
        let mut origins = [[0.0f32; 3]; LANES];
        let mut dirs = [[0.0f32; 3]; LANES];
        for i in 0..LANES {
            let x_offset = ((x * LANES + i) as f32 + 0.5) / width as f32;
            let y_offset = (y as f32 + 0.5) / height as f32;
            origins[i] = origin;
            for k in 0..3 {
                dirs[i][k] = base[k] + x_axis[k] * x_offset + y_axis[k] * y_offset;
            }
        }
        let colors = plain_trace(scene, origins, dirs, max_depth);
        for i in 0..LANES {
            for k in 0..3 {
                let toned = (colors[k][i] / 1.0).sqrt().clamp(0.0, 1.0);
                slice[i][k] = (toned * 255.0 * coef) as u8;
            }
        }
    }
}

fn rays_into_the_room() -> ([[f32; 3]; LANES], [[f32; 3]; LANES]) {
    let origins = [[1.0, -1.0, 0.0]; LANES];
    let dirs = [
        [-1.0, 0.5, -1.0],
        [-0.75, 0.3, -1.0],
        [-0.5, 0.1, -1.0],
        [-0.25, -0.1, -1.0],
        [0.0, -0.3, -1.0],
        [0.25, 0.0, -1.0],
        [-0.6, 0.0, -1.0],
        [1.0, -0.5, -1.0],
    ];
    (origins, dirs)
}

#[test]
fn a_fresh_batch_has_met_nothing() {
    let rays = same_ray([0.0, 0.0, 0.0], [0.0, 0.0, -1.0]);
    let p = RaysProjections::new(rays, 5);
    assert_eq!(p.depth_left, 5);
    assert_eq!(singles(p.min_toi), [f32::MAX; LANES]);
    assert_eq!(singles(p.obstacle_reflectances), [1.0; LANES]);
    assert_eq!(singles(p.obstacle_colors.xs), [0.0; LANES]);
    assert_eq!(singles(p.obstacle_normals.zs), [0.0; LANES]);
    assert_eq!(singles(p.offset_colors.ys), [0.0; LANES]);
    assert_eq!(singles(p.coef_colors.xs), [1.0; LANES]);
    assert_eq!(singles(p.coef_colors.ys), [1.0; LANES]);
    assert_eq!(singles(p.coef_colors.zs), [1.0; LANES]);
    assert_eq!(singles(p.rays.dirs.zs), [-1.0; LANES]);
}

#[test]
fn a_ray_through_the_centre_meets_the_sphere_at_distance_less_radius() {
    let unit = Ieee;
    let rays = same_ray([0.0, 0.0, 0.0], [0.0, 0.0, -1.0]);
    let mut p = RaysProjections::new(rays, 5);
    p.with_sphere(&unit, point(0.0, 0.0, -5.0), number(1.0), point(0.1, 0.2, 0.3), number(0.5));
    for i in 0..LANES {
        assert!((single(p.min_toi[i]) - 4.0).abs() < 1.0e-6);
        assert!(single(p.obstacle_normals.xs[i]).abs() < 1.0e-6);
        assert!(single(p.obstacle_normals.ys[i]).abs() < 1.0e-6);
        assert!((single(p.obstacle_normals.zs[i]) - 1.0).abs() < 1.0e-6);
        assert_eq!(single(p.obstacle_colors.xs[i]), 0.1);
        assert_eq!(single(p.obstacle_colors.ys[i]), 0.2);
        assert_eq!(single(p.obstacle_colors.zs[i]), 0.3);
        assert_eq!(single(p.obstacle_reflectances[i]), 0.5);
    }
}

#[test]
fn where_nothing_is_rounded_the_distance_is_exact() {
    let unit = Ieee;
    // Each start, direction, distance in directions, and radius: all whole
    // numbers or halves, and so is every step on the way.
    let cases: [([f32; 3], [f32; 3], f32, f32); 5] = [
        ([0.0, 0.0, 0.0], [0.0, 0.0, -1.0], 5.0, 1.0),
        ([0.0, 0.0, 0.0], [0.0, 0.0, -2.0], 2.5, 1.0),
        ([0.0, 0.0, 0.0], [3.0, 4.0, 0.0], 2.0, 5.0),
        ([1.0, -2.0, 3.0], [2.0, -1.0, 2.0], 4.0, 1.5),
        ([-1.0, 0.5, 2.0], [0.0, 12.0, -5.0], 1.5, 6.5),
    ];
    for (start, dir, t, radius) in cases {
        let length = (dir[0] * dir[0] + dir[1] * dir[1] + dir[2] * dir[2]).sqrt();
        assert_eq!(length * length, dir[0] * dir[0] + dir[1] * dir[1] + dir[2] * dir[2]);
        let center = [start[0] + t * dir[0], start[1] + t * dir[1], start[2] + t * dir[2]];
        let mut p = RaysProjections::new(same_ray(start, dir), 5);
        p.with_sphere(
            &unit,
            point(center[0], center[1], center[2]),
            number(radius),
            point(0.1, 0.2, 0.3),
            number(0.5),
        );
        for i in 0..LANES {
            let toi = single(p.min_toi[i]);
            assert_eq!(toi, t - radius / length);
            assert_eq!(toi * length, t * length - radius);
            assert_eq!(single(p.obstacle_reflectances[i]), 0.5);
        }
    }
}

#[test]
fn rays_through_the_centre_from_all_around() {
    let unit = Ieee;
    let center = [0.5f32, -1.0, -7.0];
    let radius = 1.25f32;
    let starts = [
        [0.0f32, 0.0, 0.0],
        [3.0, 2.0, -1.0],
        [-4.0, 1.0, -9.0],
        [0.5, -1.0, 2.0],
        [10.0, 10.0, 10.0],
        [0.5, 5.0, -7.0],
        [-3.0, -1.0, -7.0],
        [2.0, -3.0, -12.0],
    ];
    let mut dirs = [[0.0f32; 3]; LANES];
    let mut distances = [0.0f32; LANES];
    for i in 0..LANES {
        let to = [center[0] - starts[i][0], center[1] - starts[i][1], center[2] - starts[i][2]];
        let length = (to[0] * to[0] + to[1] * to[1] + to[2] * to[2]).sqrt();
        dirs[i] = [to[0] / length, to[1] / length, to[2] / length];
        distances[i] = length;
    }
    let mut p = RaysProjections::new(rays_of(starts, dirs), 5);
    p.with_sphere(
        &unit,
        point(center[0], center[1], center[2]),
        number(radius),
        point(1.0, 1.0, 1.0),
        number(1.0),
    );
    for i in 0..LANES {
        let toi = single(p.min_toi[i]);
        assert!((toi - (distances[i] - radius)).abs() < 1.0e-4, "lane {}: {}", i, toi);
        let normal = [
            single(p.obstacle_normals.xs[i]),
            single(p.obstacle_normals.ys[i]),
            single(p.obstacle_normals.zs[i]),
        ];
        for k in 0..3 {
            assert!((normal[k] + dirs[i][k]).abs() < 1.0e-4);
        }
    }
}

#[test]
fn a_ray_that_heads_away_from_a_sphere_leaves_the_batch_as_it_was() {
    let unit = Ieee;
    let rays = same_ray([0.0, 0.0, 0.0], [0.0, 0.0, 1.0]);
    let mut p = RaysProjections::new(rays, 5);
    let before = state_bits(&p);
    p.with_sphere(&unit, point(0.0, 0.0, -5.0), number(1.0), point(0.1, 0.2, 0.3), number(0.5));
    assert_eq!(state_bits(&p), before);
    p.with_sphere(&unit, point(0.0, 30.0, 0.0), number(1.0), point(0.1, 0.2, 0.3), number(0.5));
    assert_eq!(state_bits(&p), before);
    assert_eq!(singles(p.coef_colors.xs), [1.0; LANES]);
}

#[test]
fn a_ray_that_starts_inside_a_sphere_does_not_meet_it() {
    let unit = Ieee;
    let rays = same_ray([0.0, 0.0, -5.0], [0.0, 0.0, -1.0]);
    let mut p = RaysProjections::new(rays, 5);
    let before = state_bits(&p);
    p.with_sphere(&unit, point(0.0, 0.0, -5.0), number(1.0), point(0.1, 0.2, 0.3), number(0.5));
    assert_eq!(state_bits(&p), before);
}

#[test]
fn only_the_lanes_that_meet_the_sphere_change() {
    let unit = Ieee;
    let mut dirs = [[0.0f32, 0.0, -1.0]; LANES];
    for i in 0..LANES {
        if i % 2 == 1 {
            dirs[i] = [0.0, 1.0, 0.0];
        }
    }
    let mut p = RaysProjections::new(rays_of([[0.0, 0.0, 0.0]; LANES], dirs), 5);
    p.with_sphere(&unit, point(0.0, 0.0, -5.0), number(1.0), point(0.1, 0.2, 0.3), number(0.5));
    for i in 0..LANES {
        if i % 2 == 0 {
            assert_eq!(single(p.min_toi[i]), 4.0);
            assert_eq!(single(p.obstacle_reflectances[i]), 0.5);
            assert_eq!(single(p.obstacle_colors.ys[i]), 0.2);
        } else {
            assert_eq!(single(p.min_toi[i]), f32::MAX);
            assert_eq!(single(p.obstacle_reflectances[i]), 1.0);
            assert_eq!(single(p.obstacle_colors.ys[i]), 0.0);
            assert_eq!(single(p.obstacle_normals.zs[i]), 0.0);
        }
    }
}

#[test]
fn the_nearer_of_two_spheres_wins_whichever_is_tested_first() {
    let unit = Ieee;
    let rays = same_ray([0.0, 0.0, 0.0], [0.0, 0.0, -1.0]);
    let mut one = RaysProjections::new(rays, 5);
    one.with_sphere(&unit, point(0.0, 0.0, -5.0), number(1.0), point(0.1, 0.1, 0.1), number(0.5));
    one.with_sphere(&unit, point(0.0, 0.0, -9.0), number(1.0), point(0.9, 0.9, 0.9), number(0.25));
    let mut other = RaysProjections::new(rays, 5);
    other.with_sphere(&unit, point(0.0, 0.0, -9.0), number(1.0), point(0.9, 0.9, 0.9), number(0.25));
    other.with_sphere(&unit, point(0.0, 0.0, -5.0), number(1.0), point(0.1, 0.1, 0.1), number(0.5));
    assert_eq!(state_bits(&one), state_bits(&other));
    assert_eq!(singles(one.min_toi), [4.0; LANES]);
    assert_eq!(singles(one.obstacle_colors.xs), [0.1; LANES]);
    assert_eq!(singles(one.obstacle_reflectances), [0.5; LANES]);
}

#[test]
fn of_two_meetings_equally_far_the_first_stays() {
    let rays = same_ray([0.0, 0.0, 0.0], [0.0, 0.0, -1.0]);
    let mut p = RaysProjections::new(rays, 5);
    let toi = batch([2.0; LANES]);
    let clear = [false; LANES];
    p.record_wall(toi, clear, point(0.0, 0.0, 1.0), point(0.1, 0.1, 0.1), number(0.3));
    p.record_wall(toi, clear, point(0.0, 1.0, 0.0), point(0.9, 0.9, 0.9), number(0.7));
    assert_eq!(singles(p.obstacle_colors.xs), [0.1; LANES]);
    assert_eq!(singles(p.obstacle_reflectances), [0.3; LANES]);
    assert_eq!(singles(p.obstacle_normals.zs), [1.0; LANES]);
}

#[test]
fn a_meeting_counts_only_strictly_beyond_the_least_distance() {
    let rays = same_ray([0.0, 0.0, 0.0], [0.0, 0.0, -1.0]);
    let mut p = RaysProjections::new(rays, 5);
    let least = 0.001f32;
    let just_beyond = f32::from_bits(least.to_bits() + 1);
    let toi = batch([least, just_beyond, 0.0, -1.0, f32::MAX, f32::INFINITY, f32::NAN, 0.0009]);
    p.record_wall(toi, [false; LANES], point(0.0, 0.0, 1.0), point(0.5, 0.5, 0.5), number(0.3));
    let expected = [
        f32::MAX,
        just_beyond,
        f32::MAX,
        f32::MAX,
        f32::MAX,
        f32::MAX,
        f32::MAX,
        f32::MAX,
    ];
    assert_eq!(singles(p.min_toi), expected);
    for i in 0..LANES {
        let won = i == 1;
        assert_eq!(single(p.obstacle_colors.xs[i]), if won { 0.5 } else { 0.0 });
        assert_eq!(single(p.obstacle_reflectances[i]), if won { 0.3 } else { 1.0 });
    }
}

#[test]
fn a_sphere_counts_only_where_its_discriminant_is_not_negative() {
    let rays = same_ray([0.0, 0.0, 0.0], [0.0, 0.0, -1.0]);
    let mut p = RaysProjections::new(rays, 5);
    let d = batch([1.0, 0.0, -0.0, -1.0, f32::NAN, f32::INFINITY, -1.0e-30, 1.0e-30]);
    let toi = batch([3.0; LANES]);
    let normals = Points::splat(number(0.0), number(0.0), number(1.0));
    p.record_sphere(d, toi, normals, point(0.5, 0.5, 0.5), number(0.25));
    let won = [true, true, true, false, false, true, false, true];
    for i in 0..LANES {
        assert_eq!(single(p.min_toi[i]), if won[i] { 3.0 } else { f32::MAX });
        assert_eq!(single(p.obstacle_reflectances[i]), if won[i] { 0.25 } else { 1.0 });
    }
}

#[test]
fn a_ray_along_a_wall_never_meets_it() {
    let unit = Ieee;
    let origins = [
        [0.0f32, 0.0, 0.0],
        [0.0, 2.0, 0.0],
        [0.0, 1.0, 0.0],
        [0.0, 3.0, 0.0],
        [0.0, 2.0, -3.0],
        [1.0, 0.0, 0.0],
        [0.0, -2.0, 0.0],
        [0.0, 1.9, 0.0],
    ];
    let dirs = [
        [1.0f32, 0.0, 0.0],
        [1.0, 0.0, 0.0],
        [0.0, -0.0, 1.0],
        [0.0, 0.0, -1.0],
        [1.0, -0.0, 1.0],
        [-1.0, 0.0, -1.0],
        [1.0, 0.0, 0.0],
        [0.0, 0.0, 1.0],
    ];
    let mut p = RaysProjections::new(rays_of(origins, dirs), 5);
    let before = state_bits(&p);
    p.with_axis_aligned_plane(
        &unit,
        Axis::YS,
        number(2.0),
        point(0.0, -1.0, 0.0),
        point(0.8, 0.8, 0.1),
        number(0.3),
    );
    assert_eq!(state_bits(&p), before);
}

#[test]
fn a_wall_is_met_where_the_ray_crosses_it() {
    let unit = Ieee;
    let rays = same_ray([0.0, 0.0, 0.0], [0.0, 0.5, -1.0]);
    let mut p = RaysProjections::new(rays, 5);
    p.with_axis_aligned_plane(
        &unit,
        Axis::YS,
        number(2.0),
        point(0.0, -1.0, 0.0),
        point(0.8, 0.8, 0.1),
        number(0.3),
    );
    assert_eq!(singles(p.min_toi), [4.0; LANES]);
    assert_eq!(singles(p.obstacle_normals.ys), [-1.0; LANES]);
    assert_eq!(singles(p.obstacle_colors.xs), [0.8; LANES]);
    assert_eq!(singles(p.obstacle_colors.zs), [0.1; LANES]);
    // The meeting point is (0, 2, -4); moved by 1000 and scaled by 1.5 its cell is
    // (1500, 1503, 1494), whose sum is odd: the cell is a light one.
    assert_eq!(singles(p.obstacle_reflectances), [0.3; LANES]);
}

#[test]
fn neighbouring_checker_cells_alternate() {
    let unit = Ieee;
    // Rays straight up from y = 0 to the wall at y = 2; the cell along x changes every
    // two thirds of a unit.
    let mut origins = [[0.0f32; 3]; LANES];
    for i in 0..LANES {
        origins[i] = [0.1 + (i as f32) * (2.0 / 3.0), 0.0, -4.1];
    }
    let mut p = RaysProjections::new(rays_of(origins, [[0.0, 1.0, 0.0]; LANES]), 5);
    p.with_axis_aligned_plane(
        &unit,
        Axis::YS,
        number(2.0),
        point(0.0, -1.0, 0.0),
        point(0.8, 0.8, 0.1),
        number(0.3),
    );
    let reflectances = singles(p.obstacle_reflectances);
    for i in 0..LANES {
        let cell_x = ((origins[i][0] + 1000.0) * 1.5) as i32;
        let cell_y = ((2.0f32 + 1000.0) * 1.5) as i32;
        let cell_z = ((origins[i][2] + 1000.0) * 1.5) as i32;
        let dark = (cell_x + cell_y + cell_z) % 2 == 0;
        assert_eq!(reflectances[i], if dark { 0.0 } else { 0.3 }, "lane {}", i);
        if i > 0 {
            assert!(reflectances[i] != reflectances[i - 1], "lane {}", i);
        }
    }
}

#[test]
fn checker_mask_goes_by_the_parity_of_the_sum() {
    let xs = [0, 1, 2, -1, -2, i32::MAX, i32::MIN, 1500];
    let ys = [0, 0, 1, 0, 1, i32::MAX, i32::MIN, 1503];
    let zs = [0, 0, 0, 0, 0, 1, -1, 1494];
    let dark = checker_mask(xs, ys, zs);
    assert_eq!(dark, [true, false, false, false, false, false, false, false]);
    let again = checker_mask(xs, ys, [1, 1, 1, 1, 1, 2, 0, 1495]);
    assert_eq!(again, [false, true, true, true, true, true, true, true]);
}

#[test]
fn reflecting_gathers_attenuates_and_mirrors() {
    let unit = Ieee;
    let rays = same_ray([0.0, 0.0, 0.0], [0.0, 0.5, -1.0]);
    let mut p = RaysProjections::new(rays, 3);
    p.record_wall(
        batch([4.0; LANES]),
        [false; LANES],
        point(0.0, -1.0, 0.0),
        point(0.8, 0.4, 0.1),
        number(0.5),
    );
    let done = p.reflect(&unit);
    assert!(!done);
    assert_eq!(p.depth_left, 2);
    assert_eq!(singles(p.offset_colors.xs), [0.8; LANES]);
    assert_eq!(singles(p.offset_colors.ys), [0.4; LANES]);
    assert_eq!(singles(p.offset_colors.zs), [0.1; LANES]);
    assert_eq!(singles(p.coef_colors.xs), [0.5; LANES]);
    assert_eq!(singles(p.coef_colors.ys), [0.5; LANES]);
    assert_eq!(singles(p.coef_colors.zs), [0.5; LANES]);
    assert_eq!(singles(p.rays.origins.xs), [0.0; LANES]);
    assert_eq!(singles(p.rays.origins.ys), [2.0; LANES]);
    assert_eq!(singles(p.rays.origins.zs), [-4.0; LANES]);
    assert_eq!(singles(p.rays.dirs.xs), [0.0; LANES]);
    assert_eq!(singles(p.rays.dirs.ys), [-0.5; LANES]);
    assert_eq!(singles(p.rays.dirs.zs), [-1.0; LANES]);
    assert_eq!(singles(p.min_toi), [f32::MAX; LANES]);
    // What was met stays on record until something nearer is met.
    assert_eq!(singles(p.obstacle_colors.xs), [0.8; LANES]);
    assert_eq!(singles(p.obstacle_reflectances), [0.5; LANES]);
}

#[test]
fn the_batch_is_done_when_the_depth_is_used_up() {
    let unit = Ieee;
    let rays = same_ray([0.0, 0.0, 0.0], [0.0, 0.5, -1.0]);
    let mut p = RaysProjections::new(rays, 1);
    p.record_wall(
        batch([4.0; LANES]),
        [false; LANES],
        point(0.0, -1.0, 0.0),
        point(0.8, 0.4, 0.1),
        number(0.5),
    );
    let before = p.rays;
    assert!(!p.exhausted());
    assert!(p.reflect(&unit));
    assert_eq!(p.depth_left, 0);
    assert_eq!(bits(p.rays.origins.ys), bits(before.origins.ys));
    assert_eq!(bits(p.rays.dirs.ys), bits(before.dirs.ys));
    assert_eq!(singles(p.min_toi), [4.0; LANES]);
}

#[test]
fn the_batch_is_done_when_no_lane_reflects() {
    let unit = Ieee;
    let rays = same_ray([0.0, 0.0, 0.0], [0.0, 0.5, -1.0]);
    let mut p = RaysProjections::new(rays, 7);
    p.record_wall(
        batch([4.0; LANES]),
        [true; LANES],
        point(0.0, -1.0, 0.0),
        point(0.8, 0.4, 0.1),
        number(0.5),
    );
    assert!(p.exhausted());
    assert!(p.reflect(&unit));
    assert_eq!(p.depth_left, 6);
    assert_eq!(singles(p.coef_colors.xs), [0.0; LANES]);
    assert_eq!(singles(p.offset_colors.xs), [0.8; LANES]);
}

#[test]
fn one_lane_that_still_reflects_keeps_the_batch_going() {
    let unit = Ieee;
    let rays = same_ray([0.0, 0.0, 0.0], [0.0, 0.5, -1.0]);
    let mut p = RaysProjections::new(rays, 7);
    let mut dark = [true; LANES];
    dark[5] = false;
    p.record_wall(
        batch([4.0; LANES]),
        dark,
        point(0.0, -1.0, 0.0),
        point(0.8, 0.4, 0.1),
        number(0.5),
    );
    assert!(!p.exhausted());
    assert!(!p.reflect(&unit));
    assert_eq!(p.depth_left, 6);
}

#[test]
fn minus_zero_counts_as_no_reflection() {
    let rays = same_ray([0.0, 0.0, 0.0], [0.0, 0.5, -1.0]);
    let mut p = RaysProjections::new(rays, 7);
    p.record_wall(
        batch([4.0; LANES]),
        [false; LANES],
        point(0.0, -1.0, 0.0),
        point(0.8, 0.4, 0.1),
        number(-0.0),
    );
    assert!(p.exhausted());
}

#[test]
fn finish_adds_the_light_from_beyond() {
    let unit = Ieee;
    let rays = same_ray([0.0, 0.0, 0.0], [0.0, 0.5, -1.0]);
    let mut p = RaysProjections::new(rays, 2);
    p.record_wall(
        batch([4.0; LANES]),
        [false; LANES],
        point(0.0, -1.0, 0.0),
        point(0.5, 0.25, 0.125),
        number(0.5),
    );
    assert!(!p.reflect(&unit));
    let colors = p.finish(&unit, Points::splat(number(1.0), number(0.5), number(0.0)));
    assert_eq!(singles(colors.xs), [1.0; LANES]);
    assert_eq!(singles(colors.ys), [0.5; LANES]);
    assert_eq!(singles(colors.zs), [0.125; LANES]);
}

#[test]
fn with_depth_one_the_first_meeting_is_all_there_is() {
    let unit = Ieee;
    let scene = Scene::new();
    let (origins, dirs) = rays_into_the_room();
    let rays = rays_of(origins, dirs);
    let mut first = RaysProjections::new(rays, 1);
    first.with_spheres(&unit, &scene);
    first.with_planes(&unit, &scene);
    let colors = trace_rays(&unit, &scene, rays, 1);
    for i in 0..LANES {
        let reflectance = single(first.obstacle_reflectances[i]);
        assert_eq!(single(colors.xs[i]), single(first.obstacle_colors.xs[i]) + reflectance);
        assert_eq!(single(colors.ys[i]), single(first.obstacle_colors.ys[i]) + reflectance);
        assert_eq!(single(colors.zs[i]), single(first.obstacle_colors.zs[i]) + reflectance);
        assert!(single(first.min_toi[i]) < f32::MAX);
    }
}

#[test]
fn tracing_agrees_with_the_plain_tracer() {
    let unit = Ieee;
    let scene = Scene::new();
    let (origins, dirs) = rays_into_the_room();
    for depth in 1..8 {
        let colors = trace_rays(&unit, &scene, rays_of(origins, dirs), depth);
        let expected = plain_trace(&scene, origins, dirs, depth);
        for i in 0..LANES {
            assert_eq!(single(colors.xs[i]).to_bits(), expected[0][i].to_bits(), "depth {}", depth);
            assert_eq!(single(colors.ys[i]).to_bits(), expected[1][i].to_bits(), "depth {}", depth);
            assert_eq!(single(colors.zs[i]).to_bits(), expected[2][i].to_bits(), "depth {}", depth);
        }
    }
}

#[test]
fn tracing_twice_gives_the_same() {
    let unit = Ieee;
    let scene = Scene::new();
    let (origins, dirs) = rays_into_the_room();
    let one = trace_rays(&unit, &scene, rays_of(origins, dirs), 5);
    let two = trace_rays(&unit, &scene, rays_of(origins, dirs), 5);
    assert_eq!(bits(one.xs), bits(two.xs));
    assert_eq!(bits(one.ys), bits(two.ys));
    assert_eq!(bits(one.zs), bits(two.zs));
}

#[test]
fn moving_the_ball_changes_only_the_lanes_that_see_it() {
    let unit = Ieee;
    let mut scene = Scene::new();
    // Every second ray heads for the ball where it starts, at (-2, -1, -6); the others
    // head for the right wall, which the ball never comes near.
    let mut dirs = [[0.0f32; 3]; LANES];
    for i in 0..LANES {
        dirs[i] = if i % 2 == 0 { [-3.0, 0.0, -6.0] } else { [1.0, 0.05 * (i as f32), -0.5] };
    }
    let origins = [[1.0f32, -1.0, 0.0]; LANES];
    let mut before = RaysProjections::new(rays_of(origins, dirs), 1);
    before.with_spheres(&unit, &scene);
    before.with_planes(&unit, &scene);
    scene.move_sphere_to(Sphere::Ball, point(-2.0, 1.5, -6.0));
    let mut after = RaysProjections::new(rays_of(origins, dirs), 1);
    after.with_spheres(&unit, &scene);
    after.with_planes(&unit, &scene);
    for i in 0..LANES {
        if i % 2 == 0 {
            assert_eq!(single(before.obstacle_reflectances[i]), 0.5);
            assert_eq!(single(before.obstacle_colors.xs[i]), 0.1);
            assert!(single(after.min_toi[i]) > single(before.min_toi[i]));
        } else {
            assert_eq!(before.min_toi[i].to_bits(), after.min_toi[i].to_bits());
            assert_eq!(
                before.obstacle_colors.xs[i].to_bits(),
                after.obstacle_colors.xs[i].to_bits()
            );
            assert_eq!(
                before.obstacle_reflectances[i].to_bits(),
                after.obstacle_reflectances[i].to_bits()
            );
            assert_eq!(single(after.obstacle_colors.xs[i]), 0.8);
            assert_eq!(single(after.obstacle_normals.xs[i]), -1.0);
        }
    }
}

#[test]
fn reflectance_never_amplifies() {
    let unit = Ieee;
    let scene = Scene::new();
    let mut obstacles = Vec::new();
    for plane in scene.planes() {
        obstacles.push(Obstacle::Plane(plane));
    }
    for sphere in scene.spheres() {
        obstacles.push(Obstacle::Sphere(sphere));
    }
    assert_eq!(obstacles.len(), 9);
    for obstacle in obstacles {
        let reflectance = scene.obstacle_reflectance(obstacle);
        assert!(single(reflectance) >= 0.0 && single(reflectance) <= 1.0);
        let rays = same_ray([0.0, 0.0, 0.0], [0.0, 0.5, -1.0]);
        let mut p = RaysProjections::new(rays, 4);
        p.coef_colors = Points::new(
            batch([1.0, 0.5, 0.25, 0.0, 0.75, 0.9, 1.0e-3, 0.3]),
            batch([0.1; LANES]),
            batch([1.0; LANES]),
        );
        let before = p.coef_colors;
        p.record_wall(
            batch([4.0; LANES]),
            [false; LANES],
            point(0.0, -1.0, 0.0),
            scene.obstacle_color(obstacle),
            reflectance,
        );
        p.reflect(&unit);
        for i in 0..LANES {
            assert!(single(p.coef_colors.xs[i]) <= single(before.xs[i]));
            assert!(single(p.coef_colors.ys[i]) <= single(before.ys[i]));
            assert!(single(p.coef_colors.zs[i]) <= single(before.zs[i]));
        }
    }
}

#[test]
fn a_batch_that_meets_nothing_brings_back_the_light_from_beyond() {
    let unit = Ieee;
    let origins = [
        [0.0f32, 0.0, 0.0],
        [1.0, -1.0, 0.0],
        [0.0, 0.0, 5.0],
        [-3.0, 2.0, 1.0],
        [0.5, 0.5, 0.5],
        [10.0, 0.0, 0.0],
        [0.0, 7.0, 0.0],
        [2.0, 2.0, 2.0],
    ];
    let dirs = [
        [0.0f32, 0.0, 1.0],
        [1.0, 0.0, 0.0],
        [0.0, 1.0, 0.0],
        [-1.0, 0.5, 0.25],
        [0.3, 0.3, 0.3],
        [1.0, 0.0, 0.0],
        [0.0, 1.0, 0.0],
        [0.0, 0.0, 0.0],
    ];
    for depth in 1..6 {
        let mut p = RaysProjections::new(rays_of(origins, dirs), depth);
        loop {
            // One ball, far behind every ray, and nothing else.
            p.with_sphere(&unit, point(0.0, -50.0, -50.0), number(1.0), point(0.5, 0.5, 0.5), number(0.5));
            assert_eq!(singles(p.coef_colors.xs), [1.0; LANES]);
            assert_eq!(singles(p.coef_colors.ys), [1.0; LANES]);
            assert_eq!(singles(p.coef_colors.zs), [1.0; LANES]);
            if p.reflect(&unit) {
                break;
            }
        }
        assert_eq!(p.depth_left, 0);
        let ambient = Points::new(batch([0.25; LANES]), batch([0.5; LANES]), batch([1.0; LANES]));
        let colors = p.finish(&unit, ambient);
        assert_eq!(singles(colors.xs), [0.25; LANES]);
        assert_eq!(singles(colors.ys), [0.5; LANES]);
        assert_eq!(singles(colors.zs), [1.0; LANES]);
    }
}

#[test]
fn bytes_saturate() {
    assert_eq!(to_byte(-1), 0);
    assert_eq!(to_byte(0), 0);
    assert_eq!(to_byte(76), 76);
    assert_eq!(to_byte(255), 255);
    assert_eq!(to_byte(256), 255);
    assert_eq!(to_byte(i32::MAX), 255);
    assert_eq!(to_byte(i32::MIN), 0);
}

#[test]
fn a_renderer_with_one_sample_looks_through_the_middle_of_each_pixel() {
    let unit = Ieee;
    let renderer = Renderer::new(&unit, (16, 2), 1, 5);
    let sample = renderer.sample(0);
    assert_eq!(sample.x, 1u64 << 32);
    assert_eq!(sample.y, 1u64 << 32);
    let camera = Camera::new(&unit, number(8.0), number(2.0));
    let rays = renderer.group_rays(&unit, &camera, 3, 0);
    // Group 3 of an image 16 wide is the right half of the second row.
    for i in 0..LANES {
        let x = ((8 + i) as f32 + 0.5) / 16.0;
        let y = (1.0f32 + 0.5) / 2.0;
        assert_eq!(single(rays.dirs.xs[i]), -1.0 + 2.0 * x + 0.0 * y);
        assert_eq!(single(rays.dirs.ys[i]), 0.125 + 0.0 * x + -0.25 * y);
        assert_eq!(single(rays.dirs.zs[i]), -1.0);
        assert_eq!(single(rays.origins.xs[i]), 1.0);
        assert_eq!(single(rays.origins.ys[i]), -1.0);
        assert_eq!(single(rays.origins.zs[i]), 0.0);
    }
}

#[test]
fn rendering_agrees_with_the_plain_renderer() {
    let unit = Ieee;
    let scene = Scene::new();
    let dimensions = (32u16, 18u16);
    let aspect_ratio = 32.0f32 / 18.0;
    let renderer = Renderer::new(&unit, dimensions, 1, 5);
    let camera = Camera::new(&unit, number(aspect_ratio), number(2.0));
    for coef in [1.0f32, 0.3] {
        let mut buffer = vec![[7u8, 7, 7, 99]; 32 * 18];
        renderer.render(&unit, &scene, &camera, number(coef), &mut buffer);
        let mut expected = vec![[7u8, 7, 7, 99]; 32 * 18];
        plain_render(&scene, [1.0, -1.0, 0.0], aspect_ratio, 2.0, dimensions, 5, coef, &mut expected);
        assert_eq!(buffer, expected);
        assert!(buffer.iter().any(|pixel| pixel[0] != pixel[1] || pixel[1] != pixel[2]));
        assert!(buffer.iter().all(|pixel| pixel[3] == 99));
    }
}

#[test]
fn rendering_twice_gives_the_same_image() {
    let unit = Ieee;
    let scene = Scene::new();
    let renderer = Renderer::new(&unit, (16, 8), 1, 5);
    let camera = Camera::new(&unit, number(2.0), number(2.0));
    let mut one = vec![[0u8; 4]; 16 * 8];
    let mut two = vec![[255u8; 4]; 16 * 8];
    renderer.render(&unit, &scene, &camera, number(1.0), &mut one);
    renderer.render(&unit, &scene, &camera, number(1.0), &mut two);
    for k in 0..one.len() {
        assert_eq!(one[k][0], two[k][0]);
        assert_eq!(one[k][1], two[k][1]);
        assert_eq!(one[k][2], two[k][2]);
        assert_eq!(one[k][3], 0);
        assert_eq!(two[k][3], 255);
    }
}

#[test]
fn pixels_beyond_the_last_whole_group_stay_as_they_were() {
    let unit = Ieee;
    let scene = Scene::new();
    // Nine columns make one group per row; three rows of nine pixels are twenty-seven
    // pixels, of which the last three belong to no whole group.
    let renderer = Renderer::new(&unit, (9, 3), 1, 2);
    let camera = Camera::new(&unit, number(3.0), number(2.0));
    let mut buffer = vec![[1u8, 2, 3, 4]; 27];
    renderer.render(&unit, &scene, &camera, number(1.0), &mut buffer);
    for k in 24..27 {
        assert_eq!(buffer[k], [1, 2, 3, 4]);
    }
    assert!(buffer[..24].iter().any(|pixel| pixel[0] != 1 || pixel[1] != 2 || pixel[2] != 3));
    assert!(buffer.iter().all(|pixel| pixel[3] == 4));
}

#[test]
fn dimming_darkens_every_byte() {
    let unit = Ieee;
    let scene = Scene::new();
    let renderer = Renderer::new(&unit, (16, 8), 1, 5);
    let camera = Camera::new(&unit, number(2.0), number(2.0));
    let mut bright = vec![[0u8; 4]; 16 * 8];
    let mut dim = vec![[0u8; 4]; 16 * 8];
    renderer.render(&unit, &scene, &camera, number(1.0), &mut bright);
    renderer.render(&unit, &scene, &camera, number(0.3), &mut dim);
    for k in 0..bright.len() {
        for c in 0..3 {
            assert!(dim[k][c] <= bright[k][c]);
            assert!(dim[k][c] <= 76);
        }
    }
}

#[test]
fn more_samples_are_averaged() {
    let unit = Ieee;
    let scene = Scene::new();
    let camera = Camera::new(&unit, number(2.0), number(2.0));
    let renderer = Renderer::new(&unit, (8, 4), 4, 3);
    let shades = renderer.group_shades(&unit, &scene, &camera, 1);
    let mut total = [[0.0f32; LANES]; 3];
    for sample in 0..4 {
        let rays = renderer.group_rays(&unit, &camera, 1, sample);
        let light = trace_rays(&unit, &scene, rays, 3);
        for i in 0..LANES {
            total[0][i] += single(light.xs[i]);
            total[1][i] += single(light.ys[i]);
            total[2][i] += single(light.zs[i]);
        }
    }
    for i in 0..LANES {
        assert_eq!(single(shades.xs[i]), (total[0][i] / 4.0).sqrt().clamp(0.0, 1.0));
        assert_eq!(single(shades.ys[i]), (total[1][i] / 4.0).sqrt().clamp(0.0, 1.0));
        assert_eq!(single(shades.zs[i]), (total[2][i] / 4.0).sqrt().clamp(0.0, 1.0));
    }
}

#[test]
fn a_lane_that_meets_nothing_in_the_room_comes_back_white() {
    let unit = Ieee;
    let scene = Scene::new();
    let (origins, mut dirs) = rays_into_the_room();
    // A ray that goes nowhere meets no wall and no sphere, on any bounce.
    dirs[7] = [0.0, 0.0, 0.0];
    for depth in 1..7 {
        let colors = trace_rays(&unit, &scene, rays_of(origins, dirs), depth);
        assert_eq!(colors.xs[7].to_bits(), 1.0f32.to_bits());
        assert_eq!(colors.ys[7].to_bits(), 1.0f32.to_bits());
        assert_eq!(colors.zs[7].to_bits(), 1.0f32.to_bits());
        // The other lanes meet the room, and none of them comes back white.
        for i in 0..7 {
            let lane = [single(colors.xs[i]), single(colors.ys[i]), single(colors.zs[i])];
            assert_ne!(lane, [1.0, 1.0, 1.0]);
        }
    }
}

#[test]
fn reflecting_leaves_a_share_from_nothing_to_what_it_was() {
    let unit = Ieee;
    let mut seed: u32 = 0x2545_f491;
    let mut next = move || {
        seed = seed.wrapping_mul(1_664_525).wrapping_add(1_013_904_223);
        (seed >> 8) as f32 / (1u32 << 24) as f32
    };
    for round in 0..2000 {
        let reflectance = match round {
            0 => 0.0,
            1 => 1.0,
            _ => next(),
        };
        assert!((0.0..=1.0).contains(&reflectance));
        let mut shares = [[0.0f32; LANES]; 3];
        for channel in shares.iter_mut() {
            for share in channel.iter_mut() {
                *share = next() * 4.0;
            }
        }
        shares[0][0] = 0.0;
        shares[1][1] = f32::MIN_POSITIVE;
        shares[2][2] = f32::MAX;
        let mut p = RaysProjections::new(same_ray([0.0, 0.0, 0.0], [0.0, 0.5, -1.0]), 4);
        p.coef_colors = Points::new(batch(shares[0]), batch(shares[1]), batch(shares[2]));
        p.record_wall(
            batch([4.0; LANES]),
            [false; LANES],
            point(0.0, -1.0, 0.0),
            point(0.5, 0.5, 0.5),
            number(reflectance),
        );
        p.reflect(&unit);
        let after = [
            singles(p.coef_colors.xs),
            singles(p.coef_colors.ys),
            singles(p.coef_colors.zs),
        ];
        for k in 0..3 {
            for i in 0..LANES {
                assert!(after[k][i] >= 0.0 && after[k][i] <= shares[k][i]);
                assert_eq!(after[k][i], shares[k][i] * reflectance);
            }
        }
    }
}

#[test]
fn a_wall_mirrors_a_ray_without_changing_its_length() {
    let unit = Ieee;
    let normals = [
        [1.0f32, 0.0, 0.0],
        [-1.0, 0.0, 0.0],
        [0.0, 1.0, 0.0],
        [0.0, -1.0, 0.0],
        [0.0, 0.0, 1.0],
        [0.0, 0.0, -1.0],
    ];
    let dirs = [
        [3.0f32, -4.0, 12.0],
        [0.5, 0.25, -1.0],
        [-7.0, 2.0, 0.0],
        [1.0, 1.0, 1.0],
        [0.0, -2.5, 6.0],
        [-0.125, 8.0, -3.0],
        [10.0, -10.0, 5.0],
        [0.0, 0.0, -1.0],
    ];
    for normal in normals {
        let mut p = RaysProjections::new(rays_of([[0.0; 3]; LANES], dirs), 3);
        p.record_wall(
            batch([2.0; LANES]),
            [false; LANES],
            point(normal[0], normal[1], normal[2]),
            point(0.5, 0.5, 0.5),
            number(0.5),
        );
        assert!(!p.reflect(&unit));
        for i in 0..LANES {
            let out = [
                single(p.rays.dirs.xs[i]),
                single(p.rays.dirs.ys[i]),
                single(p.rays.dirs.zs[i]),
            ];
            let d = dirs[i];
            let before = d[0] * d[0] + d[1] * d[1] + d[2] * d[2];
            let after = out[0] * out[0] + out[1] * out[1] + out[2] * out[2];
            assert_eq!(after, before);
            let into = d[0] * normal[0] + d[1] * normal[1] + d[2] * normal[2];
            let out_of = out[0] * normal[0] + out[1] * normal[1] + out[2] * normal[2];
            assert_eq!(out_of, -into);
        }
    }
}
