use ray_ten::math::{Points, Rays, Reals, LANES};
use ray_ten::render::camera::Camera;
use ray_ten::render::render::render;
use ray_ten::render::renderer::{shade_bytes, Brightness, Renderer};
use ray_ten::render::scene::{see, FixedScene, Scene};
use ray_ten::render::tracer::trace_rays;
use ray_ten::scalar::{Arithmetic, Real};
use ray_ten::simd;

struct Ieee;

impl Arithmetic for Ieee {
    fn add(&self, a: Real, b: Real) -> Real {
        number(single(a) + single(b))
    }

    fn sub(&self, a: Real, b: Real) -> Real {
        number(single(a) - single(b))
    }

    fn mul(&self, a: Real, b: Real) -> Real {
        number(single(a) * single(b))
    }

    fn div(&self, a: Real, b: Real) -> Real {
        number(single(a) / single(b))
    }

    fn sqrt(&self, a: Real) -> Real {
        number(single(a).sqrt())
    }

    fn powf(&self, a: Real, b: Real) -> Real {
        number(single(a).powf(single(b)))
    }
}

fn number(x: f32) -> Real {
    Real::from_bits(x.to_bits())
}

fn single(x: Real) -> f32 {
    f32::from_bits(x.to_bits())
}

fn batch(values: [f32; LANES]) -> Reals {
    let mut r = [Real::zero(); LANES];
    for i in 0..LANES {
        r[i] = number(values[i]);
    }
    r
}

fn rays_of(origins: [[f32; 3]; LANES], dirs: [[f32; 3]; LANES]) -> Rays {
    let mut o = [[0.0f32; LANES]; 3];
    let mut d = [[0.0f32; LANES]; 3];
    for i in 0..LANES {
        for axis in 0..3 {
            o[axis][i] = origins[i][axis];
            d[axis][i] = dirs[i][axis];
        }
    }
    Rays::new(
        Points::new(batch(o[0]), batch(o[1]), batch(o[2])),
        Points::new(batch(d[0]), batch(d[1]), batch(d[2])),
    )
}

fn plain_colors(colors: Points) -> [[f32; LANES]; 3] {
    let mut out = [[0.0f32; LANES]; 3];
    for i in 0..LANES {
        out[0][i] = single(colors.xs[i]);
        out[1][i] = single(colors.ys[i]);
        out[2][i] = single(colors.zs[i]);
    }
    out
}

fn same_bits(a: [[f32; LANES]; 3], b: [[f32; LANES]; 3]) -> bool {
    (0..3).all(|k| (0..LANES).all(|i| a[k][i].to_bits() == b[k][i].to_bits()))
}

fn rays_into_the_room() -> ([[f32; 3]; LANES], [[f32; 3]; LANES]) {
    let origins = [[0.0, 0.0, -0.5]; LANES];
    let dirs = [
        [-1.0, 0.7, -4.0],
        [-0.9, 0.6, -4.0],
        [-0.5, 0.1, -1.0],
        [-0.25, -0.1, -1.0],
        [0.0, -0.3, -1.0],
        [0.25, 0.0, -1.0],
        [-2.0, -1.0, -5.5],
        [1.0, -0.5, -1.0],
    ];
    (origins, dirs)
}

// The two rooms once more, written out on plain singles.

const MIN_TOI: f32 = 0.001;

struct Met {
    min_toi: [f32; LANES],
    reflectances: [f32; LANES],
    colors: [[f32; LANES]; 3],
    normals: [[f32; LANES]; 3],
}

fn nothing_met() -> Met {
    Met {
        min_toi: [f32::MAX; LANES],
        reflectances: [1.0; LANES],
        colors: [[0.0; LANES]; 3],
        normals: [[0.0; LANES]; 3],
    }
}

/// Tests a sphere whose normals are brought to length one by their own length.  Returns
/// the lanes that the sphere wins.
fn plain_sphere(
    met: &mut Met,
    origins: &[[f32; LANES]; 3],
    dirs: &[[f32; LANES]; 3],
    early_exits: bool,
    center: [f32; 3],
    radius: f32,
    color: [f32; 3],
    reflectance: f32,
) -> [bool; LANES] {
    let mut d = [0.0f32; LANES];
    let mut squares = [0.0f32; LANES];
    let mut deltas = [[0.0f32; LANES]; 3];
    let r_squared = radius * radius;
    for i in 0..LANES {
        for axis in 0..3 {
            deltas[axis][i] = origins[axis][i] - center[axis];
        }
        squares[i] = dirs[0][i] * dirs[0][i] + dirs[1][i] * dirs[1][i] + dirs[2][i] * dirs[2][i];
        d[i] = r_squared * squares[i];
        let a = dirs[0][i] * deltas[1][i] - dirs[1][i] * deltas[0][i];
        d[i] -= a * a;
    }
    if early_exits && !d.iter().any(|&x| x >= 0.0) {
        return [false; LANES];
    }
    for i in 0..LANES {
        let b = dirs[0][i] * deltas[2][i] - dirs[2][i] * deltas[0][i];
        d[i] -= b * b;
    }
    if early_exits && !d.iter().any(|&x| x >= 0.0) {
        return [false; LANES];
    }
    for i in 0..LANES {
        let c = dirs[1][i] * deltas[2][i] - dirs[2][i] * deltas[1][i];
        d[i] -= c * c;
    }
    if !d.iter().any(|&x| x >= 0.0) {
        return [false; LANES];
    }
    let mut won = [false; LANES];
    for i in 0..LANES {
        let counts = d[i] >= 0.0;
        let floored = if d[i] >= 0.0 { d[i] } else { 0.0 };
        let tts = 0.0 - deltas[0][i] * dirs[0][i] - deltas[1][i] * dirs[1][i]
            - deltas[2][i] * dirs[2][i];
        let t1 = ((tts + floored.sqrt()) / squares[i]).max(0.0);
        let t2 = ((tts - floored.sqrt()) / squares[i]).max(0.0);
        let toi = t1.min(t2);
        if counts && toi > MIN_TOI && toi < met.min_toi[i] {
            won[i] = true;
            met.min_toi[i] = toi;
            met.reflectances[i] = reflectance;
            let mut out = [0.0f32; 3];
            for axis in 0..3 {
                met.colors[axis][i] = color[axis];
                out[axis] = origins[axis][i] + dirs[axis][i] * toi - center[axis];
            }
            let length = (out[0] * out[0] + out[1] * out[1] + out[2] * out[2]).sqrt();
            for axis in 0..3 {
                met.normals[axis][i] = out[axis] / length;
            }
        }
    }
    won
}

fn plain_plane(
    met: &mut Met,
    origins: &[[f32; LANES]; 3],
    dirs: &[[f32; LANES]; 3],
    checkered: bool,
    axis: usize,
    offset: f32,
    normal: [f32; 3],
    color: [f32; 3],
    reflectance: f32,
) {
    for i in 0..LANES {
        let toi = (offset - origins[axis][i]) / dirs[axis][i];
        if toi > MIN_TOI && toi < met.min_toi[i] {
            met.min_toi[i] = toi;
            met.reflectances[i] = reflectance;
            let mut cells = 0i32;
            for k in 0..3 {
                met.colors[k][i] = color[k];
                met.normals[k][i] = normal[k];
                let poi = (origins[k][i] + dirs[k][i] * toi + 1000.0) * 1.5;
                cells = cells.wrapping_add(poi as i32);
            }
            if checkered && cells % 2 == 0 {
                met.reflectances[i] = 0.0;
            }
        }
    }
}

fn bounce(met: &Met, origins: &mut [[f32; LANES]; 3], dirs: &mut [[f32; LANES]; 3]) {
    for i in 0..LANES {
        let dot = dirs[0][i] * met.normals[0][i] + dirs[1][i] * met.normals[1][i]
            + dirs[2][i] * met.normals[2][i];
        for k in 0..3 {
            origins[k][i] = origins[k][i] + dirs[k][i] * met.min_toi[i];
            dirs[k][i] = dirs[k][i] - met.normals[k][i] * dot * 2.0;
        }
    }
}

fn transposed(rays: [[f32; 3]; LANES]) -> [[f32; LANES]; 3] {
    let mut out = [[0.0f32; LANES]; 3];
    for i in 0..LANES {
        for k in 0..3 {
            out[k][i] = rays[i][k];
        }
    }
    out
}

/// The room with the checkered walls, the ball and the two dull paddles.
fn plain_fixed_scene(
    ball: [f32; 3],
    origins: [[f32; 3]; LANES],
    dirs: [[f32; 3]; LANES],
    depth: usize,
) -> [[f32; LANES]; 3] {
    let walls = [
        (1usize, 2.0f32, [0.0f32, -1.0, 0.0], [0.8f32, 0.8, 0.1]),
        (1, -2.0, [0.0, 1.0, 0.0], [0.1, 0.8, 0.8]),
        (0, -4.0, [1.0, 0.0, 0.0], [0.8, 0.1, 0.8]),
        (0, 4.0, [-1.0, 0.0, 0.0], [0.8, 0.1, 0.1]),
        (2, -16.0, [0.0, 0.0, 1.0], [0.1, 0.1, 0.8]),
        (2, 0.0, [0.0, 0.0, -1.0], [0.1, 0.8, 0.1]),
    ];
    let mut origins = transposed(origins);
    let mut dirs = transposed(dirs);
    let mut met = nothing_met();
    let mut offsets = [[0.0f32; LANES]; 3];
    let mut coefs = [[1.0f32; LANES]; 3];
    for _ in 0..depth {
        plain_sphere(&mut met, &origins, &dirs, true, ball, 0.5, [0.1, 0.1, 0.1], 0.5);
        for (axis, offset, normal, color) in walls {
            plain_plane(&mut met, &origins, &dirs, true, axis, offset, normal, color, 0.3);
        }
        plain_sphere(&mut met, &origins, &dirs, true, [0.0, 0.0, -19.9], 4.0, [0.0; 3], 0.0);
        plain_sphere(&mut met, &origins, &dirs, true, [0.0, 0.0, 3.9], 4.0, [1.0; 3], 0.0);
        bounce(&met, &mut origins, &mut dirs);
        for i in 0..LANES {
            for k in 0..3 {
                offsets[k][i] += coefs[k][i] * met.colors[k][i];
                coefs[k][i] *= met.reflectances[i];
            }
        }
        met.min_toi = [f32::MAX; LANES];
        if met.reflectances.iter().all(|&r| r == 0.0) {
            break;
        }
    }
    let mut out = [[0.0f32; LANES]; 3];
    for i in 0..LANES {
        for k in 0..3 {
            out[k][i] = offsets[k][i] + coefs[k][i] * 1.0;
        }
    }
    out
}

/// The room with the dull walls and the ball.
fn plain_dull_room(
    ball: [f32; 3],
    origins: [[f32; 3]; LANES],
    dirs: [[f32; 3]; LANES],
    depth: usize,
) -> [[f32; LANES]; 3] {
    let walls = [
        (0usize, 2.0f32, [-1.0f32, 0.0, 0.0], [0.5f32, 0.0, 0.0]),
        (0, -2.0, [1.0, 0.0, 0.0], [0.5, 0.0, 0.5]),
        (1, 2.0, [0.0, -1.0, 0.0], [0.5, 0.5, 0.0]),
        (1, -2.0, [0.0, 1.0, 0.0], [0.0, 0.5, 0.5]),
        (2, -8.0, [0.0, 0.0, 1.0], [0.0, 0.0, 0.5]),
        (2, 0.0, [0.0, 0.0, -1.0], [0.0, 0.5, 0.0]),
    ];
    let mut origins = transposed(origins);
    let mut dirs = transposed(dirs);
    let mut offsets = [[0.0f32; LANES]; 3];
    let mut coefs = [[1.0f32; LANES]; 3];
    for _ in 0..depth {
        let mut met = nothing_met();
        let won = plain_sphere(&mut met, &origins, &dirs, false, ball, 0.5, [0.5; 3], 0.0);
        if !won.iter().all(|&w| w) {
            for (axis, offset, normal, color) in walls {
                plain_plane(&mut met, &origins, &dirs, false, axis, offset, normal, color, 0.0);
            }
        }
        bounce(&met, &mut origins, &mut dirs);
        for i in 0..LANES {
            for k in 0..3 {
                offsets[k][i] += coefs[k][i] * met.colors[k][i];
                coefs[k][i] *= 0.5;
            }
        }
    }
    let mut out = [[0.0f32; LANES]; 3];
    for i in 0..LANES {
        for k in 0..3 {
            out[k][i] = offsets[k][i] + coefs[k][i] * 1.0;
        }
    }
    out
}

/// A scene of one flat color per lane, whatever the rays.
struct Flat {
    color: [f32; 3],
}

impl Scene<Ieee> for Flat {
    fn rays_colors(&self, _unit: &Ieee, _rays: Rays, depth: usize) -> Points {
        let scale = depth as f32;
        Points::splat(
            number(self.color[0] * scale),
            number(self.color[1] * scale),
            number(self.color[2] * scale),
        )
    }
}

#[test]
fn the_fixed_scene_agrees_with_the_plain_one() {
    let unit = Ieee;
    let scene = FixedScene::new();
    let (origins, dirs) = rays_into_the_room();
    for depth in 0..7 {
        let colors = scene.rays_colors(&unit, rays_of(origins, dirs), depth);
        let expected = plain_fixed_scene([-2.0, -1.0, -6.0], origins, dirs, depth);
        assert!(same_bits(plain_colors(colors), expected), "depth {}", depth);
    }
}

#[test]
fn with_no_reflection_allowed_a_fixed_scene_is_white() {
    let unit = Ieee;
    let scene = FixedScene::new();
    let (origins, dirs) = rays_into_the_room();
    let colors = plain_colors(scene.rays_colors(&unit, rays_of(origins, dirs), 0));
    assert_eq!(colors, [[1.0; LANES]; 3]);
}

#[test]
fn the_ball_of_a_fixed_scene_can_be_moved() {
    let unit = Ieee;
    let mut scene = FixedScene::new();
    let (origins, dirs) = rays_into_the_room();
    let before = plain_colors(scene.rays_colors(&unit, rays_of(origins, dirs), 3));
    scene.move_sphere(&unit, number(1.0), number(0.5), number(2.0));
    let after = plain_colors(scene.rays_colors(&unit, rays_of(origins, dirs), 3));
    let expected = plain_fixed_scene([-2.0 + 1.0, -1.0 + 0.5, -6.0 + 2.0], origins, dirs, 3);
    assert!(same_bits(after, expected));
    assert!(!same_bits(after, before));
}

#[test]
fn the_paddles_of_a_fixed_scene_reflect_nothing() {
    let unit = Ieee;
    let scene = FixedScene::new();
    // Straight back at the near paddle, which is white, and straight on at the far one,
    // which is black.
    let mut dirs = [[0.0f32, 0.0, 1.0]; LANES];
    for i in 0..LANES {
        if i % 2 == 1 {
            dirs[i] = [0.0, 0.0, -1.0];
        }
    }
    let origins = [[0.0f32, 0.0, -8.0]; LANES];
    let colors = plain_colors(scene.rays_colors(&unit, rays_of(origins, dirs), 4));
    for i in 0..LANES {
        let expected = if i % 2 == 0 { 1.0 } else { 0.0 };
        assert_eq!(colors[0][i], expected);
        assert_eq!(colors[1][i], expected);
        assert_eq!(colors[2][i], expected);
    }
}

#[test]
fn the_dull_room_agrees_with_the_plain_one() {
    let unit = Ieee;
    let scene = simd::scene::FixedScene::new();
    let (origins, dirs) = rays_into_the_room();
    for depth in 0..7 {
        let colors = scene.rays_colors(&unit, rays_of(origins, dirs), depth);
        let expected = plain_dull_room([-1.0, 0.7, -4.0], origins, dirs, depth);
        assert!(same_bits(plain_colors(colors), expected), "depth {}", depth);
    }
}

#[test]
fn in_the_dull_room_every_meeting_halves_what_counts() {
    let unit = Ieee;
    let scene = simd::scene::FixedScene::new();
    // Straight down from the middle of the room: the floor, then the ceiling, and so on.
    let rays = rays_of([[1.0, 0.0, -6.0]; LANES], [[0.0, -1.0, 0.0]; LANES]);
    let floor = [0.0f32, 0.5, 0.5];
    let ceiling = [0.5f32, 0.5, 0.0];
    for depth in 0..5usize {
        let colors = plain_colors(scene.rays_colors(&unit, rays, depth));
        let mut expected = [0.0f32; 3];
        let mut coef = 1.0f32;
        for bounce in 0..depth {
            let met = if bounce % 2 == 0 { floor } else { ceiling };
            for k in 0..3 {
                expected[k] += coef * met[k];
            }
            coef *= 0.5;
        }
        for k in 0..3 {
            assert_eq!(colors[k], [expected[k] + coef; LANES], "depth {}", depth);
        }
    }
}

#[test]
fn a_batch_that_only_sees_the_ball_is_not_tested_against_the_walls() {
    let unit = Ieee;
    let mut nearest = simd::scene::Nearest::new();
    let rays = rays_of([[0.0, 0.0, 0.0]; LANES], [[-1.0, 0.7, -4.0]; LANES]);
    let center = ray_ten::math::Point::new(number(-1.0), number(0.7), number(-4.0));
    let won = simd::scene::intersect_sphere(
        &unit,
        &center,
        &mut nearest,
        &rays.origins,
        &rays.dirs,
    );
    assert_eq!(won, [true; LANES]);
    let distance = (1.0f32 + 0.49 + 16.0).sqrt();
    for i in 0..LANES {
        assert!((single(nearest.min_toi[i]) * distance - (distance - 0.5)).abs() < 1.0e-5);
        assert_eq!(single(nearest.obstacle_colors.xs[i]), 0.5);
    }
    let away = rays_of([[0.0, 0.0, 0.0]; LANES], [[1.0, 0.0, 0.0]; LANES]);
    let mut fresh = simd::scene::Nearest::new();
    let won = simd::scene::intersect_sphere(&unit, &center, &mut fresh, &away.origins, &away.dirs);
    assert_eq!(won, [false; LANES]);
    assert_eq!(single(fresh.min_toi[0]), f32::MAX);
    simd::scene::intersect_plane(
        &unit,
        ray_ten::scene::Plane::Right,
        &mut fresh,
        &away.origins.xs,
        &away.dirs.xs,
    );
    for i in 0..LANES {
        assert_eq!(single(fresh.min_toi[i]), 2.0);
        assert_eq!(single(fresh.obstacle_colors.xs[i]), 0.5);
        assert_eq!(single(fresh.obstacle_colors.ys[i]), 0.0);
        assert_eq!(single(fresh.obstacle_normals.xs[i]), -1.0);
    }
}

#[test]
fn the_room_of_the_game_is_a_scene_like_any_other() {
    let unit = Ieee;
    let scene = ray_ten::scene::Scene::new();
    let (origins, dirs) = rays_into_the_room();
    let rays = rays_of(origins, dirs);
    for depth in 1..5 {
        let seen = plain_colors(see(&unit, &scene, rays, depth));
        let traced = plain_colors(trace_rays(&unit, &scene, rays, depth));
        assert!(same_bits(seen, traced));
    }
    let white = plain_colors(see(&unit, &scene, rays, 0));
    assert_eq!(white, [[1.0; LANES]; 3]);
}

#[test]
fn any_scene_can_be_rendered() {
    let unit = Ieee;
    let scene = Flat { color: [0.04, 0.25, 4.0] };
    let camera = Camera::new(&unit, number(2.0), number(2.0));
    let renderer = Renderer::new(&unit, (16, 2), 3, 1);
    let mut buffer = vec![[9u8, 9, 9, 7]; 32];
    renderer.render(&unit, &scene, &camera, number(1.0), &mut buffer);
    let expected = [
        ((0.04f32 + 0.04 + 0.04) / 3.0).sqrt().clamp(0.0, 1.0) * 255.0,
        ((0.25f32 + 0.25 + 0.25) / 3.0).sqrt().clamp(0.0, 1.0) * 255.0,
        255.0,
    ];
    for pixel in buffer.iter() {
        assert_eq!(*pixel, [expected[0] as u8, expected[1] as u8, expected[2] as u8, 7]);
    }
    assert_eq!(buffer[0], [51, 127, 255, 7]);
}

#[test]
fn rendering_with_given_deltas() {
    let unit = Ieee;
    let scene = ray_ten::scene::Scene::new();
    let camera = Camera::new(&unit, number(2.0), number(2.0));
    let middle = vec![batch([0.5; LANES])];
    let mut given = vec![[0u8; 4]; 16 * 8];
    render(&unit, &scene, &camera, &mut given, (16, 8), middle.clone(), middle, 5);
    let renderer = Renderer::new(&unit, (16, 8), 1, 5);
    let mut laid_out = vec![[0u8; 4]; 16 * 8];
    renderer.render(&unit, &scene, &camera, number(1.0), &mut laid_out);
    assert_eq!(given, laid_out);

    let spread = vec![
        batch([0.1, 0.9, 0.3, 0.7, 0.5, 0.2, 0.8, 0.4]),
        batch([0.6, 0.2, 0.8, 0.1, 0.9, 0.3, 0.5, 0.7]),
    ];
    let mut two = vec![[0u8; 4]; 16 * 8];
    render(&unit, &scene, &camera, &mut two, (16, 8), spread.clone(), spread, 5);
    assert!(two.iter().any(|pixel| pixel[0] > 0 || pixel[1] > 0 || pixel[2] > 0));
    assert!(two.iter().all(|pixel| pixel[3] == 0));
}

#[test]
fn rendering_with_no_samples_leaves_the_image_black() {
    let unit = Ieee;
    let scene = ray_ten::scene::Scene::new();
    let camera = Camera::new(&unit, number(2.0), number(2.0));
    let mut buffer = vec![[9u8, 9, 9, 9]; 16 * 2];
    render(&unit, &scene, &camera, &mut buffer, (16, 2), Vec::new(), Vec::new(), 5);
    assert!(buffer.iter().all(|pixel| *pixel == [0, 0, 0, 9]));
}

#[test]
fn rendering_row_by_row_leaves_what_is_left_over_of_each_row() {
    let unit = Ieee;
    let scene = simd::scene::FixedScene::new();
    let camera = simd::camera::Camera::new(&unit, number(19.0 / 6.0));
    let deltas = vec![batch([0.5; LANES])];
    let mut buffer = vec![[1u8, 2, 3]; 19 * 6];
    simd::render::render(&unit, &scene, &camera, &mut buffer, (19, 6), &deltas, &deltas, 4);
    for y in 0..6usize {
        for x in 0..2usize {
            let mut origins = [[0.0f32; 3]; LANES];
            let mut dirs = [[0.0f32; 3]; LANES];
            let view_height = 2.0f32 / (19.0 / 6.0);
            for i in 0..LANES {
                let x_offset = ((x * LANES + i) as f32 + 0.5) / 19.0;
                let y_offset = (y as f32 + 0.5) / 6.0;
                origins[i] = [0.0; 3];
                dirs[i] = [
                    -2.0f32 / 2.0 + 2.0 * x_offset + 0.0 * y_offset,
                    view_height / 2.0 + 0.0 * x_offset + -view_height * y_offset,
                    -1.0 + 0.0 * x_offset + 0.0 * y_offset,
                ];
            }
            let colors = plain_dull_room([-1.0, 0.7, -4.0], origins, dirs, 4);
            for i in 0..LANES {
                let mut expected = [0u8; 3];
                for k in 0..3 {
                    expected[k] = ((colors[k][i] / 1.0).sqrt().clamp(0.0, 1.0) * 255.0) as u8;
                }
                assert_eq!(buffer[y * 19 + x * LANES + i], expected, "pixel {} {}", x * 8 + i, y);
            }
        }
        for c in 16..19 {
            assert_eq!(buffer[y * 19 + c], [1, 2, 3]);
        }
    }
}

#[test]
fn a_renderer_may_allow_no_reflection() {
    let unit = Ieee;
    let renderer = Renderer::new(&unit, (16, 2), 1, 0);
    assert_eq!(renderer.dimensions(), (16, 2));
    assert_eq!(renderer.samples_count(), 1);
    assert_eq!(renderer.depth(), 0);
    let scene = ray_ten::scene::Scene::new();
    let camera = Camera::new(&unit, number(2.0), number(2.0));
    let mut buffer = vec![[0u8, 0, 0, 7]; 16 * 2];
    renderer.render(&unit, &scene, &camera, number(1.0), &mut buffer);
    // With no reflection allowed nothing is met: every pixel is white.
    assert!(buffer.iter().all(|pixel| *pixel == [255, 255, 255, 7]));
    let mut dimmed = vec![[0u8, 0, 0, 7]; 16 * 2];
    renderer.render(&unit, &scene, &camera, number(0.5), &mut dimmed);
    assert!(dimmed.iter().all(|pixel| *pixel == [127, 127, 127, 7]));
}

/// The machine's arithmetic, with every product counted.
struct Counting {
    products: std::cell::Cell<usize>,
}

impl Arithmetic for Counting {
    fn add(&self, a: Real, b: Real) -> Real {
        Ieee.add(a, b)
    }

    fn sub(&self, a: Real, b: Real) -> Real {
        Ieee.sub(a, b)
    }

    fn mul(&self, a: Real, b: Real) -> Real {
        self.products.set(self.products.get() + 1);
        Ieee.mul(a, b)
    }

    fn div(&self, a: Real, b: Real) -> Real {
        Ieee.div(a, b)
    }

    fn sqrt(&self, a: Real) -> Real {
        Ieee.sqrt(a)
    }

    fn powf(&self, a: Real, b: Real) -> Real {
        Ieee.powf(a, b)
    }
}

#[test]
fn painting_in_full_takes_one_product_and_dimming_two() {
    let shades = Points::new(batch([0.25; LANES]), batch([0.5; LANES]), batch([1.0; LANES]));
    let unit = Counting { products: std::cell::Cell::new(0) };
    let full = shade_bytes(&unit, shades, Brightness::Full);
    assert_eq!(unit.products.get(), 3 * LANES);
    assert_eq!(full, [[63, 127, 255]; LANES]);
    unit.products.set(0);
    let by_one = shade_bytes(&unit, shades, Brightness::Dimmed(number(1.0)));
    assert_eq!(unit.products.get(), 6 * LANES);
    assert_eq!(by_one, [[63, 127, 255]; LANES]);
    unit.products.set(0);
    let by_a_third = shade_bytes(&unit, shades, Brightness::Dimmed(number(0.3)));
    assert_eq!(unit.products.get(), 6 * LANES);
    assert_eq!(by_a_third, [[19, 38, 76]; LANES]);
}

#[test]
fn an_image_rendered_in_one_go_is_painted_in_full() {
    let scene = ray_ten::scene::Scene::new();
    let camera = Camera::new(&Ieee, number(2.0), number(2.0));
    let middle = vec![batch([0.5; LANES])];

    let counted = Counting { products: std::cell::Cell::new(0) };
    let mut in_full = vec![[0u8; 4]; 16 * 2];
    render(&counted, &scene, &camera, &mut in_full, (16, 2), middle.clone(), middle.clone(), 3);
    let products_in_full = counted.products.get();

    let counted = Counting { products: std::cell::Cell::new(0) };
    let renderer = Renderer::with_deltas(&counted, (16, 2), middle.clone(), middle, 3);
    let mut by_one = vec![[0u8; 4]; 16 * 2];
    renderer.render(&counted, &scene, &camera, number(1.0), &mut by_one);
    let products_by_one = counted.products.get();

    // Three channels of 32 pixels: one product each less when nothing dims.
    assert_eq!(products_by_one, products_in_full + 3 * 32);
    assert_eq!(in_full, by_one);
}

#[test]
fn a_dimmed_byte_is_no_brighter_than_the_brightest_dimmed() {
    let unit = Ieee;
    let mut seed: u32 = 0x1234_5678;
    let mut next = move || {
        seed = seed.wrapping_mul(1_664_525).wrapping_add(1_013_904_223);
        (seed >> 8) as f32 / (1u32 << 24) as f32
    };
    for round in 0..2000 {
        let coef = match round {
            0 => 0.0,
            1 => 1.0,
            2 => 0.3,
            _ => next() * 1.5,
        };
        let mut channels = [[0.0f32; LANES]; 3];
        for channel in channels.iter_mut() {
            for shade in channel.iter_mut() {
                *shade = next();
            }
        }
        channels[0][0] = 0.0;
        channels[1][1] = 1.0;
        let shades =
            Points::new(batch(channels[0]), batch(channels[1]), batch(channels[2]));
        let bytes = shade_bytes(&unit, shades, Brightness::Dimmed(number(coef)));
        let bound = (255.0 * coef) as u8;
        for i in 0..LANES {
            for k in 0..3 {
                assert!(bytes[i][k] <= bound);
                assert_eq!(bytes[i][k], (channels[k][i] * 255.0 * coef) as u8);
            }
        }
    }
}
