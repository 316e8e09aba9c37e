use ray_ten::ai::control_far_paddle;
use ray_ten::render::camera::Camera;
use ray_ten::math::{Axis, Point, LANES};
use ray_ten::scalar::{Arithmetic, Real};
use ray_ten::scene::{Obstacle, Plane, Scene, Sphere, PLANES_COUNT, SPHERES_COUNT};

struct Ieee;

impl Arithmetic for Ieee {
    fn add(&self, a: Real, b: Real) -> Real {
        number(single(a) + single(b))
    }

    fn sub(&self, a: Real, b: Real) -> Real {
        number(single(a) - single(b))
    }

    fn mul(&self, a: Real, b: Real) -> Real {
        number(single(a) * single(b))
    }

    fn div(&self, a: Real, b: Real) -> Real {
        number(single(a) / single(b))
    }

    fn sqrt(&self, a: Real) -> Real {
        number(single(a).sqrt())
    }

    fn powf(&self, a: Real, b: Real) -> Real {
        number(single(a).powf(single(b)))
    }
}

fn number(x: f32) -> Real {
    Real::from_bits(x.to_bits())
}

fn single(x: Real) -> f32 {
    f32::from_bits(x.to_bits())
}

fn point(x: f32, y: f32, z: f32) -> Point {
    Point::new(number(x), number(y), number(z))
}

fn plain(p: Point) -> (f32, f32, f32) {
    (single(p.x()), single(p.y()), single(p.z()))
}

fn axis_name(axis: Axis) -> char {
    match axis {
        Axis::XS => 'x',
        Axis::YS => 'y',
        Axis::ZS => 'z',
    }
}

#[test]
fn the_walls_stand_where_the_room_ends() {
    let scene = Scene::new();
    let expected = [
        (Plane::Top, 2.0, 'y', (0.0, -1.0, 0.0), (0.8, 0.8, 0.1)),
        (Plane::Bottom, -2.0, 'y', (0.0, 1.0, 0.0), (0.1, 0.8, 0.8)),
        (Plane::Left, -4.0, 'x', (1.0, 0.0, 0.0), (0.8, 0.1, 0.8)),
        (Plane::Right, 4.0, 'x', (-1.0, 0.0, 0.0), (0.8, 0.1, 0.1)),
        (Plane::Far, -16.0, 'z', (0.0, 0.0, 1.0), (0.1, 0.1, 0.8)),
        (Plane::Near, 0.0, 'z', (0.0, 0.0, -1.0), (0.1, 0.8, 0.1)),
    ];
    for (plane, offset, axis, normal, color) in expected {
        assert_eq!(single(scene.plane_offset(plane)), offset);
        assert_eq!(axis_name(scene.plane_alignment_axis(plane)), axis);
        assert_eq!(plain(scene.plane_normal(plane)), normal);
        assert_eq!(plain(scene.obstacle_color(Obstacle::Plane(plane))), color);
        assert_eq!(single(scene.obstacle_reflectance(Obstacle::Plane(plane))), 0.3);
    }
}

#[test]
fn the_spheres_are_the_ball_and_the_paddles() {
    let scene = Scene::new();
    let expected = [
        (Sphere::Ball, 0.5, (0.1, 0.1, 0.1), 0.5, (-2.0, -1.0, -6.0)),
        (Sphere::NearPaddle, 4.0, (1.0, 1.0, 1.0), 1.0, (0.0, 0.0, 3.87)),
        (Sphere::FarPaddle, 4.0, (0.0, 0.0, 0.0), 1.0, (0.0, 0.0, -19.87)),
    ];
    for (sphere, radius, color, reflectance, position) in expected {
        assert_eq!(single(scene.sphere_radius(sphere)), radius);
        assert_eq!(plain(scene.obstacle_color(Obstacle::Sphere(sphere))), color);
        assert_eq!(single(scene.obstacle_reflectance(Obstacle::Sphere(sphere))), reflectance);
        assert_eq!(plain(scene.sphere_pos(sphere)), position);
    }
}

#[test]
fn obstacles_are_listed_in_the_order_of_testing() {
    let scene = Scene::new();
    assert_eq!(PLANES_COUNT, 6);
    assert_eq!(SPHERES_COUNT, 3);
    assert_eq!(
        scene.planes(),
        [Plane::Top, Plane::Bottom, Plane::Left, Plane::Right, Plane::Far, Plane::Near]
    );
    assert_eq!(scene.spheres(), [Sphere::Ball, Sphere::NearPaddle, Sphere::FarPaddle]);
    assert_ne!(Obstacle::Plane(Plane::Top), Obstacle::Sphere(Sphere::Ball));
}

#[test]
fn every_reflectance_and_color_lies_from_zero_to_one() {
    let scene = Scene::new();
    let mut obstacles = Vec::new();
    for plane in scene.planes() {
        obstacles.push(Obstacle::Plane(plane));
    }
    for sphere in scene.spheres() {
        obstacles.push(Obstacle::Sphere(sphere));
    }
    for obstacle in obstacles {
        let reflectance = single(scene.obstacle_reflectance(obstacle));
        assert!((0.0..=1.0).contains(&reflectance));
        let (r, g, b) = plain(scene.obstacle_color(obstacle));
        assert!((0.0..=1.0).contains(&r));
        assert!((0.0..=1.0).contains(&g));
        assert!((0.0..=1.0).contains(&b));
    }
}

#[test]
fn moving_a_sphere_moves_that_sphere_only() {
    for moved in [Sphere::Ball, Sphere::NearPaddle, Sphere::FarPaddle] {
        let mut scene = Scene::new();
        let start = Scene::new();
        scene.move_sphere_to(moved, point(9.0, -8.0, 7.5));
        for sphere in scene.spheres() {
            if sphere == moved {
                assert_eq!(plain(scene.sphere_pos(sphere)), (9.0, -8.0, 7.5));
            } else {
                assert_eq!(plain(scene.sphere_pos(sphere)), plain(start.sphere_pos(sphere)));
            }
            assert_eq!(
                single(scene.sphere_radius(sphere)),
                single(start.sphere_radius(sphere))
            );
        }
    }
}

#[test]
fn a_sphere_may_be_moved_anywhere() {
    let mut scene = Scene::new();
    scene.move_sphere_to(Sphere::Ball, point(f32::INFINITY, -1.0e38, f32::NAN));
    let ball = scene.sphere_pos(Sphere::Ball);
    assert_eq!(single(ball.x()), f32::INFINITY);
    assert_eq!(single(ball.y()), -1.0e38);
    assert!(single(ball.z()).is_nan());
}

#[test]
fn the_camera_starts_beside_the_near_wall() {
    let unit = Ieee;
    let camera = Camera::new(&unit, number(16.0 / 9.0), number(2.0));
    let rays = camera.pixel_rays(&unit, [number(0.0); LANES], [number(0.0); LANES]);
    for i in 0..LANES {
        assert_eq!(single(rays.origins.xs[i]), 1.0);
        assert_eq!(single(rays.origins.ys[i]), -1.0);
        assert_eq!(single(rays.origins.zs[i]), 0.0);
        assert_eq!(single(rays.dirs.xs[i]), -1.0);
        assert_eq!(single(rays.dirs.ys[i]), (2.0f32 / (16.0 / 9.0)) / 2.0);
        assert_eq!(single(rays.dirs.zs[i]), -1.0);
    }
}

#[test]
fn pixel_rays_span_the_view_port() {
    let unit = Ieee;
    let camera = Camera::new(&unit, number(2.0), number(2.0));
    let mut xs = [number(0.0); LANES];
    let mut ys = [number(0.0); LANES];
    for i in 0..LANES {
        xs[i] = number(i as f32 / 8.0);
        ys[i] = number(1.0 - i as f32 / 8.0);
    }
    let rays = camera.pixel_rays(&unit, xs, ys);
    for i in 0..LANES {
        let x = i as f32 / 8.0;
        let y = 1.0 - i as f32 / 8.0;
        assert_eq!(single(rays.dirs.xs[i]), -1.0 + 2.0 * x + 0.0 * y);
        assert_eq!(single(rays.dirs.ys[i]), 0.5 + 0.0 * x + -1.0 * y);
        assert_eq!(single(rays.dirs.zs[i]), -1.0 + 0.0 * x + 0.0 * y);
    }
}

#[test]
fn the_camera_moves_without_turning() {
    let unit = Ieee;
    let mut camera = Camera::new(&unit, number(2.0), number(2.0));
    let before = camera.pixel_rays(&unit, [number(0.25); LANES], [number(0.75); LANES]);
    camera.move_origin_to(number(-3.0), number(0.5));
    let moved = camera.pixel_rays(&unit, [number(0.25); LANES], [number(0.75); LANES]);
    camera.move_origin(&unit, number(1.0), number(-0.25));
    let shifted = camera.pixel_rays(&unit, [number(0.25); LANES], [number(0.75); LANES]);
    for i in 0..LANES {
        assert_eq!(single(moved.origins.xs[i]), -3.0);
        assert_eq!(single(moved.origins.ys[i]), 0.5);
        assert_eq!(single(moved.origins.zs[i]), 0.0);
        assert_eq!(single(shifted.origins.xs[i]), -2.0);
        assert_eq!(single(shifted.origins.ys[i]), 0.25);
        assert_eq!(single(shifted.origins.zs[i]), 0.0);
        assert_eq!(moved.dirs.xs[i].to_bits(), before.dirs.xs[i].to_bits());
        assert_eq!(moved.dirs.ys[i].to_bits(), before.dirs.ys[i].to_bits());
        assert_eq!(shifted.dirs.zs[i].to_bits(), before.dirs.zs[i].to_bits());
    }
}

#[test]
fn the_far_paddle_goes_after_the_ball() {
    let unit = Ieee;
    let mut scene = Scene::new();
    scene.move_sphere_to(Sphere::FarPaddle, point(0.0, 0.0, -19.87));
    let cases = [
        ((0.0, 0.0), (false, false, false, false)),
        ((0.1, 0.1), (false, false, false, false)),
        ((0.11, 0.0), (false, false, false, true)),
        ((-0.11, 0.0), (false, false, true, false)),
        ((0.0, 0.11), (true, false, false, false)),
        ((0.0, -0.11), (false, true, false, false)),
        ((2.0, -1.0), (false, true, false, true)),
        ((-2.0, 1.0), (true, false, true, false)),
    ];
    for ((x, y), (up, down, left, right)) in cases {
        scene.move_sphere_to(Sphere::Ball, point(x, y, -6.0));
        let directions = control_far_paddle(&unit, &scene);
        assert_eq!(
            (directions.up, directions.down, directions.left, directions.right),
            (up, down, left, right),
            "ball at ({}, {})",
            x,
            y
        );
    }
}
