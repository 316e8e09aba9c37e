use ray_ten::camera::Camera;
use ray_ten::color::Color;
use ray_ten::material::{ColorDiffuse, Diffuse, Material, Metal, RayInteractionResult, SolidColor};
use ray_ten::math::{Point, Ray};
use ray_ten::render::{render, RayScene};
use ray_ten::scalar::{Arithmetic, Real};

struct Ieee;

impl Arithmetic for Ieee {
    fn add(&self, a: Real, b: Real) -> Real {
        number(single(a) + single(b))
    }

    fn sub(&self, a: Real, b: Real) -> Real {
        number(single(a) - single(b))
    }

    fn mul(&self, a: Real, b: Real) -> Real {
        number(single(a) * single(b))
    }

    fn div(&self, a: Real, b: Real) -> Real {
        number(single(a) / single(b))
    }

    fn sqrt(&self, a: Real) -> Real {
        number(single(a).sqrt())
    }

    fn powf(&self, a: Real, b: Real) -> Real {
        number(single(a).powf(single(b)))
    }
}

fn number(x: f32) -> Real {
    Real::from_bits(x.to_bits())
}

fn single(x: Real) -> f32 {
    f32::from_bits(x.to_bits())
}

fn color(r: f32, g: f32, b: f32) -> Color {
    Color::new(number(r), number(g), number(b))
}

fn point(x: f32, y: f32, z: f32) -> Point {
    Point::new(number(x), number(y), number(z))
}

fn plain(p: Point) -> (f32, f32, f32) {
    (single(p.x()), single(p.y()), single(p.z()))
}

/// The red of a color and its three bytes.
fn channels(unit: &Ieee, c: Color) -> (f32, [u8; 3]) {
    (single(c.r()), c.into_rgb(unit))
}

fn reflected(result: RayInteractionResult) -> (Ray, Color, Color) {
    match result {
        RayInteractionResult::Reflected { ray, coef, offset } => (ray, coef, offset),
        RayInteractionResult::Colored(_) => panic!("the ray ended"),
    }
}

#[test]
fn a_color_becomes_three_bytes() {
    let unit = Ieee;
    assert_eq!(color(0.0, 0.5, 1.0).into_rgb(&unit), [0, 127, 255]);
    assert_eq!(color(-1.0, 0.2, 7.0).into_rgb(&unit), [0, 51, 255]);
    assert_eq!(color(f32::NAN, 1.0e-3, 0.999).into_rgb(&unit), [0, 0, 254]);
}

#[test]
fn normalize_brings_a_color_into_the_unit_range() {
    let unit = Ieee;
    let c = color(-0.5, 0.25, 1.5).normalize();
    assert_eq!(single(c.r()), 0.0);
    assert_eq!(c.into_rgb(&unit), [0, 63, 255]);
}

#[test]
fn a_color_gives_its_red_green_and_blue() {
    let c = color(0.1, 0.2, 0.3);
    assert_eq!(single(c.r()), 0.1);
    assert_eq!(single(c.g()), 0.2);
    assert_eq!(single(c.b()), 0.3);
}

#[test]
fn colors_are_added_scaled_and_tinted() {
    let unit = Ieee;
    let a = color(0.25, 0.5, 0.75);
    let b = color(0.5, 0.5, 0.25);
    assert_eq!(channels(&unit, a.add(&unit, b)), (0.75, [191, 255, 255]));
    assert_eq!(channels(&unit, a.mul(&unit, number(0.5))), (0.125, [31, 63, 95]));
    assert_eq!(channels(&unit, a.tint(&unit, b)), (0.125, [31, 63, 47]));
    assert_eq!(channels(&unit, a.sqrt(&unit)), (0.5, [127, 180, 220]));
    let mut c = a;
    c.add_assign(&unit, b);
    assert_eq!(channels(&unit, c), (0.75, [191, 255, 255]));
    let mut c = a;
    c.mul_assign(&unit, number(0.5));
    assert_eq!(channels(&unit, c), (0.125, [31, 63, 95]));
    let mut c = a;
    c.tint_assign(&unit, b);
    assert_eq!(channels(&unit, c), (0.125, [31, 63, 47]));
}

#[test]
fn colors_are_blended() {
    let unit = Ieee;
    let a = color(0.25, 1.0, 2.0);
    let b = color(0.75, 0.0, 2.0);
    assert_eq!(channels(&unit, a.blend(&unit, b)), (0.5, [127, 127, 255]));
    assert_eq!(
        channels(&unit, a.blend_with_coef(&unit, b, number(0.25))),
        (0.25 * 0.25 + 0.75 * 0.75, [159, 63, 255])
    );
    assert_eq!(channels(&unit, a.blend_with_coef(&unit, b, number(1.0))).0, 0.25);
    assert_eq!(channels(&unit, a.blend_with_coef(&unit, b, number(0.0))).0, 0.75);
}

#[test]
fn a_solid_color_ends_the_ray() {
    let unit = Ieee;
    let material = SolidColor::new(color(0.1, 0.2, 0.3));
    let ray = Ray { origin: point(0.0, 0.0, 0.0), dir: point(0.0, 0.0, -1.0) };
    let result = material.interact_with_ray(
        &unit,
        &ray,
        point(0.0, 0.0, -2.0),
        point(0.0, 0.0, 1.0),
        point(1.0, 0.0, 0.0),
    );
    match result {
        RayInteractionResult::Colored(c) => {
            assert_eq!(single(c.r()), 0.1);
            assert_eq!(c.into_rgb(&unit), [25, 51, 76]);
        }
        RayInteractionResult::Reflected { .. } => panic!("the ray went on"),
    }
}

#[test]
fn a_dull_surface_scatters_around_its_normal() {
    let unit = Ieee;
    let ray = Ray { origin: point(0.0, 0.0, 0.0), dir: point(0.0, 0.0, -1.0) };
    let poi = point(0.0, 0.0, -2.0);
    let normal = point(0.0, 0.0, 1.0);
    let scatter = point(0.6, 0.0, 0.8);
    let (next, coef, offset) =
        reflected(Diffuse::new(number(0.5)).interact_with_ray(&unit, &ray, poi, normal, scatter));
    assert_eq!(plain(next.origin), (0.0, 0.0, -2.0));
    assert_eq!(plain(next.dir), (0.6, 0.0, 1.8));
    assert_eq!(channels(&unit, coef), (0.5, [127, 127, 127]));
    assert_eq!(channels(&unit, offset), (0.0, [0, 0, 0]));

    let tinted = ColorDiffuse::new(color(1.0, 0.5, 0.0), number(0.25));
    let (next, coef, offset) = reflected(tinted.interact_with_ray(&unit, &ray, poi, normal, scatter));
    assert_eq!(plain(next.dir), (0.6, 0.0, 1.8));
    assert_eq!(channels(&unit, coef), (0.75, [191, 191, 191]));
    assert_eq!(channels(&unit, offset), (0.25, [63, 31, 0]));
}

#[test]
fn metal_mirrors_and_blurs() {
    let unit = Ieee;
    let ray = Ray { origin: point(0.0, 0.0, 0.0), dir: point(1.0, 0.0, -1.0) };
    let poi = point(2.0, 0.0, -2.0);
    let normal = point(0.0, 0.0, 3.0);
    let scatter = point(0.0, 1.0, 0.0);
    let mirror = Metal::new(color(0.9, 0.8, 0.7), number(0.0));
    let (next, coef, offset) = reflected(mirror.interact_with_ray(&unit, &ray, poi, normal, scatter));
    assert_eq!(plain(next.origin), (2.0, 0.0, -2.0));
    assert_eq!(plain(next.dir), (1.0, 0.0, 1.0));
    assert_eq!(single(coef.r()), 0.9);
    assert_eq!(channels(&unit, offset), (0.0, [0, 0, 0]));
    let blurred = Metal::new(color(0.9, 0.8, 0.7), number(0.5));
    let (next, _, _) = reflected(blurred.interact_with_ray(&unit, &ray, poi, normal, scatter));
    assert_eq!(plain(next.dir), (1.0, 0.5, 1.0));
}

#[test]
fn the_camera_casts_single_rays() {
    let unit = Ieee;
    let camera = Camera::new(&unit, number(2.0));
    let ray = camera.pixel_ray(&unit, number(0.25), number(0.75));
    assert_eq!(plain(ray.origin), (1.0, 0.3, 0.0));
    assert_eq!(plain(ray.dir), (-1.0 + 2.0 * 0.25, 0.5 + -1.0 * 0.75, -1.0));
}

/// A scene whose color says where the ray went.
struct Compass;

impl RayScene<Ieee> for Compass {
    fn ray_color(&self, _unit: &Ieee, ray: Ray, max_depth: u32) -> Color {
        Color::new(
            number(single(ray.dir.x()) + 1.0),
            number(single(ray.dir.y()) + 0.5),
            number(max_depth as f32 / 10.0),
        )
    }
}

#[test]
fn rendering_ray_by_ray() {
    let unit = Ieee;
    let camera = Camera::new(&unit, number(2.0));
    let x_deltas = vec![number(0.25), number(0.75)];
    let y_deltas = vec![number(0.5), number(0.5)];
    let mut buffer = vec![[7u8; 3]; 4 * 2];
    render(&unit, &Compass, &camera, &mut buffer, (4, 2), &x_deltas, &y_deltas, 5);
    for n in 0..8usize {
        let x = (n % 4) as f32;
        let y = (n / 4) as f32;
        let mut total = [0.0f32; 3];
        for sample in 0..2 {
            let x_offset = (x + [0.25f32, 0.75][sample]) / 4.0;
            let y_offset = (y + 0.5) / 2.0;
            total[0] += (-1.0 + 2.0 * x_offset + 0.0 * y_offset) + 1.0;
            total[1] += (0.5 + 0.0 * x_offset + -1.0 * y_offset) + 0.5;
            total[2] += 0.5;
        }
        let mut expected = [0u8; 3];
        for k in 0..3 {
            let shade = ((1.0f32 / 2.0) * total[k]).sqrt().clamp(0.0, 1.0);
            expected[k] = (shade * 255.0).clamp(0.0, 255.0) as u8;
        }
        assert_eq!(buffer[n], expected, "pixel {}", n);
    }
    assert_eq!(buffer[0][2], ((0.5f32).sqrt() * 255.0) as u8);
}
