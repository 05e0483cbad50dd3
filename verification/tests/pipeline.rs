//! Camera, shading and full-frame rendering on concrete scenes.

use raytracer::get_color;
use raytracer::render;
use raytracer::Color;
use raytracer::Element;
use raytracer::Light;
use raytracer::Point;
use raytracer::Ray;
use raytracer::Scene;
use raytracer::Sphere;
use raytracer::Vector3;
use raytracer::SCALE;

fn sphere_scene(cx: i64, cz: i64, radius: i64, color: Color, width: u32, height: u32) -> Scene {
    Scene {
        width,
        height,
        // 90 degree field of view: tan(45 degrees) == 1.0
        fov_adjustment: SCALE,
        element: Element::Sphere(Sphere {
            center: Point { x: cx, y: 0, z: cz },
            radius,
            color,
            albedo: 11796,
        }),
        light: Light {
            direction: Vector3 { x: -2 * SCALE, y: -4 * SCALE, z: -3 * SCALE },
            color: Color { r: SCALE, g: SCALE, b: SCALE },
            intensity: 50 * SCALE,
        },
    }
}

fn red() -> Color {
    Color { r: SCALE, g: 0, b: 0 }
}

fn green() -> Color {
    Color { r: 0, g: SCALE, b: 0 }
}

fn pixel(out: &[u8], w: u32, x: u32, y: u32) -> (u8, u8, u8, u8) {
    let b = (4 * (y * w + x)) as usize;
    (out[b], out[b + 1], out[b + 2], out[b + 3])
}

#[test]
fn create_prime_center_pixel_looks_down_z() {
    let sc = sphere_scene(0, -5 * SCALE, SCALE, red(), 3, 3);
    let r = Ray::create_prime(1, 1, &sc);
    assert_eq!((r.origin.x, r.origin.y, r.origin.z), (0, 0, 0));
    assert_eq!((r.direction.x, r.direction.y, r.direction.z), (0, 0, -SCALE));
}

#[test]
fn create_prime_directions_are_unit_length() {
    let sc = sphere_scene(0, -5 * SCALE, SCALE, red(), 4, 3);
    for x in 0..4 {
        for y in 0..3 {
            let r = Ray::create_prime(x, y, &sc);
            let l = r.direction.length();
            assert!(SCALE - 3 <= l && l <= SCALE + 1);
        }
    }
}

#[test]
fn shading_away_from_light_is_black() {
    // light travelling toward positive z: the near side of the sphere,
    // whose normal points toward positive z, faces away from it
    let mut sc = sphere_scene(0, -5 * SCALE, SCALE, red(), 3, 3);
    sc.light.direction = Vector3 { x: 0, y: 0, z: SCALE };
    let ray = Ray {
        origin: Point::zero(),
        direction: Vector3 { x: 0, y: 0, z: -SCALE },
    };
    let c = get_color(&sc, &ray, 4 * SCALE);
    assert_eq!(c, Color { r: 0, g: 0, b: 0 });
}

#[test]
fn shading_toward_light_is_lit() {
    let sc = sphere_scene(0, -5 * SCALE, SCALE, red(), 3, 3);
    let ray = Ray {
        origin: Point::zero(),
        direction: Vector3 { x: 0, y: 0, z: -SCALE },
    };
    let c = get_color(&sc, &ray, 4 * SCALE);
    // intensity 50 saturates the red channel; the others stay dark
    assert_eq!(c, Color { r: SCALE, g: 0, b: 0 });
}

#[test]
fn nearest_hit_wins() {
    // both spheres sit on the axis; the nearer (red) one must be chosen,
    // in either list order
    let near = sphere_scene(0, -5 * SCALE, SCALE, red(), 1, 1);
    let far = sphere_scene(0, -10 * SCALE, SCALE, green(), 1, 1);
    let out = render(&vec![near, far]);
    assert_eq!(out.len(), 4);
    assert_eq!(pixel(&out, 1, 0, 0), (255, 0, 0, 255));
    let out2 = render(&vec![far, near]);
    assert_eq!(pixel(&out2, 1, 0, 0), (255, 0, 0, 255));
}

#[test]
fn equal_distances_keep_first_entry() {
    let a = sphere_scene(0, -5 * SCALE, SCALE, red(), 1, 1);
    let b = sphere_scene(0, -5 * SCALE, SCALE, green(), 1, 1);
    let out = render(&vec![a.clone(), b]);
    assert_eq!(pixel(&out, 1, 0, 0), (255, 0, 0, 255));
    let out2 = render(&vec![b, a]);
    assert_eq!(pixel(&out2, 1, 0, 0), (0, 255, 0, 255));
}

#[test]
fn end_to_end_sphere_visible_at_center_corners_background() {
    // one unit sphere five units ahead, 90 degree fov: at 3x3 only the
    // center ray hits; every corner pixel is background
    let sc = sphere_scene(0, -5 * SCALE, SCALE, red(), 3, 3);
    let out = render(&vec![sc]);
    assert_eq!(out.len(), 4 * 9);
    assert_eq!(pixel(&out, 3, 1, 1), (255, 0, 0, 255));
    for &(x, y) in &[(0u32, 0u32), (2, 0), (0, 2), (2, 2)] {
        assert_eq!(pixel(&out, 3, x, y), (0, 0, 0, 255));
    }
    // at 2x2 every ray passes wide of the sphere: all background
    let sc2 = sphere_scene(0, -5 * SCALE, SCALE, red(), 2, 2);
    let out2 = render(&vec![sc2]);
    assert_eq!(out2.len(), 4 * 4);
    for &(x, y) in &[(0u32, 0u32), (1, 0), (0, 1), (1, 1)] {
        assert_eq!(pixel(&out2, 2, x, y), (0, 0, 0, 255));
    }
}

#[test]
fn render_mixed_scene_dimensions_and_alpha() {
    // a sphere and a plane together: buffer size, opacity, and at least
    // one lit sphere pixel
    let s = sphere_scene(0, -5 * SCALE, SCALE, red(), 5, 4);
    let mut p = sphere_scene(0, -5 * SCALE, SCALE, red(), 5, 4);
    p.element = Element::Plane(raytracer::Plane {
        origin: Point { x: 0, y: -2 * SCALE, z: -5 * SCALE },
        normal: Vector3 { x: 0, y: -SCALE, z: 0 },
        color: Color { r: 6554, g: 6554, b: 6554 },
        albedo: 24903,
    });
    let out = render(&vec![s, p]);
    assert_eq!(out.len(), 4 * 5 * 4);
    let mut lit = 0;
    for y in 0..4 {
        for x in 0..5 {
            let (r, _g, _b, a) = pixel(&out, 5, x, y);
            assert_eq!(a, 255);
            if r > 0 {
                lit += 1;
            }
        }
    }
    assert!(lit >= 1);
}
