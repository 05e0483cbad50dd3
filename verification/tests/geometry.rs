//! Ray-surface intersection and color handling on concrete values.

use raytracer::Color;
use raytracer::Element;
use raytracer::Intersectable;
use raytracer::Plane;
use raytracer::Point;
use raytracer::Ray;
use raytracer::Sphere;
use raytracer::Vector3;
use raytracer::SCALE;

fn red() -> Color {
    Color { r: SCALE, g: 0, b: 0 }
}

fn axis_ray() -> Ray {
    Ray {
        origin: Point::zero(),
        direction: Vector3 { x: 0, y: 0, z: -SCALE },
    }
}

fn sphere_at(x: i64, y: i64, z: i64, radius: i64) -> Sphere {
    Sphere {
        center: Point { x, y, z },
        radius,
        color: red(),
        albedo: 11796,
    }
}

#[test]
fn sphere_center_ray_hits_entry_point() {
    // a ray through the exact center hits at distance - radius (5 - 1 = 4)
    let s = sphere_at(0, 0, -5 * SCALE, SCALE);
    assert_eq!(s.intersect(&axis_ray()), Some(4 * SCALE));
}

#[test]
fn sphere_center_ray_from_inside() {
    // origin inside the sphere: the negative entry parameter is reported
    let s = sphere_at(0, 0, -SCALE / 2, 2 * SCALE);
    assert_eq!(s.intersect(&axis_ray()), Some(-(3 * SCALE) / 2));
}

#[test]
fn sphere_miss_when_closest_approach_exceeds_radius() {
    // closest approach 3 units, radius 1: no hit
    let s = sphere_at(3 * SCALE, 0, -5 * SCALE, SCALE);
    assert_eq!(s.intersect(&axis_ray()), None);
}

#[test]
fn sphere_tangent_ray_hits_with_zero_half_chord() {
    // closest approach exactly equals the radius: both roots coincide
    let s = sphere_at(SCALE, 0, -5 * SCALE, SCALE);
    assert_eq!(s.intersect(&axis_ray()), Some(5 * SCALE));
}

#[test]
fn plane_parallel_ray_misses() {
    let p = Plane {
        origin: Point { x: 0, y: -2 * SCALE, z: -5 * SCALE },
        normal: Vector3 { x: 0, y: -SCALE, z: 0 },
        color: red(),
        albedo: 24903,
    };
    assert_eq!(p.intersect(&axis_ray()), None);
}

#[test]
fn plane_straight_ahead_hit() {
    let p = Plane {
        origin: Point { x: 0, y: 0, z: -20 * SCALE },
        normal: Vector3 { x: 0, y: 0, z: -SCALE },
        color: red(),
        albedo: 24903,
    };
    assert_eq!(p.intersect(&axis_ray()), Some(20 * SCALE));
}

#[test]
fn plane_behind_origin_misses() {
    let p = Plane {
        origin: Point { x: 0, y: 0, z: -20 * SCALE },
        normal: Vector3 { x: 0, y: 0, z: -SCALE },
        color: red(),
        albedo: 24903,
    };
    let r = Ray {
        origin: Point { x: 0, y: 0, z: -30 * SCALE },
        direction: Vector3 { x: 0, y: 0, z: -SCALE },
    };
    assert_eq!(p.intersect(&r), None);
}

#[test]
fn element_dispatch_and_materials() {
    let s = sphere_at(0, 0, -5 * SCALE, SCALE);
    let e = Element::Sphere(s);
    assert_eq!(e.intersect(&axis_ray()), Some(4 * SCALE));
    assert_eq!(e.color(), red());
    assert_eq!(e.albedo(), 11796);
    let p = Plane {
        origin: Point { x: 0, y: 0, z: -20 * SCALE },
        normal: Vector3 { x: 0, y: 0, z: -SCALE },
        color: Color { r: 6554, g: 6554, b: 6554 },
        albedo: 24903,
    };
    let ep = Element::Plane(p);
    assert_eq!(ep.intersect(&axis_ray()), Some(20 * SCALE));
    assert_eq!(ep.color(), Color { r: 6554, g: 6554, b: 6554 });
    assert_eq!(ep.albedo(), 24903);
}

#[test]
fn color_clamp_bounds_every_channel() {
    let c = Color { r: -77, g: 3 * SCALE, b: 1234 };
    let d = c.clamp();
    assert_eq!(d, Color { r: 0, g: SCALE, b: 1234 });
    assert!(0 <= d.r && d.r <= SCALE);
    assert!(0 <= d.g && d.g <= SCALE);
    assert!(0 <= d.b && d.b <= SCALE);
    // clamping is idempotent
    assert_eq!(d.clamp(), d);
}

#[test]
fn color_mul_and_scale() {
    let a = Color { r: SCALE, g: SCALE / 2, b: 0 };
    let b = Color { r: SCALE / 2, g: SCALE / 2, b: SCALE };
    assert_eq!(a.mul(&b), Color { r: SCALE / 2, g: SCALE / 4, b: 0 });
    assert_eq!(a.scale(2 * SCALE), Color { r: 2 * SCALE, g: SCALE, b: 0 });
}

#[test]
fn to_rgba_gamma_encodes() {
    let black = Color { r: 0, g: 0, b: 0 }.to_rgba();
    assert_eq!((black.r, black.g, black.b, black.a), (0, 0, 0, 255));
    let full = Color { r: SCALE, g: SCALE, b: SCALE }.to_rgba();
    assert_eq!((full.r, full.g, full.b, full.a), (255, 255, 255, 255));
    // 0.5^(5/11) * 255 rounds down to 186
    let half = Color { r: SCALE / 2, g: 0, b: SCALE }.to_rgba();
    assert_eq!((half.r, half.g, half.b, half.a), (186, 0, 255, 255));
}
