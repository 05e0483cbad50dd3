//! Vector and point algebra on concrete fixed-point values.

use raytracer::Point;
use raytracer::Vector3;
use raytracer::SCALE;

#[test]
fn vector_zero_and_neg() {
    let z = Vector3::zero();
    assert_eq!((z.x, z.y, z.z), (0, 0, 0));
    let v = Vector3 { x: 3 * SCALE, y: -4 * SCALE, z: 7 };
    let n = v.neg();
    assert_eq!((n.x, n.y, n.z), (-3 * SCALE, 4 * SCALE, -7));
}

#[test]
fn vector_sub_and_scale() {
    let a = Vector3 { x: 5 * SCALE, y: SCALE, z: 0 };
    let b = Vector3 { x: 2 * SCALE, y: -SCALE, z: 65 };
    let d = a.sub(&b);
    assert_eq!((d.x, d.y, d.z), (3 * SCALE, 2 * SCALE, -65));
    // 1.5 * 2.0 == 3.0 at scale
    let s = Vector3 { x: 98304, y: -98304, z: 1 }.scale(2 * SCALE);
    assert_eq!((s.x, s.y, s.z), (196608, -196608, 2));
}

#[test]
fn point_sub_and_add() {
    let p = Point { x: 10 * SCALE, y: 0, z: -5 * SCALE };
    let q = Point { x: 4 * SCALE, y: 2 * SCALE, z: -SCALE };
    let v = p.sub(&q);
    assert_eq!((v.x, v.y, v.z), (6 * SCALE, -2 * SCALE, -4 * SCALE));
    let r = q.add(&v);
    assert_eq!((r.x, r.y, r.z), (p.x, p.y, p.z));
    let o = Point::zero();
    assert_eq!((o.x, o.y, o.z), (0, 0, 0));
}

#[test]
fn dot_products() {
    let a = Vector3 { x: 2 * SCALE, y: 3 * SCALE, z: -SCALE };
    let b = Vector3 { x: SCALE, y: -SCALE, z: 4 * SCALE };
    // 2 - 3 - 4 == -5 at scale
    assert_eq!(a.dot(&b), -5 * SCALE);
    assert_eq!(b.dot(&a), -5 * SCALE);
    // truncation toward zero: 0.5 * 0.5 == 0.25 exactly
    let h = Vector3 { x: SCALE / 2, y: 0, z: 0 };
    assert_eq!(h.dot(&h), SCALE / 4);
}

#[test]
fn length_of_pythagorean_triple() {
    let v = Vector3 { x: 3 * SCALE, y: 4 * SCALE, z: 0 };
    assert_eq!(v.length(), 5 * SCALE);
}

#[test]
fn normalize_axis_vector_is_exact() {
    let v = Vector3 { x: 0, y: -9 * SCALE, z: 0 };
    let n = v.normalize();
    assert_eq!((n.x, n.y, n.z), (0, -SCALE, 0));
}

#[test]
fn normalize_yields_unit_length() {
    // length of the normalized vector lands within 3/SCALE of one
    let samples = vec![
        Vector3 { x: SCALE, y: SCALE, z: SCALE },
        Vector3 { x: 2 * SCALE, y: -4 * SCALE, z: -3 * SCALE },
        Vector3 { x: 7 * SCALE + 12345, y: 1, z: -2 * SCALE },
        Vector3 { x: -30000 * SCALE, y: 29999 * SCALE, z: 12 * SCALE },
    ];
    for v in samples {
        let l = v.normalize().length();
        assert!(SCALE - 3 <= l && l <= SCALE + 1, "length {} off unit", l);
    }
}
