//! Scene description and ray-surface intersection.
//!
//! A scene couples one element (a sphere or a plane) and one directional
//! light with the image dimensions and the camera's field of view; a
//! multi-object image is a list of such scenes sharing one viewport.
//! Intersection distances are fixed-point ray parameters; a hit for a
//! sphere may lie at a negative parameter when the ray starts inside it,
//! exactly as the spec functions here state.

use vstd::prelude::*;
use crate::math::SCALE;
use crate::math::iabs;
use crate::math::sdiv;
use crate::math::fx_mul_s;
use crate::math::fx_div_s;
use crate::math::fx_sqrt_s;
use crate::math::sqrt_i;
use crate::math::is_sqrt;
use crate::math::fx_mul;
use crate::math::fx_sqrt;
use crate::math::sdiv_i128;
use crate::math::lemma_abs_mul;
use crate::math::lemma_sdiv_le;
use crate::math::lemma_sqrt_eq;
use crate::math::lemma_sqrt_below;
use crate::vector::Point;
use crate::vector::Vector3;
use crate::vector::dot3;
use crate::vector::norm3;
use crate::vector::lemma_dot3_bound;
use crate::color::Color;

verus! {

/// Largest coordinate magnitude of scene geometry: 32768 world units.
pub const COORD_LIMIT: i64 = 2147483648;

/// Largest hit-point coordinate the shading stage accepts.
pub const HIT_LIMIT: i64 = 2251799813685248;

/// Largest intersection distance a surface reports; a farther surface is
/// treated as not hit (a machine limit of the representation).
pub const DIST_LIMIT: i64 = 1125899906842624;

/// Largest image dimension, in pixels.
pub const DIM_LIMIT: u32 = 16384;

/// Largest field-of-view adjustment: tan of the half-angle, at scale.
pub const FOV_ADJ_LIMIT: i64 = 1048576;

/// A sphere with its material: base color and diffuse albedo.
#[derive(Clone, Copy, PartialEq, Eq, Structural, Debug)]
pub struct Sphere {
    pub center: Point,
    pub radius: i64,
    pub color: Color,
    pub albedo: i64,
}

/// An infinite plane through `origin` with the given normal, and its material.
#[derive(Clone, Copy, PartialEq, Eq, Structural, Debug)]
pub struct Plane {
    pub origin: Point,
    pub normal: Vector3,
    pub color: Color,
    pub albedo: i64,
}

/// A scene element: the closed set of primitive kinds.
#[derive(Clone, Copy, PartialEq, Eq, Structural, Debug)]
pub enum Element {
    Sphere(Sphere),
    Plane(Plane),
}

/// A directional light: the direction the light travels, its color, and
/// a scalar intensity (fixed point).
#[derive(Clone, Copy, PartialEq, Eq, Structural, Debug)]
pub struct Light {
    pub direction: Vector3,
    pub color: Color,
    pub intensity: i64,
}

/// One element and one light under a camera at the origin looking down
/// the negative z axis.  `fov_adjustment` is the tangent of half the
/// field of view, at scale (90 degrees gives `SCALE`).
#[derive(Clone, Copy, PartialEq, Eq, Structural, Debug)]
pub struct Scene {
    pub width: u32,
    pub height: u32,
    pub fov_adjustment: i64,
    pub element: Element,
    pub light: Light,
}

/// A half-line from `origin` along the unit vector `direction`.
#[derive(Clone, Copy, PartialEq, Eq, Structural, Debug)]
pub struct Ray {
    pub origin: Point,
    pub direction: Vector3,
}

/// Every component within the geometry coordinate limit.
pub open spec fn fits_v(v: Vector3) -> bool {
    &&& iabs(v.x as int) <= COORD_LIMIT as int
    &&& iabs(v.y as int) <= COORD_LIMIT as int
    &&& iabs(v.z as int) <= COORD_LIMIT as int
}

/// Every component within the geometry coordinate limit.
pub open spec fn fits_p(p: Point) -> bool {
    &&& iabs(p.x as int) <= COORD_LIMIT as int
    &&& iabs(p.y as int) <= COORD_LIMIT as int
    &&& iabs(p.z as int) <= COORD_LIMIT as int
}

/// A normalized direction: every component within `SCALE`.
pub open spec fn unit_dir(v: Vector3) -> bool {
    &&& iabs(v.x as int) <= SCALE as int
    &&& iabs(v.y as int) <= SCALE as int
    &&& iabs(v.z as int) <= SCALE as int
}

/// A ray the intersection routines accept.
pub open spec fn ray_ok(r: Ray) -> bool {
    fits_p(r.origin) && unit_dir(r.direction)
}

/// A scene input color: every channel in [0, SCALE].
pub open spec fn color_ok(c: Color) -> bool {
    &&& 0 <= c.r <= SCALE
    &&& 0 <= c.g <= SCALE
    &&& 0 <= c.b <= SCALE
}

/// A well-formed sphere: positive radius, geometry in range, material in
/// range (albedo in [0, 1] at scale).
pub open spec fn wf_sphere(s: Sphere) -> bool {
    &&& fits_p(s.center)
    &&& 1 <= s.radius <= COORD_LIMIT
    &&& color_ok(s.color)
    &&& 0 <= s.albedo <= SCALE
}

/// A well-formed plane: geometry in range, material in range.
pub open spec fn wf_plane(p: Plane) -> bool {
    &&& fits_p(p.origin)
    &&& fits_v(p.normal)
    &&& color_ok(p.color)
    &&& 0 <= p.albedo <= SCALE
}

/// A well-formed element.
pub open spec fn wf_element(e: Element) -> bool {
    match e {
        Element::Sphere(s) => wf_sphere(s),
        Element::Plane(p) => wf_plane(p),
    }
}

/// A well-formed light: a nonzero direction and material in range.
pub open spec fn wf_light(l: Light) -> bool {
    &&& fits_v(l.direction)
    &&& !(l.direction.x == 0 && l.direction.y == 0 && l.direction.z == 0)
    &&& color_ok(l.color)
    &&& 0 <= l.intensity <= COORD_LIMIT
}

/// A well-formed scene: positive bounded viewport, field-of-view
/// adjustment in range, element and light well formed.
pub open spec fn wf_scene(s: Scene) -> bool {
    &&& 1 <= s.width <= DIM_LIMIT
    &&& 1 <= s.height <= DIM_LIMIT
    &&& 1 <= s.fov_adjustment <= FOV_ADJ_LIMIT
    &&& wf_element(s.element)
    &&& wf_light(s.light)
}

/// An executable optional distance agrees with its mathematical value.
pub open spec fn opt_eq(r: Option<i64>, s: Option<int>) -> bool {
    match (r, s) {
        (Option::None, Option::None) => true,
        (Option::Some(a), Option::Some(b)) => a as int == b,
        _ => false,
    }
}

/// Projection of `center - origin` onto the ray direction.
pub open spec fn sphere_adj_s(s: Sphere, r: Ray) -> int {
    dot3(
        s.center.x as int - r.origin.x as int,
        s.center.y as int - r.origin.y as int,
        s.center.z as int - r.origin.z as int,
        r.direction.x as int,
        r.direction.y as int,
        r.direction.z as int,
    )
}

/// Squared distance from the ray origin to the sphere center, at scale.
pub open spec fn sphere_ll_s(s: Sphere, r: Ray) -> int {
    dot3(
        s.center.x as int - r.origin.x as int,
        s.center.y as int - r.origin.y as int,
        s.center.z as int - r.origin.z as int,
        s.center.x as int - r.origin.x as int,
        s.center.y as int - r.origin.y as int,
        s.center.z as int - r.origin.z as int,
    )
}

/// Squared distance from the sphere center to the ray's closest approach.
pub open spec fn sphere_d2_s(s: Sphere, r: Ray) -> int {
    sphere_ll_s(s, r) - fx_mul_s(sphere_adj_s(s, r), sphere_adj_s(s, r))
}

/// The sphere's squared radius, at scale.
pub open spec fn sphere_r2_s(s: Sphere) -> int {
    fx_mul_s(s.radius as int, s.radius as int)
}

/// The distance a sphere reports for a ray: the nearer quadratic root
/// `adj - half_chord`, or nothing when the closest approach passes
/// outside the radius.  A ray starting inside the sphere reports the
/// (negative) entry parameter unfiltered.
pub open spec fn sphere_hit_s(s: Sphere, r: Ray) -> Option<int> {
    if sphere_d2_s(s, r) > sphere_r2_s(s) {
        Option::None
    } else {
        Option::Some(sphere_adj_s(s, r) - fx_sqrt_s(sphere_r2_s(s) - sphere_d2_s(s, r)))
    }
}

/// The plane normal projected on the ray direction.
pub open spec fn plane_denom_s(p: Plane, r: Ray) -> int {
    dot3(
        p.normal.x as int,
        p.normal.y as int,
        p.normal.z as int,
        r.direction.x as int,
        r.direction.y as int,
        r.direction.z as int,
    )
}

/// The displacement from the ray origin to the plane origin, projected
/// on the plane normal.
pub open spec fn plane_num_s(p: Plane, r: Ray) -> int {
    dot3(
        p.origin.x as int - r.origin.x as int,
        p.origin.y as int - r.origin.y as int,
        p.origin.z as int - r.origin.z as int,
        p.normal.x as int,
        p.normal.y as int,
        p.normal.z as int,
    )
}

/// The distance a plane reports for a ray: nothing when the ray is
/// parallel to the plane or faces away from it (`denom <= 0`), when the
/// intersection lies behind the origin (`num < 0`), or when the distance
/// exceeds `DIST_LIMIT`; otherwise the fixed-point quotient.
pub open spec fn plane_hit_s(p: Plane, r: Ray) -> Option<int> {
    let den: int = plane_denom_s(p, r);
    let num: int = plane_num_s(p, r);
    if den <= 0 {
        Option::None
    } else if num < 0 {
        Option::None
    } else if fx_div_s(num, den) > DIST_LIMIT as int {
        Option::None
    } else {
        Option::Some(fx_div_s(num, den))
    }
}

/// The distance an element reports for a ray.
pub open spec fn element_hit_s(e: Element, r: Ray) -> Option<int> {
    match e {
        Element::Sphere(s) => sphere_hit_s(s, r),
        Element::Plane(p) => plane_hit_s(p, r),
    }
}

/// The element's base color.
pub open spec fn element_color_s(e: Element) -> Color {
    match e {
        Element::Sphere(s) => s.color,
        Element::Plane(p) => p.color,
    }
}

/// The element's albedo.
pub open spec fn element_albedo_s(e: Element) -> int {
    match e {
        Element::Sphere(s) => s.albedo as int,
        Element::Plane(p) => p.albedo as int,
    }
}

/// The outward surface normal of an element at a hit point (for a plane,
/// the stored normal negated, facing the incoming ray).
pub open spec fn element_normal_s(e: Element, hx: int, hy: int, hz: int) -> (int, int, int) {
    match e {
        Element::Sphere(s) => (
            norm3(
                hx - s.center.x as int,
                hx - s.center.x as int,
                hy - s.center.y as int,
                hz - s.center.z as int,
            ),
            norm3(
                hy - s.center.y as int,
                hx - s.center.x as int,
                hy - s.center.y as int,
                hz - s.center.z as int,
            ),
            norm3(
                hz - s.center.z as int,
                hx - s.center.x as int,
                hy - s.center.y as int,
                hz - s.center.z as int,
            ),
        ),
        Element::Plane(p) => (-(p.normal.x as int), -(p.normal.y as int), -(p.normal.z as int)),
    }
}

/// The hit point of an element is defined for shading: for a sphere it
/// must not be the exact center, where the normal is undefined.
pub open spec fn normal_defined_s(e: Element, hx: int, hy: int, hz: int) -> bool {
    match e {
        Element::Sphere(s) => !(hx == s.center.x as int && hy == s.center.y as int
            && hz == s.center.z as int),
        Element::Plane(p) => true,
    }
}

/// The capability of reporting a forward intersection distance.
pub trait Intersectable {
    /// Inputs on which `intersect` is defined.
    spec fn intersect_req(&self, ray: &Ray) -> bool;

    /// The exact distance `intersect` reports.
    spec fn intersect_spec(&self, ray: &Ray) -> Option<int>;

    /// The fixed-point distance along `ray` to the surface, if the ray
    /// meets it; the reported distance is bounded by `DIST_LIMIT`.
    fn intersect(&self, ray: &Ray) -> (r: Option<i64>)
        requires
            self.intersect_req(ray),
        ensures
            opt_eq(r, self.intersect_spec(ray)),
            match r {
                Option::Some(t) => iabs(t as int) <= DIST_LIMIT as int,
                Option::None => true,
            },
    ;
}

/// The capability of reporting the surface normal at a hit point.
#[allow(non_camel_case_types)]
pub trait Surface_normal {
    /// Inputs on which `surface_normal` is defined.
    spec fn normal_req(&self, hit_point: &Point) -> bool;

    /// The exact components `surface_normal` returns.
    spec fn normal_spec(&self, hit_point: &Point) -> (int, int, int);

    /// The surface normal at `hit_point`, with bounded components.
    fn surface_normal(&self, hit_point: &Point) -> (r: Vector3)
        requires
            self.normal_req(hit_point),
        ensures
            r.x as int == self.normal_spec(hit_point).0,
            r.y as int == self.normal_spec(hit_point).1,
            r.z as int == self.normal_spec(hit_point).2,
            iabs(r.x as int) <= COORD_LIMIT as int,
            iabs(r.y as int) <= COORD_LIMIT as int,
            iabs(r.z as int) <= COORD_LIMIT as int,
    ;
}

impl Intersectable for Sphere {
    open spec fn intersect_req(&self, ray: &Ray) -> bool {
        wf_sphere(*self) && ray_ok(*ray)
    }

    open spec fn intersect_spec(&self, ray: &Ray) -> Option<int> {
        sphere_hit_s(*self, *ray)
    }

    fn intersect(&self, ray: &Ray) -> (r: Option<i64>) {
        let l: Vector3 = self.center.sub(&ray.origin);
        let adj: i64 = l.dot(&ray.direction);
        let ll: i64 = l.dot(&l);
        proof {
            lemma_dot3_bound(
                l.x as int, l.y as int, l.z as int,
                ray.direction.x as int, ray.direction.y as int, ray.direction.z as int,
                4294967296, 65536,
            );
            lemma_dot3_bound(
                l.x as int, l.y as int, l.z as int,
                l.x as int, l.y as int, l.z as int,
                4294967296, 4294967296,
            );
            assert(iabs(adj as int) * iabs(adj as int) <= 12884901888int * 12884901888)
                by (nonlinear_arith)
                requires iabs(adj as int) <= 12884901888;
            lemma_abs_mul(adj as int, adj as int);
            lemma_sdiv_le(adj as int * (adj as int), 12884901888int * 12884901888, SCALE as int);
            assert(iabs(self.radius as int) * iabs(self.radius as int)
                <= 2147483648int * 2147483648)
                by (nonlinear_arith)
                requires iabs(self.radius as int) <= 2147483648;
            lemma_abs_mul(self.radius as int, self.radius as int);
            lemma_sdiv_le(
                self.radius as int * (self.radius as int),
                2147483648int * 2147483648,
                SCALE as int,
            );
        }
        let adjsq: i64 = fx_mul(adj, adj);
        let radius2: i64 = fx_mul(self.radius, self.radius);
        let d2: i64 = ll - adjsq;
        if d2 > radius2 {
            return Option::None;
        }
        let v: i64 = radius2 - d2;
        let half: i64 = fx_sqrt(v);
        proof {
            assert((v as int) * (SCALE as int) < 34359738368int * 34359738368) by (nonlinear_arith)
                requires 0 <= v as int <= 3602879701896397;
            lemma_sqrt_below(v as int * (SCALE as int), 34359738368);
        }
        let t0: i64 = adj - half;
        let t1: i64 = adj + half;
        if t0 < t1 {
            Option::Some(t0)
        } else {
            Option::Some(t1)
        }
    }
}

impl Intersectable for Plane {
    open spec fn intersect_req(&self, ray: &Ray) -> bool {
        wf_plane(*self) && ray_ok(*ray)
    }

    open spec fn intersect_spec(&self, ray: &Ray) -> Option<int> {
        plane_hit_s(*self, *ray)
    }

    fn intersect(&self, ray: &Ray) -> (r: Option<i64>) {
        let denom: i64 = self.normal.dot(&ray.direction);
        if denom <= 0 {
            return Option::None;
        }
        let v: Vector3 = self.origin.sub(&ray.origin);
        let num: i64 = v.dot(&self.normal);
        if num < 0 {
            return Option::None;
        }
        proof {
            lemma_dot3_bound(
                v.x as int, v.y as int, v.z as int,
                self.normal.x as int, self.normal.y as int, self.normal.z as int,
                4294967296, 2147483648,
            );
        }
        let dist: u128 = ((num as u128) * 65536) / (denom as u128);
        assert(dist as int == fx_div_s(num as int, denom as int));
        if dist > 1125899906842624 {
            return Option::None;
        }
        Option::Some(dist as i64)
    }
}

impl Intersectable for Element {
    open spec fn intersect_req(&self, ray: &Ray) -> bool {
        wf_element(*self) && ray_ok(*ray)
    }

    open spec fn intersect_spec(&self, ray: &Ray) -> Option<int> {
        element_hit_s(*self, *ray)
    }

    fn intersect(&self, ray: &Ray) -> (r: Option<i64>) {
        match self {
            Element::Sphere(s) => s.intersect(ray),
            Element::Plane(p) => p.intersect(ray),
        }
    }
}

impl Surface_normal for Sphere {
    open spec fn normal_req(&self, hit_point: &Point) -> bool {
        &&& wf_sphere(*self)
        &&& iabs(hit_point.x as int) <= HIT_LIMIT as int
        &&& iabs(hit_point.y as int) <= HIT_LIMIT as int
        &&& iabs(hit_point.z as int) <= HIT_LIMIT as int
        &&& !(hit_point.x == self.center.x && hit_point.y == self.center.y
            && hit_point.z == self.center.z)
    }

    open spec fn normal_spec(&self, hit_point: &Point) -> (int, int, int) {
        element_normal_s(
            Element::Sphere(*self),
            hit_point.x as int,
            hit_point.y as int,
            hit_point.z as int,
        )
    }

    fn surface_normal(&self, hit_point: &Point) -> (r: Vector3) {
        let d: Vector3 = hit_point.sub(&self.center);
        d.normalize()
    }
}

impl Surface_normal for Plane {
    open spec fn normal_req(&self, hit_point: &Point) -> bool {
        wf_plane(*self)
    }

    open spec fn normal_spec(&self, hit_point: &Point) -> (int, int, int) {
        element_normal_s(
            Element::Plane(*self),
            hit_point.x as int,
            hit_point.y as int,
            hit_point.z as int,
        )
    }

    fn surface_normal(&self, hit_point: &Point) -> (r: Vector3) {
        self.normal.neg()
    }
}

impl Surface_normal for Element {
    open spec fn normal_req(&self, hit_point: &Point) -> bool {
        &&& wf_element(*self)
        &&& iabs(hit_point.x as int) <= HIT_LIMIT as int
        &&& iabs(hit_point.y as int) <= HIT_LIMIT as int
        &&& iabs(hit_point.z as int) <= HIT_LIMIT as int
        &&& normal_defined_s(
            *self,
            hit_point.x as int,
            hit_point.y as int,
            hit_point.z as int,
        )
    }

    open spec fn normal_spec(&self, hit_point: &Point) -> (int, int, int) {
        element_normal_s(
            *self,
            hit_point.x as int,
            hit_point.y as int,
            hit_point.z as int,
        )
    }

    fn surface_normal(&self, hit_point: &Point) -> (r: Vector3) {
        match self {
            Element::Sphere(s) => s.surface_normal(hit_point),
            Element::Plane(p) => p.surface_normal(hit_point),
        }
    }
}

impl Element {
    /// The element's base color.
    pub fn color(&self) -> (c: Color)
        ensures
            c == element_color_s(*self),
    {
        match self {
            Element::Sphere(s) => s.color,
            Element::Plane(p) => p.color,
        }
    }

    /// The element's albedo.
    pub fn albedo(&self) -> (a: i64)
        ensures
            a as int == element_albedo_s(*self),
    {
        match self {
            Element::Sphere(s) => s.albedo,
            Element::Plane(p) => p.albedo,
        }
    }
}

/// Screen-space x of the pixel center, scaled by the field-of-view
/// adjustment: `((2 x + 1 - width) / height) * fov_adjustment` at scale
/// (the aspect ratio folds the two divisions by width into one by height).
pub open spec fn sensor_x_s(s: Scene, x: int) -> int {
    sdiv((2 * x + 1 - s.width as int) * (s.fov_adjustment as int), s.height as int)
}

/// Screen-space y of the pixel center, scaled by the field-of-view
/// adjustment; y grows downward in the image, upward in the world.
pub open spec fn sensor_y_s(s: Scene, y: int) -> int {
    sdiv((s.height as int - (2 * y + 1)) * (s.fov_adjustment as int), s.height as int)
}

/// x component of the primary-ray direction for pixel (x, y).
pub open spec fn prime_dir_x_s(s: Scene, x: int, y: int) -> int {
    norm3(sensor_x_s(s, x), sensor_x_s(s, x), sensor_y_s(s, y), -(SCALE as int))
}

/// y component of the primary-ray direction for pixel (x, y).
pub open spec fn prime_dir_y_s(s: Scene, x: int, y: int) -> int {
    norm3(sensor_y_s(s, y), sensor_x_s(s, x), sensor_y_s(s, y), -(SCALE as int))
}

/// z component of the primary-ray direction for pixel (x, y).
pub open spec fn prime_dir_z_s(s: Scene, x: int, y: int) -> int {
    norm3(-(SCALE as int), sensor_x_s(s, x), sensor_y_s(s, y), -(SCALE as int))
}

/// The primary ray for pixel (x, y): from the world origin through the
/// pixel's point on the sensor plane one unit down the negative z axis.
pub open spec fn prime_ray_s(s: Scene, x: int, y: int) -> Ray {
    Ray {
        origin: Point { x: 0, y: 0, z: 0 },
        direction: Vector3 {
            x: prime_dir_x_s(s, x, y) as i64,
            y: prime_dir_y_s(s, x, y) as i64,
            z: prime_dir_z_s(s, x, y) as i64,
        },
    }
}

/// One sensor coordinate: `num * fov_adjustment / height`, truncating.
fn sensor_coord(num: i64, fov_adjustment: i64, height: u32) -> (r: i64)
    requires
        iabs(num as int) <= 2 * DIM_LIMIT as int,
        1 <= fov_adjustment <= FOV_ADJ_LIMIT,
        1 <= height,
    ensures
        r as int == sdiv(num as int * (fov_adjustment as int), height as int),
        iabs(r as int) <= 34359738368,
{
    proof {
        assert(iabs(num as int * (fov_adjustment as int)) <= 34359738368) by (nonlinear_arith)
            requires
                iabs(num as int) <= 32768,
                0 <= fov_adjustment as int <= 1048576,
        ;
    }
    let p: i128 = (num as i128) * (fov_adjustment as i128);
    let q: i128 = sdiv_i128(p, height as i128);
    q as i64
}

impl Ray {
    /// The primary ray for pixel (x, y) of `scene`, direction normalized.
    pub fn create_prime(x: u32, y: u32, scene: &Scene) -> (r: Ray)
        requires
            wf_scene(*scene),
            x < scene.width,
            y < scene.height,
        ensures
            r == prime_ray_s(*scene, x as int, y as int),
            ray_ok(r),
    {
        let nx: i64 = 2 * (x as i64) + 1 - (scene.width as i64);
        let ny: i64 = (scene.height as i64) - (2 * (y as i64) + 1);
        let sx: i64 = sensor_coord(nx, scene.fov_adjustment, scene.height);
        let sy: i64 = sensor_coord(ny, scene.fov_adjustment, scene.height);
        let v: Vector3 = Vector3 { x: sx, y: sy, z: -SCALE };
        let dir: Vector3 = v.normalize();
        let r: Ray = Ray { origin: Point::zero(), direction: dir };
        proof {
            assert(sx as int == sensor_x_s(*scene, x as int));
            assert(sy as int == sensor_y_s(*scene, y as int));
            assert(dir.x as int == prime_dir_x_s(*scene, x as int, y as int));
            assert(dir.y as int == prime_dir_y_s(*scene, x as int, y as int));
            assert(dir.z as int == prime_dir_z_s(*scene, x as int, y as int));
        }
        r
    }
}

/// A ray aimed straight at a sphere's center hits at the entry point:
/// at the distance to the center minus the radius, never at the exit
/// point on the far side.  Stated for a ray cast down the negative z
/// axis (where the fixed-point arithmetic is exact) and a radius on the
/// 1/256 grid, so that its square is exactly representable at scale;
/// off-axis rays round their direction components and can land a few
/// raw units off this exact distance.
pub proof fn lemma_center_ray_entry(s: Sphere, r: Ray)
    requires
        wf_sphere(s),
        r.direction.x == 0,
        r.direction.y == 0,
        r.direction.z == -SCALE,
        r.origin.x == s.center.x,
        r.origin.y == s.center.y,
        s.center.z < r.origin.z,
        s.radius as int % 256 == 0,
    ensures
        element_hit_s(Element::Sphere(s), r) == Option::Some(
            r.origin.z as int - s.center.z as int - s.radius as int,
        ),
{
    let dd: int = r.origin.z as int - s.center.z as int;
    let rr: int = s.radius as int;
    // the projection of center - origin on the direction is the distance
    assert((s.center.x as int - r.origin.x as int) * (r.direction.x as int)
        + (s.center.y as int - r.origin.y as int) * (r.direction.y as int)
        + (s.center.z as int - r.origin.z as int) * (r.direction.z as int) == dd * 65536)
        by (nonlinear_arith)
        requires
            s.center.x == r.origin.x,
            s.center.y == r.origin.y,
            r.direction.x == 0,
            r.direction.y == 0,
            r.direction.z as int == -65536,
            dd == r.origin.z as int - s.center.z as int,
    ;
    assert(sphere_adj_s(s, r) == sdiv(dd * 65536, 65536));
    vstd::arithmetic::div_mod::lemma_div_multiples_vanish(dd, 65536);
    assert(dd * 65536 == 65536 * dd) by (nonlinear_arith);
    assert(dd * 65536 >= 0) by (nonlinear_arith)
        requires dd >= 1;
    assert(sphere_adj_s(s, r) == dd);
    // the closest approach passes through the center itself
    assert((s.center.x as int - r.origin.x as int) * (s.center.x as int - r.origin.x as int)
        + (s.center.y as int - r.origin.y as int) * (s.center.y as int - r.origin.y as int)
        + (s.center.z as int - r.origin.z as int) * (s.center.z as int - r.origin.z as int)
        == dd * dd)
        by (nonlinear_arith)
        requires
            s.center.x == r.origin.x,
            s.center.y == r.origin.y,
            dd == r.origin.z as int - s.center.z as int,
    ;
    assert(sphere_ll_s(s, r) == sdiv(dd * dd, 65536));
    assert(fx_mul_s(dd, dd) == sdiv(dd * dd, 65536));
    assert(sphere_d2_s(s, r) == 0);
    // the squared radius at scale is exact on the 1/256 grid
    let m: int = rr / 256;
    vstd::arithmetic::div_mod::lemma_fundamental_div_mod(rr, 256);
    assert(rr == 256 * m);
    assert(rr * rr == 65536 * (m * m)) by (nonlinear_arith)
        requires rr == 256 * m;
    vstd::arithmetic::div_mod::lemma_div_multiples_vanish(m * m, 65536);
    assert(rr * rr >= 0) by (nonlinear_arith);
    assert(sphere_r2_s(s) == m * m);
    assert(sphere_r2_s(s) >= 0) by (nonlinear_arith)
        requires sphere_r2_s(s) == m * m;
    // so the ray hits, and the half chord is exactly the radius
    assert(fx_sqrt_s(sphere_r2_s(s)) == sqrt_i((m * m) * 65536));
    assert((m * m) * 65536 == rr * rr) by (nonlinear_arith)
        requires rr * rr == 65536 * (m * m);
    assert(is_sqrt(rr * rr, rr)) by (nonlinear_arith)
        requires rr >= 0;
    lemma_sqrt_eq(rr * rr, rr);
}

/// A ray whose closest approach to the center stays outside the radius
/// misses the sphere.
pub proof fn lemma_sphere_miss(s: Sphere, r: Ray)
    requires
        sphere_d2_s(s, r) > sphere_r2_s(s),
    ensures
        element_hit_s(Element::Sphere(s), r) is None,
{
}

/// A ray exactly tangent to a sphere still hits it: the half chord is
/// zero and the two quadratic roots coincide at the closest approach.
pub proof fn lemma_sphere_tangent(s: Sphere, r: Ray)
    requires
        sphere_d2_s(s, r) == sphere_r2_s(s),
    ensures
        element_hit_s(Element::Sphere(s), r) == Option::Some(sphere_adj_s(s, r)),
{
    assert(is_sqrt(0, 0));
    lemma_sqrt_eq(0, 0);
    assert(fx_sqrt_s(0) == 0);
}

/// A ray parallel to a plane, or facing away from its lit side, misses it.
pub proof fn lemma_plane_parallel(p: Plane, r: Ray)
    requires
        plane_denom_s(p, r) <= 0,
    ensures
        element_hit_s(Element::Plane(p), r) is None,
{
}

/// A plane intersection behind the ray origin is not reported.
pub proof fn lemma_plane_behind(p: Plane, r: Ray)
    requires
        plane_num_s(p, r) < 0,
    ensures
        element_hit_s(Element::Plane(p), r) is None,
{
}

} // verus!
