//! Shading and frame composition.
//!
//! For each pixel the compositor casts one primary ray per scene entry,
//! keeps the nearest shadeable hit (strict comparison: ties keep the
//! earlier entry), shades it with Lambertian diffuse reflectance, and
//! writes the gamma-encoded RGBA bytes row by row.

use vstd::prelude::*;
use crate::math::SCALE;
use crate::math::iabs;
use crate::math::fx_mul_s;
use crate::math::fx_div_s;
use crate::math::fx_div;
use crate::math::lemma_abs_mul;
use crate::math::lemma_sdiv_le;
use crate::math::lemma_fx_mul_bound;
use crate::vector::Point;
use crate::vector::Vector3;
use crate::vector::dot3;
use crate::vector::norm3;
use crate::vector::lemma_dot3_bound;
use crate::color::Color;
use crate::color::Rgba;
use crate::color::clamp_s;
use crate::color::gamma8_s;
use crate::scene::Element;
use crate::scene::Light;
use crate::scene::Scene;
use crate::scene::Ray;
use crate::scene::Intersectable;
use crate::scene::Surface_normal;
use crate::scene::HIT_LIMIT;
use crate::scene::DIST_LIMIT;
use crate::scene::wf_scene;
use crate::scene::ray_ok;
use crate::scene::element_hit_s;
use crate::scene::element_color_s;
use crate::scene::element_albedo_s;
use crate::scene::element_normal_s;
use crate::scene::normal_defined_s;
use crate::scene::prime_ray_s;

verus! {

/// Pi at scale: round(pi * SCALE).
pub const PI_FX: i64 = 205887;

/// x coordinate of the point `inter` along the ray.
pub open spec fn hit_x_s(r: Ray, inter: int) -> int {
    r.origin.x as int + fx_mul_s(r.direction.x as int, inter)
}

/// y coordinate of the point `inter` along the ray.
pub open spec fn hit_y_s(r: Ray, inter: int) -> int {
    r.origin.y as int + fx_mul_s(r.direction.y as int, inter)
}

/// z coordinate of the point `inter` along the ray.
pub open spec fn hit_z_s(r: Ray, inter: int) -> int {
    r.origin.z as int + fx_mul_s(r.direction.z as int, inter)
}

/// Whether shading is defined for this hit: the surface normal must
/// exist at the hit point (a sphere hit landing exactly on the center,
/// a degenerate case, has none and is treated as background).
pub open spec fn shadeable_s(e: Element, r: Ray, inter: int) -> bool {
    normal_defined_s(e, hit_x_s(r, inter), hit_y_s(r, inter), hit_z_s(r, inter))
}

/// x component of the unit vector toward the light: the light's travel
/// direction, normalized and negated.
pub open spec fn dtl_x_s(l: Light) -> int {
    -norm3(l.direction.x as int, l.direction.x as int, l.direction.y as int, l.direction.z as int)
}

/// y component of the unit vector toward the light.
pub open spec fn dtl_y_s(l: Light) -> int {
    -norm3(l.direction.y as int, l.direction.x as int, l.direction.y as int, l.direction.z as int)
}

/// z component of the unit vector toward the light.
pub open spec fn dtl_z_s(l: Light) -> int {
    -norm3(l.direction.z as int, l.direction.x as int, l.direction.y as int, l.direction.z as int)
}

/// Lambertian cosine term clamped at zero, scaled by the light's
/// intensity: the power arriving at a surface with normal (nx, ny, nz).
pub open spec fn light_power_s(l: Light, nx: int, ny: int, nz: int) -> int {
    let pd: int = dot3(nx, ny, nz, dtl_x_s(l), dtl_y_s(l), dtl_z_s(l));
    let pos: int = if pd < 0 {
        0
    } else {
        pd
    };
    fx_mul_s(pos, l.intensity as int)
}

/// The diffuse reflectance factor: albedo over pi.
pub open spec fn reflected_s(e: Element) -> int {
    fx_div_s(element_albedo_s(e), PI_FX as int)
}

/// One shaded channel: element color times light color times power times
/// reflectance, clamped to [0, SCALE].
pub open spec fn shade_channel_s(ec: int, lc: int, power: int, refl: int) -> int {
    clamp_s(fx_mul_s(fx_mul_s(fx_mul_s(ec, lc), power), refl))
}

/// The color visible where a ray hits the scene's element at parameter
/// `inter`: Lambertian diffuse shading under the scene's light.
pub open spec fn get_color_s(sc: Scene, r: Ray, inter: int) -> Color {
    let hx: int = hit_x_s(r, inter);
    let hy: int = hit_y_s(r, inter);
    let hz: int = hit_z_s(r, inter);
    let n: (int, int, int) = element_normal_s(sc.element, hx, hy, hz);
    let power: int = light_power_s(sc.light, n.0, n.1, n.2);
    let refl: int = reflected_s(sc.element);
    let ec: Color = element_color_s(sc.element);
    Color {
        r: shade_channel_s(ec.r as int, sc.light.color.r as int, power, refl) as i64,
        g: shade_channel_s(ec.g as int, sc.light.color.g as int, power, refl) as i64,
        b: shade_channel_s(ec.b as int, sc.light.color.b as int, power, refl) as i64,
    }
}

/// The point `inter` along a ray, as a `Point`.
fn hit_point(ray: &Ray, inter: i64) -> (p: Point)
    requires
        ray_ok(*ray),
        iabs(inter as int) <= DIST_LIMIT as int,
    ensures
        p.x as int == hit_x_s(*ray, inter as int),
        p.y as int == hit_y_s(*ray, inter as int),
        p.z as int == hit_z_s(*ray, inter as int),
        iabs(p.x as int) <= HIT_LIMIT as int,
        iabs(p.y as int) <= HIT_LIMIT as int,
        iabs(p.z as int) <= HIT_LIMIT as int,
{
    proof {
        lemma_fx_mul_bound(ray.direction.x as int, inter as int, SCALE as int, DIST_LIMIT as int);
        lemma_fx_mul_bound(ray.direction.y as int, inter as int, SCALE as int, DIST_LIMIT as int);
        lemma_fx_mul_bound(ray.direction.z as int, inter as int, SCALE as int, DIST_LIMIT as int);
    }
    let sc: Vector3 = ray.direction.scale(inter);
    ray.origin.add(&sc)
}

/// Whether the hit at `inter` can be shaded (the surface normal exists
/// there); a degenerate hit is treated as background by the compositor.
pub fn shadeable(scene: &Scene, ray: &Ray, inter: i64) -> (b: bool)
    requires
        wf_scene(*scene),
        ray_ok(*ray),
        iabs(inter as int) <= DIST_LIMIT as int,
    ensures
        b == shadeable_s(scene.element, *ray, inter as int),
{
    let hp: Point = hit_point(ray, inter);
    match &scene.element {
        Element::Sphere(s) => !(hp.x == s.center.x && hp.y == s.center.y && hp.z == s.center.z),
        Element::Plane(_) => true,
    }
}

/// The visible color where the scene's element is hit at parameter
/// `inter`: Lambertian diffuse shading, clamped to displayable range.
pub fn get_color(scene: &Scene, ray: &Ray, inter: i64) -> (c: Color)
    requires
        wf_scene(*scene),
        ray_ok(*ray),
        iabs(inter as int) <= DIST_LIMIT as int,
        shadeable_s(scene.element, *ray, inter as int),
    ensures
        c == get_color_s(*scene, *ray, inter as int),
        0 <= c.r <= SCALE,
        0 <= c.g <= SCALE,
        0 <= c.b <= SCALE,
{
    let hp: Point = hit_point(ray, inter);
    let n: Vector3 = scene.element.surface_normal(&hp);
    let ldir: Vector3 = scene.light.direction.normalize();
    let dtl: Vector3 = ldir.neg();
    let pd: i64 = n.dot(&dtl);
    proof {
        lemma_dot3_bound(
            n.x as int, n.y as int, n.z as int,
            dtl.x as int, dtl.y as int, dtl.z as int,
            2147483648, 65536,
        );
    }
    let pos: i64 = if pd < 0 {
        0
    } else {
        pd
    };
    proof {
        lemma_fx_mul_bound(pos as int, scene.light.intensity as int, 6442450944, 2147483648);
    }
    let power: i64 = crate::math::fx_mul(pos, scene.light.intensity);
    let albedo: i64 = scene.element.albedo();
    proof {
        lemma_abs_mul(albedo as int, SCALE as int);
        lemma_sdiv_le(albedo as int * (SCALE as int), 4294967296, PI_FX as int);
    }
    let refl: i64 = fx_div(albedo, PI_FX);
    let ec: Color = scene.element.color();
    proof {
        lemma_fx_mul_bound(ec.r as int, scene.light.color.r as int, 65536, 65536);
        lemma_fx_mul_bound(ec.g as int, scene.light.color.g as int, 65536, 65536);
        lemma_fx_mul_bound(ec.b as int, scene.light.color.b as int, 65536, 65536);
    }
    let tint: Color = ec.mul(&scene.light.color);
    proof {
        lemma_fx_mul_bound(tint.r as int, power as int, 65536, 211106232532992);
        lemma_fx_mul_bound(tint.g as int, power as int, 65536, 211106232532992);
        lemma_fx_mul_bound(tint.b as int, power as int, 65536, 211106232532992);
    }
    let c1: Color = tint.scale(power);
    proof {
        lemma_fx_mul_bound(c1.r as int, refl as int, 211106232532992, 20860);
        lemma_fx_mul_bound(c1.g as int, refl as int, 211106232532992, 20860);
        lemma_fx_mul_bound(c1.b as int, refl as int, 211106232532992, 20860);
    }
    let c2: Color = c1.scale(refl);
    c2.clamp()
}

/// A surface whose normal points away from the light receives nothing:
/// when the normal's projection on the direction to the light is not
/// positive, the shaded color is black.
pub proof fn lemma_shade_dark(sc: Scene, r: Ray, inter: int)
    requires
        ({
            let n: (int, int, int) = element_normal_s(
                sc.element,
                hit_x_s(r, inter),
                hit_y_s(r, inter),
                hit_z_s(r, inter),
            );
            dot3(n.0, n.1, n.2, dtl_x_s(sc.light), dtl_y_s(sc.light), dtl_z_s(sc.light)) <= 0
        }),
    ensures
        get_color_s(sc, r, inter) == (Color { r: 0, g: 0, b: 0 }),
{
    let n: (int, int, int) = element_normal_s(
        sc.element,
        hit_x_s(r, inter),
        hit_y_s(r, inter),
        hit_z_s(r, inter),
    );
    assert(light_power_s(sc.light, n.0, n.1, n.2) == 0);
    let ec: Color = element_color_s(sc.element);
    assert(fx_mul_s(fx_mul_s(ec.r as int, sc.light.color.r as int), 0) == 0);
    assert(fx_mul_s(fx_mul_s(ec.g as int, sc.light.color.g as int), 0) == 0);
    assert(fx_mul_s(fx_mul_s(ec.b as int, sc.light.color.b as int), 0) == 0);
    assert(fx_mul_s(0, reflected_s(sc.element)) == 0);
    assert(clamp_s(0) == 0);
}

/// The nearest shadeable hit, and its shaded color, over a list of
/// scene entries sharing one viewport; background is black.  Entries are
/// considered in order and replace the current best only on a strictly
/// smaller distance, so equal distances keep the earliest entry.
pub open spec fn trace_s(scenes: Seq<Scene>, x: int, y: int) -> (Option<int>, Color)
    decreases scenes.len(),
{
    if scenes.len() == 0 {
        (Option::<int>::None, Color { r: 0, g: 0, b: 0 })
    } else {
        let prev: (Option<int>, Color) = trace_s(scenes.drop_last(), x, y);
        let sc: Scene = scenes.last();
        let ray: Ray = prime_ray_s(sc, x, y);
        match element_hit_s(sc.element, ray) {
            Option::None => prev,
            Option::Some(d) => {
                if !shadeable_s(sc.element, ray, d) {
                    prev
                } else {
                    match prev.0 {
                        Option::None => (Option::Some(d), get_color_s(sc, ray, d)),
                        Option::Some(pd) => {
                            if d < pd {
                                (Option::Some(d), get_color_s(sc, ray, d))
                            } else {
                                prev
                            }
                        },
                    }
                }
            },
        }
    }
}

/// The RGB bytes of the pixel at (x, y): the traced color, gamma-encoded.
pub open spec fn pixel_s(scenes: Seq<Scene>, x: int, y: int) -> (int, int, int) {
    let c: Color = trace_s(scenes, x, y).1;
    (gamma8_s(c.r as int), gamma8_s(c.g as int), gamma8_s(c.b as int))
}

/// Index of the first byte of pixel (x, y) in a row-major RGBA buffer
/// of width `w`.
pub open spec fn pix_base(w: int, x: int, y: int) -> int {
    4 * (y * w + x)
}

/// The four bytes of pixel (x, y) in `out` hold the traced color.
pub open spec fn pixel_at(out: Seq<u8>, scenes: Seq<Scene>, x: int, y: int) -> bool {
    let w: int = scenes[0].width as int;
    let b: int = pix_base(w, x, y);
    &&& out[b] as int == pixel_s(scenes, x, y).0
    &&& out[b + 1] as int == pixel_s(scenes, x, y).1
    &&& out[b + 2] as int == pixel_s(scenes, x, y).2
    &&& out[b + 3] == 255
}

/// All scene entries are well formed and share the first entry's viewport.
pub open spec fn scenes_ok(scenes: Seq<Scene>) -> bool {
    &&& scenes.len() >= 1
    &&& forall|i: int|
        0 <= i < scenes.len() ==> wf_scene(#[trigger] scenes[i])
    &&& forall|i: int|
        0 <= i < scenes.len() ==> (#[trigger] scenes[i]).width == scenes[0].width
    &&& forall|i: int|
        0 <= i < scenes.len() ==> (#[trigger] scenes[i]).height == scenes[0].height
}

/// The traced color of a pixel: background black, or the shaded color of
/// the entry with the nearest shadeable hit.
fn trace_pixel(scenes: &Vec<Scene>, x: u32, y: u32) -> (c: Color)
    requires
        scenes_ok(scenes@),
        x < scenes@[0].width,
        y < scenes@[0].height,
    ensures
        c == trace_s(scenes@, x as int, y as int).1,
        0 <= c.r <= SCALE,
        0 <= c.g <= SCALE,
        0 <= c.b <= SCALE,
{
    let mut best: Option<i64> = Option::None;
    let mut color: Color = Color { r: 0, g: 0, b: 0 };
    let mut i: usize = 0;
    proof {
        assert(scenes@.take(0) =~= Seq::<Scene>::empty());
    }
    while i < scenes.len()
        invariant
            scenes_ok(scenes@),
            x < scenes@[0].width,
            y < scenes@[0].height,
            i <= scenes@.len(),
            color == trace_s(scenes@.take(i as int), x as int, y as int).1,
            match best {
                Option::Some(t) => {
                    &&& trace_s(scenes@.take(i as int), x as int, y as int).0
                        == Option::Some(t as int)
                    &&& iabs(t as int) <= DIST_LIMIT as int
                },
                Option::None => trace_s(scenes@.take(i as int), x as int, y as int).0
                    is None,
            },
            0 <= color.r <= SCALE,
            0 <= color.g <= SCALE,
            0 <= color.b <= SCALE,
        decreases scenes@.len() - i,
    {
        let s: &Scene = &scenes[i];
        let ray: Ray = Ray::create_prime(x, y, s);
        let inter: Option<i64> = s.element.intersect(&ray);
        proof {
            assert(scenes@.take(i as int + 1).drop_last() =~= scenes@.take(i as int));
            assert(scenes@.take(i as int + 1).last() == scenes@[i as int]);
        }
        match inter {
            Option::None => {},
            Option::Some(d) => {
                if shadeable(s, &ray, d) {
                    match best {
                        Option::None => {
                            color = get_color(s, &ray, d);
                            best = Option::Some(d);
                        },
                        Option::Some(bd) => {
                            if d < bd {
                                color = get_color(s, &ray, d);
                                best = Option::Some(d);
                            }
                        },
                    }
                }
            },
        }
        i = i + 1;
    }
    proof {
        assert(scenes@.take(scenes@.len() as int) =~= scenes@);
    }
    color
}

/// Render the scene list into a row-major RGBA byte buffer: one primary
/// ray per pixel and scene entry, nearest shadeable hit wins, background
/// is black; every pixel is fully opaque.
pub fn render(scenes: &Vec<Scene>) -> (out: Vec<u8>)
    requires
        scenes_ok(scenes@),
    ensures
        out@.len() == pix_base(scenes@[0].width as int, 0, scenes@[0].height as int),
        forall|x: int, y: int|
            0 <= x < scenes@[0].width as int && 0 <= y < scenes@[0].height as int
                ==> #[trigger] pixel_at(out@, scenes@, x, y),
{
    let w: u32 = scenes[0].width;
    let h: u32 = scenes[0].height;
    let mut out: Vec<u8> = Vec::new();
    let mut y: u32 = 0;
    while y < h
        invariant
            scenes_ok(scenes@),
            w == scenes@[0].width,
            h == scenes@[0].height,
            y <= h,
            out@.len() == pix_base(w as int, 0, y as int),
            forall|xx: int, yy: int|
                0 <= xx < w as int && 0 <= yy < y as int
                    ==> #[trigger] pixel_at(out@, scenes@, xx, yy),
        decreases h - y,
    {
        let mut x: u32 = 0;
        while x < w
            invariant
                scenes_ok(scenes@),
                w == scenes@[0].width,
                h == scenes@[0].height,
                y < h,
                x <= w,
                out@.len() == pix_base(w as int, x as int, y as int),
                forall|xx: int, yy: int|
                    0 <= xx < w as int && 0 <= yy < y as int
                        ==> #[trigger] pixel_at(out@, scenes@, xx, yy),
                forall|xx: int|
                    0 <= xx < x as int
                        ==> #[trigger] pixel_at(out@, scenes@, xx, y as int),
            decreases w - x,
        {
            let ghost old_out: Seq<u8> = out@;
            let c: Color = trace_pixel(scenes, x, y);
            let px: Rgba = c.to_rgba();
            out.push(px.r);
            out.push(px.g);
            out.push(px.b);
            out.push(px.a);
            proof {
                let wi: int = w as int;
                let xi: int = x as int;
                let yi: int = y as int;
                assert(out@ =~= old_out
                    + seq![px.r, px.g, px.b, px.a]);
                assert(pixel_at(out@, scenes@, xi, yi));
                assert forall|xx: int, yy: int|
                    0 <= xx < wi && 0 <= yy < yi implies #[trigger] pixel_at(
                    out@,
                    scenes@,
                    xx,
                    yy,
                ) by {
                    assert(pixel_at(old_out, scenes@, xx, yy));
                    assert(yy * wi + xx + 1 <= yi * wi) by (nonlinear_arith)
                        requires
                            0 <= xx < wi,
                            0 <= yy <= yi - 1,
                    ;
                }
                assert forall|xx: int| 0 <= xx < xi + 1 implies #[trigger] pixel_at(
                    out@,
                    scenes@,
                    xx,
                    yi,
                ) by {
                    if xx < xi {
                        assert(pixel_at(old_out, scenes@, xx, yi));
                    }
                }
            }
            x = x + 1;
        }
        proof {
            assert(pix_base(w as int, w as int, y as int)
                == pix_base(w as int, 0, y as int + 1)) by (nonlinear_arith);
        }
        y = y + 1;
    }
    out
}

/// The resolver's choice is nearest: whenever some entry's element is
/// hit by the pixel's ray at a shadeable distance `d`, the resolver
/// reports a hit, at a distance no farther than `d`.
pub proof fn lemma_trace_is_nearest(scenes: Seq<Scene>, x: int, y: int, i: int, d: int)
    requires
        0 <= i < scenes.len(),
        element_hit_s(scenes[i].element, prime_ray_s(scenes[i], x, y)) == Option::Some(d),
        shadeable_s(scenes[i].element, prime_ray_s(scenes[i], x, y), d),
    ensures
        match trace_s(scenes, x, y).0 {
            Option::Some(b) => b <= d,
            Option::None => false,
        },
    decreases scenes.len(),
{
    let prefix: Seq<Scene> = scenes.drop_last();
    if i < scenes.len() - 1 {
        assert(prefix[i] == scenes[i]);
        lemma_trace_is_nearest(prefix, x, y, i, d);
    }
}

/// Nearest-hit selection: with two entries whose elements are hit by the
/// pixel's ray at distances d1 < d2, both shadeable, the resolver keeps
/// the first entry's distance and color.
pub proof fn lemma_nearest_hit(scenes: Seq<Scene>, x: int, y: int, d1: int, d2: int)
    requires
        scenes.len() == 2,
        element_hit_s(scenes[0].element, prime_ray_s(scenes[0], x, y)) == Option::Some(d1),
        element_hit_s(scenes[1].element, prime_ray_s(scenes[1], x, y)) == Option::Some(d2),
        shadeable_s(scenes[0].element, prime_ray_s(scenes[0], x, y), d1),
        shadeable_s(scenes[1].element, prime_ray_s(scenes[1], x, y), d2),
        d1 < d2,
    ensures
        trace_s(scenes, x, y).0 == Option::Some(d1),
        trace_s(scenes, x, y).1 == get_color_s(scenes[0], prime_ray_s(scenes[0], x, y), d1),
{
    let s1: Seq<Scene> = scenes.drop_last();
    assert(s1.len() == 1);
    assert(s1.last() == scenes[0]);
    assert(s1.drop_last().len() == 0);
    assert(trace_s(s1.drop_last(), x, y).0 is None);
    assert(trace_s(s1, x, y).0 == Option::Some(d1));
    assert(scenes.last() == scenes[1]);
}

} // verus!
