//! Linear-space RGB color and its display encoding.
//!
//! Channels are fixed-point values; during shading they may leave [0, 1],
//! and `clamp` truncates them back before display conversion.  `to_rgba`
//! gamma-encodes each clamped channel with exponent 1/2.2 (exactly 5/11)
//! and scales it to an 8-bit value: the byte produced is the largest `d`
//! in [0, 255] with `(d/255)^(11/5) <= q/128`, where `q` is the channel
//! reduced to a 1/128 grid.

use vstd::prelude::*;
use crate::math::SCALE;
use crate::math::fx_mul_s;
use crate::math::mul_ok;
use crate::math::fx_mul;

verus! {

/// One channel clamped to [0, SCALE] (that is, to [0.0, 1.0]).
pub open spec fn clamp_s(c: int) -> int {
    if c < 0 {
        0
    } else if c > SCALE as int {
        SCALE as int
    } else {
        c
    }
}

/// Fifth power.
pub open spec fn p5(x: int) -> int {
    let x2: int = x * x;
    let x4: int = x2 * x2;
    x4 * x
}

/// Eleventh power.
pub open spec fn p11(x: int) -> int {
    let x2: int = x * x;
    let x4: int = x2 * x2;
    let x8: int = x4 * x4;
    x8 * x2 * x
}

/// `d` is the gamma-encoded byte for the reduced channel `q` in [0, 128]:
/// the largest `d <= 255` with `d^11 * 128^5 <= 255^11 * q^5`, which says
/// `d <= 255 * (q/128)^(5/11)` over the rationals.
pub open spec fn is_gamma8(q: int, d: int) -> bool {
    &&& 0 <= d <= 255
    &&& p11(d) * p5(128) <= p11(255) * p5(q)
    &&& (d == 255 || p11(d + 1) * p5(128) > p11(255) * p5(q))
}

/// The gamma-encoded byte for a reduced channel `q`.
pub open spec fn gamma8q_s(q: int) -> int {
    choose|d: int| is_gamma8(q, d)
}

/// The gamma-encoded byte for a clamped channel `c` in [0, SCALE]:
/// `c` is first reduced to the 1/128 grid.
pub open spec fn gamma8_s(c: int) -> int {
    gamma8q_s(c / 512)
}

/// The fifth power is monotone on nonnegative integers.
pub proof fn lemma_p5_mono(a: int, b: int)
    requires
        0 <= a <= b,
    ensures
        0 <= p5(a) <= p5(b),
{
    let a2: int = a * a;
    let b2: int = b * b;
    assert(0 <= a2 <= b2) by (nonlinear_arith)
        requires 0 <= a <= b, a2 == a * a, b2 == b * b;
    let a4: int = a2 * a2;
    let b4: int = b2 * b2;
    assert(0 <= a4 <= b4) by (nonlinear_arith)
        requires 0 <= a2 <= b2, a4 == a2 * a2, b4 == b2 * b2;
    assert(0 <= a4 * a <= b4 * b) by (nonlinear_arith)
        requires 0 <= a4 <= b4, 0 <= a <= b;
}

/// The eleventh power is monotone on nonnegative integers.
pub proof fn lemma_p11_mono(a: int, b: int)
    requires
        0 <= a <= b,
    ensures
        0 <= p11(a) <= p11(b),
{
    let a2: int = a * a;
    let b2: int = b * b;
    assert(0 <= a2 <= b2) by (nonlinear_arith)
        requires 0 <= a <= b, a2 == a * a, b2 == b * b;
    let a4: int = a2 * a2;
    let b4: int = b2 * b2;
    assert(0 <= a4 <= b4) by (nonlinear_arith)
        requires 0 <= a2 <= b2, a4 == a2 * a2, b4 == b2 * b2;
    let a8: int = a4 * a4;
    let b8: int = b4 * b4;
    assert(0 <= a8 <= b8) by (nonlinear_arith)
        requires 0 <= a4 <= b4, a8 == a4 * a4, b8 == b4 * b4;
    assert(0 <= a8 * a2 <= b8 * b2) by (nonlinear_arith)
        requires 0 <= a8 <= b8, 0 <= a2 <= b2;
    assert(0 <= a8 * a2 * a <= b8 * b2 * b) by (nonlinear_arith)
        requires 0 <= a8 * a2 <= b8 * b2, 0 <= a <= b;
}

/// The exact value of `128^5`.
pub proof fn lemma_p5_128()
    ensures
        p5(128) == 34359738368,
{
    assert(128int * 128 == 16384);
    assert(16384int * 16384 == 268435456);
    assert(268435456int * 128 == 34359738368);
}

/// The gamma-encoded byte is unique.
pub proof fn lemma_gamma8_unique(q: int, d1: int, d2: int)
    requires
        is_gamma8(q, d1),
        is_gamma8(q, d2),
    ensures
        d1 == d2,
{
    lemma_p5_128();
    if d1 < d2 {
        lemma_p11_mono(d1 + 1, d2);
        assert(p11(d1 + 1) * p5(128) <= p11(d2) * p5(128)) by (nonlinear_arith)
            requires 0 <= p11(d1 + 1) <= p11(d2), p5(128) > 0;
    }
    if d2 < d1 {
        lemma_p11_mono(d2 + 1, d1);
        assert(p11(d2 + 1) * p5(128) <= p11(d1) * p5(128)) by (nonlinear_arith)
            requires 0 <= p11(d2 + 1) <= p11(d1), p5(128) > 0;
    }
}

/// A witness of `is_gamma8` for `c / 512` is the gamma byte of `c`.
pub proof fn lemma_gamma8_eq(c: int, d: int)
    requires
        0 <= c <= SCALE as int,
        is_gamma8(c / 512, d),
    ensures
        gamma8_s(c) == d,
{
    lemma_gamma8_unique(c / 512, gamma8q_s(c / 512), d);
}

/// Fifth power, exactly.
fn p5e(x: u64) -> (r: u128)
    requires
        x <= 255,
    ensures
        r as int == p5(x as int),
        r <= 1078203909375,
{
    let w: u128 = x as u128;
    assert(w * w <= 65025) by (nonlinear_arith)
        requires w <= 255;
    let x2: u128 = w * w;
    assert(x2 * x2 <= 4228250625) by (nonlinear_arith)
        requires x2 <= 65025;
    let x4: u128 = x2 * x2;
    assert(x4 * w <= 1078203909375) by (nonlinear_arith)
        requires x4 <= 4228250625, w <= 255;
    x4 * w
}

/// Eleventh power, exactly.
fn p11e(x: u64) -> (r: u128)
    requires
        x <= 255,
    ensures
        r as int == p11(x as int),
        r < 0x10000000000000000000000,
{
    let w: u128 = x as u128;
    assert(w * w <= 65025) by (nonlinear_arith)
        requires w <= 255;
    let x2: u128 = w * w;
    assert(x2 * x2 <= 4228250625) by (nonlinear_arith)
        requires x2 <= 65025;
    let x4: u128 = x2 * x2;
    assert(x4 * x4 <= 17878103347812890625) by (nonlinear_arith)
        requires x4 <= 4228250625;
    let x8: u128 = x4 * x4;
    assert(x8 * x2 <= 1162523670191533212890625) by (nonlinear_arith)
        requires x8 <= 17878103347812890625, x2 <= 65025;
    assert(x8 * x2 * w < 0x10000000000000000000000) by (nonlinear_arith)
        requires x8 * x2 <= 1162523670191533212890625, w <= 255;
    x8 * x2 * w
}

/// Gamma-encode one clamped channel to an 8-bit display value.
pub fn gamma8(c: i64) -> (d: u8)
    requires
        0 <= c <= SCALE,
    ensures
        d as int == gamma8_s(c as int),
        is_gamma8(c as int / 512, d as int),
{
    let q: u64 = (c as u64) / 512;
    let g5: u128 = p5e(128);
    proof {
        lemma_p5_128();
    }
    assert(g5 == 34359738368);
    let rq: u128 = p5e(q);
    let r11: u128 = p11e(255);
    proof {
        lemma_p5_mono(q as int, 128);
        assert(r11 * rq < 0x10000000000000000000000 * 34359738369) by (nonlinear_arith)
            requires r11 < 0x10000000000000000000000, rq <= 34359738368;
    }
    let target: u128 = r11 * rq;
    let mut d: u8 = 0;
    proof {
        lemma_p11_mono(0, 255);
        lemma_p5_mono(0, q as int);
        assert(p11(0) * p5(128) == 0) by (nonlinear_arith)
            requires p11(0) == 0;
        assert(p11(255) * p5(q as int) >= 0) by (nonlinear_arith)
            requires p11(255) >= 0, p5(q as int) >= 0;
    }
    while d < 255
        invariant
            q <= 128,
            g5 == p5(128),
            g5 == 34359738368,
            target as int == p11(255) * p5(q as int),
            0 <= d <= 255,
            p11(d as int) * p5(128) <= p11(255) * p5(q as int),
        ensures
            is_gamma8(q as int, d as int),
        decreases 255 - d,
    {
        let t: u128 = p11e((d as u64) + 1);
        assert(t * g5 < 0x10000000000000000000000 * 34359738369) by (nonlinear_arith)
            requires t < 0x10000000000000000000000, g5 == 34359738368;
        if t * g5 > target {
            break;
        }
        d = d + 1;
    }
    proof {
        lemma_gamma8_eq(c as int, d as int);
    }
    d
}

/// A color in linear light space; channels are fixed-point and may leave
/// [0, SCALE] during shading arithmetic.
#[derive(Clone, Copy, PartialEq, Eq, Structural, Debug)]
pub struct Color {
    pub r: i64,
    pub g: i64,
    pub b: i64,
}

/// A display-ready pixel: 8-bit RGBA channels.
#[derive(Clone, Copy, PartialEq, Eq, Structural, Debug)]
pub struct Rgba {
    pub r: u8,
    pub g: u8,
    pub b: u8,
    pub a: u8,
}

impl Color {
    /// Each channel clamped to [0, SCALE].
    pub fn clamp(&self) -> (c: Color)
        ensures
            c.r as int == clamp_s(self.r as int),
            c.g as int == clamp_s(self.g as int),
            c.b as int == clamp_s(self.b as int),
    {
        Color {
            r: clamp_channel(self.r),
            g: clamp_channel(self.g),
            b: clamp_channel(self.b),
        }
    }

    /// Componentwise fixed-point tint: light filtered by a surface.
    pub fn mul(&self, other: &Color) -> (c: Color)
        requires
            mul_ok(self.r as int, other.r as int),
            mul_ok(self.g as int, other.g as int),
            mul_ok(self.b as int, other.b as int),
        ensures
            c.r as int == fx_mul_s(self.r as int, other.r as int),
            c.g as int == fx_mul_s(self.g as int, other.g as int),
            c.b as int == fx_mul_s(self.b as int, other.b as int),
    {
        Color { r: fx_mul(self.r, other.r), g: fx_mul(self.g, other.g), b: fx_mul(self.b, other.b) }
    }

    /// Uniform fixed-point scaling of every channel by `k`.
    pub fn scale(&self, k: i64) -> (c: Color)
        requires
            mul_ok(self.r as int, k as int),
            mul_ok(self.g as int, k as int),
            mul_ok(self.b as int, k as int),
        ensures
            c.r as int == fx_mul_s(self.r as int, k as int),
            c.g as int == fx_mul_s(self.g as int, k as int),
            c.b as int == fx_mul_s(self.b as int, k as int),
    {
        Color { r: fx_mul(self.r, k), g: fx_mul(self.g, k), b: fx_mul(self.b, k) }
    }

    /// Gamma-encode a clamped color into an 8-bit RGBA pixel, fully opaque.
    pub fn to_rgba(&self) -> (p: Rgba)
        requires
            0 <= self.r <= SCALE,
            0 <= self.g <= SCALE,
            0 <= self.b <= SCALE,
        ensures
            p.r as int == gamma8_s(self.r as int),
            p.g as int == gamma8_s(self.g as int),
            p.b as int == gamma8_s(self.b as int),
            p.a == 255,
    {
        Rgba { r: gamma8(self.r), g: gamma8(self.g), b: gamma8(self.b), a: 255 }
    }
}

/// One channel clamped to [0, SCALE].
fn clamp_channel(c: i64) -> (r: i64)
    ensures
        r as int == clamp_s(c as int),
{
    if c < 0 {
        0
    } else if c > SCALE {
        SCALE
    } else {
        c
    }
}

/// Clamping a color twice gives the same channels as clamping it once.
pub proof fn lemma_clamp_idempotent(c: int)
    ensures
        clamp_s(clamp_s(c)) == clamp_s(c),
{
}

} // verus!
