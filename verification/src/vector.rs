//! 3D vector and point algebra over fixed-point coordinates.
//!
//! A `Vector3` is a displacement, a `Point` a location: subtracting two
//! points gives a vector, adding a vector to a point gives a point.
//! Dot products and normalization rescale by `SCALE` and truncate toward
//! zero, exactly as the spec functions here state.

use vstd::prelude::*;
use crate::math::SCALE;
use crate::math::iabs;
use crate::math::sdiv;
use crate::math::fx_mul_s;
use crate::math::mul_ok;
use crate::math::sqrt_i;
use crate::math::is_sqrt;
use crate::math::fx_mul;
use crate::math::isqrt;
use crate::math::abs_u128;
use crate::math::sdiv_i128;
use crate::math::lemma_abs_mul;
use crate::math::lemma_sdiv_abs;
use crate::math::lemma_sdiv_le;
use crate::math::lemma_sqrt_i_is;
use crate::math::lemma_sqrt_at_least;
use crate::math::lemma_sqrt_below;

verus! {

/// Largest component magnitude that `dot` accepts.
pub const DOT_LIMIT: i64 = 8589934592;

/// Largest component magnitude that `length` and `normalize` accept.
pub const LEN_LIMIT: i64 = 4503599627370496;

/// A direction or displacement in world space.
#[derive(Clone, Copy, PartialEq, Eq, Structural, Debug)]
pub struct Vector3 {
    pub x: i64,
    pub y: i64,
    pub z: i64,
}

/// A location in world space.
#[derive(Clone, Copy, PartialEq, Eq, Structural, Debug)]
pub struct Point {
    pub x: i64,
    pub y: i64,
    pub z: i64,
}

/// Fixed-point dot product of two component triples.
pub open spec fn dot3(ux: int, uy: int, uz: int, vx: int, vy: int, vz: int) -> int {
    sdiv(ux * vx + uy * vy + uz * vz, SCALE as int)
}

/// Sum of squared components: the squared Euclidean norm, at scale squared.
pub open spec fn sq3(x: int, y: int, z: int) -> int {
    x * x + y * y + z * z
}

/// Fixed-point Euclidean length of a component triple.
pub open spec fn len3(x: int, y: int, z: int) -> int {
    sqrt_i(sq3(x, y, z))
}

/// Component `c` of a triple after normalizing by the triple's length.
pub open spec fn norm3(c: int, x: int, y: int, z: int) -> int {
    sdiv(c * (SCALE as int), len3(x, y, z))
}

/// Bound on a dot product from bounds on its arguments.
pub proof fn lemma_dot3_bound(
    ux: int, uy: int, uz: int, vx: int, vy: int, vz: int, m1: int, m2: int,
)
    requires
        0 <= m1,
        0 <= m2,
        iabs(ux) <= m1,
        iabs(uy) <= m1,
        iabs(uz) <= m1,
        iabs(vx) <= m2,
        iabs(vy) <= m2,
        iabs(vz) <= m2,
    ensures
        iabs(dot3(ux, uy, uz, vx, vy, vz)) <= (3 * m1 * m2) / (SCALE as int),
{
    assert(iabs(ux * vx) <= m1 * m2) by (nonlinear_arith)
        requires iabs(ux) <= m1, iabs(vx) <= m2, 0 <= m1, 0 <= m2;
    assert(iabs(uy * vy) <= m1 * m2) by (nonlinear_arith)
        requires iabs(uy) <= m1, iabs(vy) <= m2, 0 <= m1, 0 <= m2;
    assert(iabs(uz * vz) <= m1 * m2) by (nonlinear_arith)
        requires iabs(uz) <= m1, iabs(vz) <= m2, 0 <= m1, 0 <= m2;
    assert(iabs(ux * vx + uy * vy + uz * vz) <= 3 * m1 * m2) by (nonlinear_arith)
        requires
            iabs(ux * vx) <= m1 * m2,
            iabs(uy * vy) <= m1 * m2,
            iabs(uz * vz) <= m1 * m2,
    ;
    lemma_sdiv_le(ux * vx + uy * vy + uz * vz, 3 * m1 * m2, SCALE as int);
}

impl Vector3 {
    /// The zero displacement.
    pub fn zero() -> (r: Vector3)
        ensures
            r.x == 0 && r.y == 0 && r.z == 0,
    {
        Vector3 { x: 0, y: 0, z: 0 }
    }

    /// Componentwise negation.
    pub fn neg(&self) -> (r: Vector3)
        requires
            self.x > i64::MIN,
            self.y > i64::MIN,
            self.z > i64::MIN,
        ensures
            r.x as int == -(self.x as int),
            r.y as int == -(self.y as int),
            r.z as int == -(self.z as int),
    {
        Vector3 { x: -self.x, y: -self.y, z: -self.z }
    }

    /// Componentwise difference.
    pub fn sub(&self, other: &Vector3) -> (r: Vector3)
        requires
            i64::MIN as int <= self.x as int - other.x as int <= i64::MAX as int,
            i64::MIN as int <= self.y as int - other.y as int <= i64::MAX as int,
            i64::MIN as int <= self.z as int - other.z as int <= i64::MAX as int,
        ensures
            r.x as int == self.x as int - other.x as int,
            r.y as int == self.y as int - other.y as int,
            r.z as int == self.z as int - other.z as int,
    {
        Vector3 { x: self.x - other.x, y: self.y - other.y, z: self.z - other.z }
    }

    /// Componentwise fixed-point scaling by `k`.
    pub fn scale(&self, k: i64) -> (r: Vector3)
        requires
            mul_ok(self.x as int, k as int),
            mul_ok(self.y as int, k as int),
            mul_ok(self.z as int, k as int),
        ensures
            r.x as int == fx_mul_s(self.x as int, k as int),
            r.y as int == fx_mul_s(self.y as int, k as int),
            r.z as int == fx_mul_s(self.z as int, k as int),
    {
        Vector3 { x: fx_mul(self.x, k), y: fx_mul(self.y, k), z: fx_mul(self.z, k) }
    }

    /// Fixed-point dot product.
    pub fn dot(&self, other: &Vector3) -> (r: i64)
        requires
            iabs(self.x as int) <= DOT_LIMIT as int,
            iabs(self.y as int) <= DOT_LIMIT as int,
            iabs(self.z as int) <= DOT_LIMIT as int,
            iabs(other.x as int) <= DOT_LIMIT as int,
            iabs(other.y as int) <= DOT_LIMIT as int,
            iabs(other.z as int) <= DOT_LIMIT as int,
        ensures
            r as int == dot3(
                self.x as int, self.y as int, self.z as int,
                other.x as int, other.y as int, other.z as int,
            ),
    {
        proof {
            assert(iabs(self.x as int * other.x as int) <= DOT_LIMIT as int * DOT_LIMIT as int)
                by (nonlinear_arith)
                requires iabs(self.x as int) <= DOT_LIMIT as int, iabs(other.x as int) <= DOT_LIMIT as int;
            assert(iabs(self.y as int * other.y as int) <= DOT_LIMIT as int * DOT_LIMIT as int)
                by (nonlinear_arith)
                requires iabs(self.y as int) <= DOT_LIMIT as int, iabs(other.y as int) <= DOT_LIMIT as int;
            assert(iabs(self.z as int * other.z as int) <= DOT_LIMIT as int * DOT_LIMIT as int)
                by (nonlinear_arith)
                requires iabs(self.z as int) <= DOT_LIMIT as int, iabs(other.z as int) <= DOT_LIMIT as int;
        }
        let px: i128 = (self.x as i128) * (other.x as i128);
        let py: i128 = (self.y as i128) * (other.y as i128);
        let pz: i128 = (self.z as i128) * (other.z as i128);
        let s: i128 = px + py + pz;
        proof {
            lemma_sdiv_le(s as int, 3 * (DOT_LIMIT as int) * (DOT_LIMIT as int), SCALE as int);
        }
        let q: i128 = sdiv_i128(s, 65536);
        q as i64
    }

    /// Fixed-point Euclidean length, rounded down.
    pub fn length(&self) -> (r: i64)
        requires
            iabs(self.x as int) <= LEN_LIMIT as int,
            iabs(self.y as int) <= LEN_LIMIT as int,
            iabs(self.z as int) <= LEN_LIMIT as int,
        ensures
            r as int == len3(self.x as int, self.y as int, self.z as int),
            r >= 0,
    {
        let q: u128 = self.sum_squares();
        let r0: u64 = isqrt(q);
        proof {
            assert((q as int) < 0x20_0000_0000_0000int * 0x20_0000_0000_0000int) by (nonlinear_arith)
                requires 0 <= q as int <= 3 * (LEN_LIMIT as int) * (LEN_LIMIT as int);
            lemma_sqrt_below(q as int, 0x20_0000_0000_0000int);
        }
        r0 as i64
    }

    /// Sum of the squared components, exactly.
    fn sum_squares(&self) -> (q: u128)
        requires
            iabs(self.x as int) <= LEN_LIMIT as int,
            iabs(self.y as int) <= LEN_LIMIT as int,
            iabs(self.z as int) <= LEN_LIMIT as int,
        ensures
            q as int == sq3(self.x as int, self.y as int, self.z as int),
            q as int <= 3 * (LEN_LIMIT as int) * (LEN_LIMIT as int),
    {
        let ax: u128 = abs_u128(self.x);
        let ay: u128 = abs_u128(self.y);
        let az: u128 = abs_u128(self.z);
        proof {
            lemma_abs_mul(self.x as int, self.x as int);
            lemma_abs_mul(self.y as int, self.y as int);
            lemma_abs_mul(self.z as int, self.z as int);
            assert(self.x as int * (self.x as int) >= 0) by (nonlinear_arith);
            assert(self.y as int * (self.y as int) >= 0) by (nonlinear_arith);
            assert(self.z as int * (self.z as int) >= 0) by (nonlinear_arith);
            assert(ax as int * (ax as int) <= LEN_LIMIT as int * (LEN_LIMIT as int))
                by (nonlinear_arith)
                requires 0 <= ax as int <= LEN_LIMIT as int;
            assert(ay as int * (ay as int) <= LEN_LIMIT as int * (LEN_LIMIT as int))
                by (nonlinear_arith)
                requires 0 <= ay as int <= LEN_LIMIT as int;
            assert(az as int * (az as int) <= LEN_LIMIT as int * (LEN_LIMIT as int))
                by (nonlinear_arith)
                requires 0 <= az as int <= LEN_LIMIT as int;
        }
        ax * ax + ay * ay + az * az
    }

    /// The unit vector with this vector's direction: each component is
    /// scaled by `SCALE` and divided by the length, truncating toward zero.
    /// Undefined on the zero vector, which is excluded.
    pub fn normalize(&self) -> (r: Vector3)
        requires
            iabs(self.x as int) <= LEN_LIMIT as int,
            iabs(self.y as int) <= LEN_LIMIT as int,
            iabs(self.z as int) <= LEN_LIMIT as int,
            !(self.x == 0 && self.y == 0 && self.z == 0),
        ensures
            r.x as int == norm3(self.x as int, self.x as int, self.y as int, self.z as int),
            r.y as int == norm3(self.y as int, self.x as int, self.y as int, self.z as int),
            r.z as int == norm3(self.z as int, self.x as int, self.y as int, self.z as int),
            iabs(r.x as int) <= SCALE as int,
            iabs(r.y as int) <= SCALE as int,
            iabs(r.z as int) <= SCALE as int,
    {
        let q: u128 = self.sum_squares();
        proof {
            if self.x != 0 {
                assert(self.x as int * (self.x as int) >= 1) by (nonlinear_arith)
                    requires self.x as int != 0;
            } else if self.y != 0 {
                assert(self.y as int * (self.y as int) >= 1) by (nonlinear_arith)
                    requires self.y as int != 0;
            } else {
                assert(self.z as int * (self.z as int) >= 1) by (nonlinear_arith)
                    requires self.z as int != 0;
            }
            assert(self.x as int * (self.x as int) >= 0) by (nonlinear_arith);
            assert(self.y as int * (self.y as int) >= 0) by (nonlinear_arith);
            assert(self.z as int * (self.z as int) >= 0) by (nonlinear_arith);
            lemma_sqrt_at_least(1, q as int);
        }
        let len: u64 = isqrt(q);
        let nx: i64 = Self::norm_component(self.x, len, Ghost(q as int));
        let ny: i64 = Self::norm_component(self.y, len, Ghost(q as int));
        let nz: i64 = Self::norm_component(self.z, len, Ghost(q as int));
        Vector3 { x: nx, y: ny, z: nz }
    }

    /// One component of `normalize`: `c * SCALE / sqrt_i(q)`, truncated
    /// toward zero, where `c * c <= q`.
    fn norm_component(c: i64, len: u64, q: Ghost<int>) -> (r: i64)
        requires
            len >= 1,
            is_sqrt(q@, len as int),
            c as int * (c as int) <= q@,
        ensures
            r as int == sdiv(c as int * (SCALE as int), sqrt_i(q@)),
            iabs(r as int) <= SCALE as int,
    {
        proof {
            crate::math::lemma_sqrt_eq(q@, len as int);
            lemma_abs_mul(c as int, SCALE as int);
            // |c| <= len, else c*c would exceed q
            if iabs(c as int) > len as int {
                assert((len as int + 1) * (len as int + 1) <= iabs(c as int) * iabs(c as int))
                    by (nonlinear_arith)
                    requires 0 <= len as int + 1 <= iabs(c as int);
                assert(iabs(c as int) * iabs(c as int) == c as int * (c as int))
                    by (nonlinear_arith);
            }
            assert(iabs(c as int) <= len as int);
            // so |c| * SCALE / len <= SCALE
            assert(iabs(c as int) * (SCALE as int) <= len as int * (SCALE as int))
                by (nonlinear_arith)
                requires iabs(c as int) <= len as int, SCALE as int > 0;
            vstd::arithmetic::div_mod::lemma_div_is_ordered(
                iabs(c as int) * (SCALE as int),
                len as int * (SCALE as int),
                len as int,
            );
            vstd::arithmetic::div_mod::lemma_div_multiples_vanish(SCALE as int, len as int);
            assert(len as int * (SCALE as int) == SCALE as int * (len as int))
                by (nonlinear_arith);
            lemma_sdiv_abs(c as int * (SCALE as int), len as int);
        }
        let ac: u128 = abs_u128(c);
        let m: u128 = (ac * 65536) / (len as u128);
        if c < 0 {
            -(m as i64)
        } else {
            m as i64
        }
    }
}

/// Cauchy-Schwarz on three terms: the square of a sum of three values
/// is at most three times the sum of their squares.
proof fn lemma_cauchy3(a: int, b: int, c: int)
    ensures
        (a + b + c) * (a + b + c) <= 3 * (a * a + b * b + c * c),
{
    assert((a + b + c) * (a + b + c) <= 3 * (a * a + b * b + c * c)) by (nonlinear_arith);
}

/// For `t = u / el` (nonnegative `u`, positive `el`), the product
/// `t * el` lands within `el` below `u`, so its square brackets `u * u`.
proof fn lemma_div_sq_bounds(u: int, el: int)
    requires
        u >= 0,
        el >= 1,
    ensures
        ((u / el) * el) * ((u / el) * el) <= u * u,
        ((u / el) * el) * ((u / el) * el) >= u * u - 2 * u * el,
{
    let t: int = u / el;
    vstd::arithmetic::div_mod::lemma_fundamental_div_mod(u, el);
    vstd::arithmetic::div_mod::lemma_mod_division_less_than_divisor(u, el);
    vstd::arithmetic::div_mod::lemma_div_pos_is_pos(u, el);
    let v: int = t * el;
    assert(u == el * t + (u % el));
    assert(v == el * t) by (nonlinear_arith)
        requires v == t * el;
    assert(0 <= v) by (nonlinear_arith)
        requires t >= 0, el >= 1, v == t * el;
    assert(v <= u && v > u - el);
    assert(v * v <= u * u) by (nonlinear_arith)
        requires 0 <= v <= u;
    assert(v * v >= u * u - 2 * u * el) by (nonlinear_arith)
        requires 0 <= v, v > u - el, v <= u, el >= 1, u >= 0;
}

/// One normalized component, squared and scaled by the squared length,
/// brackets the component's own square at scale.
proof fn lemma_norm_comp_sq(c: int, x: int, y: int, z: int)
    requires
        len3(x, y, z) >= 1,
    ensures
        norm3(c, x, y, z) * norm3(c, x, y, z) * (len3(x, y, z) * len3(x, y, z))
            <= (c * c) * ((SCALE as int) * (SCALE as int)),
        norm3(c, x, y, z) * norm3(c, x, y, z) * (len3(x, y, z) * len3(x, y, z))
            >= (c * c) * ((SCALE as int) * (SCALE as int))
                - 2 * (iabs(c) * (SCALE as int)) * len3(x, y, z),
{
    let el: int = len3(x, y, z);
    let n: int = norm3(c, x, y, z);
    let u: int = iabs(c) * (SCALE as int);
    lemma_abs_mul(c, SCALE as int);
    lemma_sdiv_abs(c * (SCALE as int), el);
    assert(iabs(n) == u / el);
    lemma_div_sq_bounds(u, el);
    assert(n * n == iabs(n) * iabs(n)) by (nonlinear_arith);
    assert(iabs(n) * iabs(n) * (el * el) == ((u / el) * el) * ((u / el) * el)) by (nonlinear_arith)
        requires iabs(n) == u / el;
    assert(iabs(c) * iabs(c) == c * c) by (nonlinear_arith);
    assert(u * u == (c * c) * ((SCALE as int) * (SCALE as int))) by (nonlinear_arith)
        requires u == iabs(c) * (SCALE as int), iabs(c) * iabs(c) == c * c;
    assert(n * n * (el * el) == iabs(n) * iabs(n) * (el * el)) by (nonlinear_arith)
        requires n * n == iabs(n) * iabs(n);
}

/// Normalization scales the length to one: for any vector at least one
/// world unit long, the normalized vector's length lands within
/// 3/SCALE of one (between SCALE - 3 and SCALE + 1 raw units).
pub proof fn lemma_normalize_unit_length(x: int, y: int, z: int)
    requires
        sq3(x, y, z) >= (SCALE as int) * (SCALE as int),
    ensures
        (SCALE as int) - 3 <= len3(norm3(x, x, y, z), norm3(y, x, y, z), norm3(z, x, y, z)),
        len3(norm3(x, x, y, z), norm3(y, x, y, z), norm3(z, x, y, z)) <= (SCALE as int) + 1,
{
    let s: int = SCALE as int;
    let q: int = sq3(x, y, z);
    let el: int = len3(x, y, z);
    crate::math::lemma_sqrt_i_is(q);
    lemma_sqrt_at_least(s, q);
    assert(el >= s);
    let nx: int = norm3(x, x, y, z);
    let ny: int = norm3(y, x, y, z);
    let nz: int = norm3(z, x, y, z);
    let nq: int = nx * nx + ny * ny + nz * nz;
    lemma_norm_comp_sq(x, x, y, z);
    lemma_norm_comp_sq(y, x, y, z);
    lemma_norm_comp_sq(z, x, y, z);
    assert(nq * (el * el) == nx * nx * (el * el) + ny * ny * (el * el) + nz * nz * (el * el))
        by (nonlinear_arith)
        requires nq == nx * nx + ny * ny + nz * nz;
    // upper bound: nq * el^2 <= q * s^2 < (el + 1)^2 s^2 <= (s + 2)^2 el^2
    assert(nq * (el * el) <= q * (s * s)) by (nonlinear_arith)
        requires
            nq * (el * el) == nx * nx * (el * el) + ny * ny * (el * el) + nz * nz * (el * el),
            nx * nx * (el * el) <= (x * x) * (s * s),
            ny * ny * (el * el) <= (y * y) * (s * s),
            nz * nz * (el * el) <= (z * z) * (s * s),
            q == x * x + y * y + z * z;
    assert(el * el > 0) by (nonlinear_arith)
        requires el >= 1;
    assert(nq >= 0) by (nonlinear_arith)
        requires nq == nx * nx + ny * ny + nz * nz;
    assert(q * (s * s) < ((el + 1) * (el + 1)) * (s * s)) by (nonlinear_arith)
        requires q < (el + 1) * (el + 1), s * s > 0;
    assert(((el + 1) * (el + 1)) * (s * s) <= ((s + 2) * (s + 2)) * (el * el)) by (nonlinear_arith)
        requires el >= s, s >= 2;
    assert(nq < (s + 2) * (s + 2)) by (nonlinear_arith)
        requires
            nq * (el * el) < ((s + 2) * (s + 2)) * (el * el),
            el * el > 0;
    lemma_sqrt_below(nq, s + 2);
    // lower bound: nq * el^2 >= q s^2 - 2 s el (|x| + |y| + |z|)
    let t: int = iabs(x) + iabs(y) + iabs(z);
    lemma_cauchy3(iabs(x), iabs(y), iabs(z));
    assert(iabs(x) * iabs(x) == x * x) by (nonlinear_arith);
    assert(iabs(y) * iabs(y) == y * y) by (nonlinear_arith);
    assert(iabs(z) * iabs(z) == z * z) by (nonlinear_arith);
    assert(t * t <= 3 * q);
    assert(3 * q < 4 * ((el + 1) * (el + 1))) by (nonlinear_arith)
        requires q < (el + 1) * (el + 1), q >= 0;
    assert(t <= 2 * el + 1) by (nonlinear_arith)
        requires t >= 0, t * t < 4 * ((el + 1) * (el + 1)), el >= 1;
    assert(q * (s * s) == (x * x) * (s * s) + (y * y) * (s * s) + (z * z) * (s * s))
        by (nonlinear_arith)
        requires q == x * x + y * y + z * z;
    let bsum: int = 2 * (iabs(x) * s) * el + 2 * (iabs(y) * s) * el + 2 * (iabs(z) * s) * el;
    assert(nq * (el * el) >= q * (s * s) - bsum);
    assert(bsum == 2 * s * el * t) by (nonlinear_arith)
        requires
            bsum == 2 * (iabs(x) * s) * el + 2 * (iabs(y) * s) * el + 2 * (iabs(z) * s) * el,
            t == iabs(x) + iabs(y) + iabs(z);
    assert(2 * s * el * t <= 2 * s * el * (2 * el + 1)) by (nonlinear_arith)
        requires 0 <= t <= 2 * el + 1, el >= 1, s == 65536;
    assert(q * (s * s) >= (el * el) * (s * s)) by (nonlinear_arith)
        requires q >= el * el, s == 65536;
    assert((el * el) * (s * s) - 2 * s * el * (2 * el + 1) >= ((s - 3) * (s - 3)) * (el * el))
        by (nonlinear_arith)
        requires el >= 65536, s == 65536;
    assert(nq * (el * el) >= ((s - 3) * (s - 3)) * (el * el));
    assert(nq >= (s - 3) * (s - 3)) by (nonlinear_arith)
        requires
            nq * (el * el) >= ((s - 3) * (s - 3)) * (el * el),
            el * el > 0;
    lemma_sqrt_at_least(s - 3, nq);
}

impl Point {
    /// The world origin.
    pub fn zero() -> (r: Point)
        ensures
            r.x == 0 && r.y == 0 && r.z == 0,
    {
        Point { x: 0, y: 0, z: 0 }
    }

    /// The displacement from `other` to `self`.
    pub fn sub(&self, other: &Point) -> (r: Vector3)
        requires
            i64::MIN as int <= self.x as int - other.x as int <= i64::MAX as int,
            i64::MIN as int <= self.y as int - other.y as int <= i64::MAX as int,
            i64::MIN as int <= self.z as int - other.z as int <= i64::MAX as int,
        ensures
            r.x as int == self.x as int - other.x as int,
            r.y as int == self.y as int - other.y as int,
            r.z as int == self.z as int - other.z as int,
    {
        Vector3 { x: self.x - other.x, y: self.y - other.y, z: self.z - other.z }
    }

    /// The point reached from `self` by the displacement `v`.
    pub fn add(&self, v: &Vector3) -> (r: Point)
        requires
            i64::MIN as int <= self.x as int + v.x as int <= i64::MAX as int,
            i64::MIN as int <= self.y as int + v.y as int <= i64::MAX as int,
            i64::MIN as int <= self.z as int + v.z as int <= i64::MAX as int,
        ensures
            r.x as int == self.x as int + v.x as int,
            r.y as int == self.y as int + v.y as int,
            r.z as int == self.z as int + v.z as int,
    {
        Point { x: self.x + v.x, y: self.y + v.y, z: self.z + v.z }
    }
}

} // verus!
