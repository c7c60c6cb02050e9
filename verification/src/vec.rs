//! Three-component fixed-point vectors, used as points, directions and colors.

use vstd::prelude::*;
use crate::fx::{Fx, fx_mul, fx_div, fx_sqrt, iabs, ok64, is_isqrt, SCALE, lemma_mul_bound,
    lemma_tdiv_bound, lemma_isqrt_bound};

verus! {

/// Mathematical view of a vector: the three raw values as unbounded integers.
pub ghost struct V3i {
    pub x: int,
    pub y: int,
    pub z: int,
}

/// Every component's magnitude is at most `m`.
pub open spec fn v3_bounded(v: V3i, m: int) -> bool {
    iabs(v.x) <= m && iabs(v.y) <= m && iabs(v.z) <= m
}

/// Bound that all vector arithmetic accepts (2^38 raw units); sums and
/// products of such components stay in range.
pub const VEC_LIMIT: i64 = 0x40_0000_0000;

pub open spec fn v3_add(a: V3i, b: V3i) -> V3i {
    V3i { x: a.x + b.x, y: a.y + b.y, z: a.z + b.z }
}

pub open spec fn v3_sub(a: V3i, b: V3i) -> V3i {
    V3i { x: a.x - b.x, y: a.y - b.y, z: a.z - b.z }
}

pub open spec fn v3_neg(a: V3i) -> V3i {
    V3i { x: -a.x, y: -a.y, z: -a.z }
}

pub open spec fn v3_scale(a: V3i, k: int) -> V3i {
    V3i { x: fx_mul(a.x, k), y: fx_mul(a.y, k), z: fx_mul(a.z, k) }
}

pub open spec fn v3_mul(a: V3i, b: V3i) -> V3i {
    V3i { x: fx_mul(a.x, b.x), y: fx_mul(a.y, b.y), z: fx_mul(a.z, b.z) }
}

pub open spec fn v3_dot(a: V3i, b: V3i) -> int {
    fx_mul(a.x, b.x) + fx_mul(a.y, b.y) + fx_mul(a.z, b.z)
}

pub open spec fn v3_cross(a: V3i, b: V3i) -> V3i {
    V3i {
        x: fx_mul(a.y, b.z) - fx_mul(a.z, b.y),
        y: fx_mul(a.z, b.x) - fx_mul(a.x, b.z),
        z: fx_mul(a.x, b.y) - fx_mul(a.y, b.x),
    }
}

/// Magnitude bound for a fixed-point product of bounded factors.
pub proof fn lemma_fx_mul_le(a: int, b: int, m: int, n: int)
    requires
        -m <= a <= m,
        -n <= b <= n,
        0 <= m,
        0 <= n,
    ensures
        iabs(fx_mul(a, b)) <= (m * n) / (SCALE as int),
        ok64((m * n) / (SCALE as int)) ==> ok64(fx_mul(a, b)),
{
    lemma_mul_bound(a, b, m, n);
    lemma_tdiv_bound(a * b, SCALE as int);
    assert(iabs(a * b) / (SCALE as int) <= (m * n) / (SCALE as int)) by (nonlinear_arith)
        requires
            0 <= iabs(a * b) <= m * n,
    ;
}

/// Squares are non-negative, so is a fixed-point square.
pub proof fn lemma_fx_square_nonneg(a: int)
    ensures
        a * a >= 0,
        fx_mul(a, a) >= 0,
{
    assert(a * a >= 0) by (nonlinear_arith);
}

#[derive(Clone, Copy, PartialEq, Eq, Structural, Debug)]
pub struct Vec3 {
    pub x: Fx,
    pub y: Fx,
    pub z: Fx,
}

/// A color: components are light intensities on the same fixed-point grid.
pub type Color = Vec3;

/// A point in space.
pub type Point = Vec3;

/// A rendered pixel, still in linear intensity space.
pub type Pixel = Vec3;

impl View for Vec3 {
    type V = V3i;

    open spec fn view(&self) -> V3i {
        V3i { x: self.x.v(), y: self.y.v(), z: self.z.v() }
    }
}

impl Vec3 {
    pub fn new(x: Fx, y: Fx, z: Fx) -> (r: Vec3)
        ensures
            r@ == (V3i { x: x.v(), y: y.v(), z: z.v() }),
    {
        Vec3 { x, y, z }
    }

    pub fn zero() -> (r: Vec3)
        ensures
            r@ == (V3i { x: 0, y: 0, z: 0 }),
    {
        Vec3 { x: Fx::zero(), y: Fx::zero(), z: Fx::zero() }
    }

    /// All three components equal.
    pub fn splat(k: Fx) -> (r: Vec3)
        ensures
            r@ == (V3i { x: k.v(), y: k.v(), z: k.v() }),
    {
        Vec3 { x: k, y: k, z: k }
    }

    pub fn add(self, o: Vec3) -> (r: Vec3)
        requires
            v3_bounded(self@, VEC_LIMIT as int),
            v3_bounded(o@, VEC_LIMIT as int),
        ensures
            r@ == v3_add(self@, o@),
    {
        Vec3 { x: self.x.add(o.x), y: self.y.add(o.y), z: self.z.add(o.z) }
    }

    pub fn sub(self, o: Vec3) -> (r: Vec3)
        requires
            v3_bounded(self@, VEC_LIMIT as int),
            v3_bounded(o@, VEC_LIMIT as int),
        ensures
            r@ == v3_sub(self@, o@),
    {
        Vec3 { x: self.x.sub(o.x), y: self.y.sub(o.y), z: self.z.sub(o.z) }
    }

    pub fn neg(self) -> (r: Vec3)
        requires
            v3_bounded(self@, VEC_LIMIT as int),
        ensures
            r@ == v3_neg(self@),
    {
        Vec3 { x: self.x.neg(), y: self.y.neg(), z: self.z.neg() }
    }

    /// Scale by a scalar.
    pub fn scale(self, k: Fx) -> (r: Vec3)
        requires
            v3_bounded(self@, VEC_LIMIT as int),
            iabs(k.v()) <= VEC_LIMIT as int,
        ensures
            r@ == v3_scale(self@, k.v()),
    {
        proof {
            lemma_fx_mul_le(self@.x, k.v(), VEC_LIMIT as int, VEC_LIMIT as int);
            lemma_fx_mul_le(self@.y, k.v(), VEC_LIMIT as int, VEC_LIMIT as int);
            lemma_fx_mul_le(self@.z, k.v(), VEC_LIMIT as int, VEC_LIMIT as int);
        }
        Vec3 { x: self.x.mul(k), y: self.y.mul(k), z: self.z.mul(k) }
    }

    /// Component-wise product, e.g. attenuating a color by an albedo.
    pub fn mul_comp(self, o: Vec3) -> (r: Vec3)
        requires
            v3_bounded(self@, VEC_LIMIT as int),
            v3_bounded(o@, VEC_LIMIT as int),
        ensures
            r@ == v3_mul(self@, o@),
    {
        proof {
            lemma_fx_mul_le(self@.x, o@.x, VEC_LIMIT as int, VEC_LIMIT as int);
            lemma_fx_mul_le(self@.y, o@.y, VEC_LIMIT as int, VEC_LIMIT as int);
            lemma_fx_mul_le(self@.z, o@.z, VEC_LIMIT as int, VEC_LIMIT as int);
        }
        Vec3 { x: self.x.mul(o.x), y: self.y.mul(o.y), z: self.z.mul(o.z) }
    }

    pub fn dot(self, rhs: Vec3) -> (r: Fx)
        requires
            v3_bounded(self@, VEC_LIMIT as int),
            v3_bounded(rhs@, VEC_LIMIT as int),
        ensures
            r.v() == v3_dot(self@, rhs@),
    {
        proof {
            lemma_fx_mul_le(self@.x, rhs@.x, VEC_LIMIT as int, VEC_LIMIT as int);
            lemma_fx_mul_le(self@.y, rhs@.y, VEC_LIMIT as int, VEC_LIMIT as int);
            lemma_fx_mul_le(self@.z, rhs@.z, VEC_LIMIT as int, VEC_LIMIT as int);
        }
        self.x.mul(rhs.x).add(self.y.mul(rhs.y)).add(self.z.mul(rhs.z))
    }

    pub fn cross(self, v: Vec3) -> (r: Vec3)
        requires
            v3_bounded(self@, VEC_LIMIT as int),
            v3_bounded(v@, VEC_LIMIT as int),
        ensures
            r@ == v3_cross(self@, v@),
    {
        proof {
            lemma_fx_mul_le(self@.x, v@.y, VEC_LIMIT as int, VEC_LIMIT as int);
            lemma_fx_mul_le(self@.x, v@.z, VEC_LIMIT as int, VEC_LIMIT as int);
            lemma_fx_mul_le(self@.y, v@.x, VEC_LIMIT as int, VEC_LIMIT as int);
            lemma_fx_mul_le(self@.y, v@.z, VEC_LIMIT as int, VEC_LIMIT as int);
            lemma_fx_mul_le(self@.z, v@.x, VEC_LIMIT as int, VEC_LIMIT as int);
            lemma_fx_mul_le(self@.z, v@.y, VEC_LIMIT as int, VEC_LIMIT as int);
        }
        Vec3 {
            x: self.y.mul(v.z).sub(self.z.mul(v.y)),
            y: self.z.mul(v.x).sub(self.x.mul(v.z)),
            z: self.x.mul(v.y).sub(self.y.mul(v.x)),
        }
    }

    pub fn len_sqr(self) -> (r: Fx)
        requires
            v3_bounded(self@, VEC_LIMIT as int),
        ensures
            r.v() == v3_dot(self@, self@),
            r.v() >= 0,
    {
        proof {
            lemma_fx_square_nonneg(self@.x);
            lemma_fx_square_nonneg(self@.y);
            lemma_fx_square_nonneg(self@.z);
        }
        self.dot(self)
    }

    pub fn len(self) -> (r: Fx)
        requires
            v3_bounded(self@, VEC_LIMIT as int),
        ensures
            is_isqrt(v3_dot(self@, self@) * SCALE as int, r.v()),
            r.v() == fx_sqrt(v3_dot(self@, self@)),
            r.v() >= 0,
    {
        self.len_sqr().sqrt()
    }

    /// Direction of `self` scaled to (approximately) unit length. The zero
    /// vector maps to itself, and each component is capped at magnitude two,
    /// which the exact quotients cannot exceed for a genuine length anyway.
    pub fn norm(self) -> (r: Vec3)
        requires
            v3_bounded(self@, VEC_LIMIT as int),
        ensures
            r@ == v3_norm(self@),
            v3_bounded(r@, UNIT_LIMIT as int),
    {
        let l = self.len();
        if l.raw == 0 {
            Vec3::zero()
        } else {
            proof {
                lemma_mul_bound(self@.x, SCALE as int, VEC_LIMIT as int, SCALE as int);
                lemma_mul_bound(self@.y, SCALE as int, VEC_LIMIT as int, SCALE as int);
                lemma_mul_bound(self@.z, SCALE as int, VEC_LIMIT as int, SCALE as int);
                lemma_tdiv_bound(self@.x * SCALE as int, l.v());
                lemma_tdiv_bound(self@.y * SCALE as int, l.v());
                lemma_tdiv_bound(self@.z * SCALE as int, l.v());
            }
            Vec3 {
                x: clamp_mag(self.x.div(l)),
                y: clamp_mag(self.y.div(l)),
                z: clamp_mag(self.z.div(l)),
            }
        }
    }

    /// All components negligibly small (below 2^-13 of a unit).
    pub fn near_zero(self) -> (r: bool)
        requires
            v3_bounded(self@, VEC_LIMIT as int),
        ensures
            r == v3_near_zero(self@),
    {
        let e: i64 = 8;
        self.x.raw < e && self.x.raw > -e && self.y.raw < e && self.y.raw > -e
            && self.z.raw < e && self.z.raw > -e
    }

    /// Mirror reflection of `self` about `normal`.
    pub fn reflect(self, normal: Vec3) -> (r: Vec3)
        requires
            v3_bounded(self@, UNIT_LIMIT as int),
            v3_bounded(normal@, UNIT_LIMIT as int),
        ensures
            r@ == v3_reflect(self@, normal@),
            v3_bounded(r@, 0x400_0000),
    {
        proof {
            bound_dot(self@, normal@, UNIT_LIMIT as int, UNIT_LIMIT as int);
            bound_scale(normal@, 2 * v3_dot(self@, normal@), UNIT_LIMIT as int, 0x80_0000);
        }
        let d = self.dot(normal);
        self.sub(normal.scale(d.add(d)))
    }

    /// Refracted direction for an incident unit direction, unit normal and
    /// refraction ratio, after Snell's law.
    pub fn refract(self, normal: Vec3, etai_over_etao: Fx) -> (r: Vec3)
        requires
            v3_bounded(self@, UNIT_LIMIT as int),
            v3_bounded(normal@, UNIT_LIMIT as int),
            0 <= etai_over_etao.v() <= UNIT_LIMIT as int,
        ensures
            r@ == v3_refract(self@, normal@, etai_over_etao.v()),
            v3_bounded(r@, 0x2400_0000),
    {
        proof {
            bound_dot(v3_neg(self@), normal@, UNIT_LIMIT as int, UNIT_LIMIT as int);
        }
        let cos_theta = self.neg().dot(normal).min(Fx::one());
        proof {
            bound_scale(normal@, cos_theta.v(), UNIT_LIMIT as int, 0x30_0000);
            bound_scale(
                v3_add(self@, v3_scale(normal@, cos_theta.v())),
                etai_over_etao.v(),
                0xC4_0000,
                UNIT_LIMIT as int,
            );
        }
        let r_perp = self.add(normal.scale(cos_theta)).scale(etai_over_etao);
        proof {
            bound_dot(r_perp@, r_perp@, 0x310_0000, 0x310_0000);
            lemma_fx_square_nonneg(r_perp@.x);
            lemma_fx_square_nonneg(r_perp@.y);
            lemma_fx_square_nonneg(r_perp@.z);
        }
        let k = Fx::one().sub(r_perp.len_sqr()).abs().sqrt();
        proof {
            lemma_isqrt_bound(
                iabs(SCALE as int - v3_dot(r_perp@, r_perp@)) * SCALE as int,
                k.v(),
                0x800_0000,
            );
            bound_scale(normal@, -k.v(), UNIT_LIMIT as int, 0x800_0000);
        }
        let r_para = normal.scale(k.neg());
        r_perp.add(r_para)
    }

    /// Rotation by the angle whose cosine and sine are given, in the plane of
    /// the two axes other than x.
    pub fn rot_x(self, c: Fx, s: Fx) -> (r: Vec3)
        requires
            v3_bounded(self@, ROT_LIMIT as int),
            iabs(c.v()) <= 2 * SCALE as int,
            iabs(s.v()) <= 2 * SCALE as int,
        ensures
            r@ == v3_rot_x(self@, c.v(), s.v()),
            v3_bounded(r@, VEC_LIMIT as int),
    {
        proof {
            rot_bounds(self@, c.v(), s.v());
        }
        Vec3 {
            x: self.x,
            y: self.y.mul(c).add(self.z.mul(s)),
            z: self.z.mul(c).sub(self.y.mul(s)),
        }
    }

    /// Rotation in the zx-plane (about the y axis).
    pub fn rot_y(self, c: Fx, s: Fx) -> (r: Vec3)
        requires
            v3_bounded(self@, ROT_LIMIT as int),
            iabs(c.v()) <= 2 * SCALE as int,
            iabs(s.v()) <= 2 * SCALE as int,
        ensures
            r@ == v3_rot_y(self@, c.v(), s.v()),
            v3_bounded(r@, VEC_LIMIT as int),
    {
        proof {
            rot_bounds(self@, c.v(), s.v());
        }
        Vec3 {
            x: self.x.mul(c).add(self.z.mul(s)),
            y: self.y,
            z: self.z.mul(c).sub(self.x.mul(s)),
        }
    }

    /// Rotation in the xy-plane (about the z axis).
    pub fn rot_z(self, c: Fx, s: Fx) -> (r: Vec3)
        requires
            v3_bounded(self@, ROT_LIMIT as int),
            iabs(c.v()) <= 2 * SCALE as int,
            iabs(s.v()) <= 2 * SCALE as int,
        ensures
            r@ == v3_rot_z(self@, c.v(), s.v()),
            v3_bounded(r@, VEC_LIMIT as int),
    {
        proof {
            rot_bounds(self@, c.v(), s.v());
        }
        Vec3 {
            x: self.x.mul(c).add(self.y.mul(s)),
            y: self.y.mul(c).sub(self.x.mul(s)),
            z: self.z,
        }
    }

    /// Divide every component by a scalar.
    pub fn div_k(self, k: Fx) -> (r: Vec3)
        requires
            v3_bounded(self@, VEC_LIMIT as int),
            k.v() != 0,
        ensures
            r@ == v3_div_k(self@, k.v()),
    {
        proof {
            lemma_mul_bound(self@.x, SCALE as int, VEC_LIMIT as int, SCALE as int);
            lemma_mul_bound(self@.y, SCALE as int, VEC_LIMIT as int, SCALE as int);
            lemma_mul_bound(self@.z, SCALE as int, VEC_LIMIT as int, SCALE as int);
            lemma_tdiv_bound(self@.x * SCALE as int, k.v());
            lemma_tdiv_bound(self@.y * SCALE as int, k.v());
            lemma_tdiv_bound(self@.z * SCALE as int, k.v());
        }
        Vec3 { x: self.x.div(k), y: self.y.div(k), z: self.z.div(k) }
    }

    /// Cap every component's magnitude at `m`.
    pub fn clamp_comps(self, m: i64) -> (r: Vec3)
        requires
            0 < m,
        ensures
            r@ == v3_clamp(self@, m as int),
            v3_bounded(r@, m as int),
    {
        Vec3 {
            x: clamp_to(self.x, m),
            y: clamp_to(self.y, m),
            z: clamp_to(self.z, m),
        }
    }

    pub fn red() -> (r: Color)
        ensures
            r@ == (V3i { x: SCALE as int, y: 0, z: 0 }),
    {
        Vec3 { x: Fx::one(), y: Fx::zero(), z: Fx::zero() }
    }

    pub fn green() -> (r: Color)
        ensures
            r@ == (V3i { x: 0, y: SCALE as int, z: 0 }),
    {
        Vec3 { x: Fx::zero(), y: Fx::one(), z: Fx::zero() }
    }

    pub fn blue() -> (r: Color)
        ensures
            r@ == (V3i { x: 0, y: 0, z: SCALE as int }),
    {
        Vec3 { x: Fx::zero(), y: Fx::zero(), z: Fx::one() }
    }

    pub fn white() -> (r: Color)
        ensures
            r@ == (V3i { x: SCALE as int, y: SCALE as int, z: SCALE as int }),
    {
        Vec3 { x: Fx::one(), y: Fx::one(), z: Fx::one() }
    }
}

/// Bound that unit-length directions and normals satisfy with margin.
pub const UNIT_LIMIT: i64 = 0x4_0000;

/// Bound on vectors handed to the rotation helpers.
pub const ROT_LIMIT: i64 = 0x10_0000_0000;

pub open spec fn clamp_i(x: int, m: int) -> int {
    if x > m { m } else if x < -m { -m } else { x }
}

pub open spec fn v3_near_zero(a: V3i) -> bool {
    iabs(a.x) < 8 && iabs(a.y) < 8 && iabs(a.z) < 8
}

pub open spec fn v3_norm(a: V3i) -> V3i {
    let l = fx_sqrt(v3_dot(a, a));
    if l == 0 {
        V3i { x: 0, y: 0, z: 0 }
    } else {
        V3i {
            x: clamp_i(fx_div(a.x, l), 2 * SCALE as int),
            y: clamp_i(fx_div(a.y, l), 2 * SCALE as int),
            z: clamp_i(fx_div(a.z, l), 2 * SCALE as int),
        }
    }
}

pub open spec fn v3_reflect(a: V3i, n: V3i) -> V3i {
    v3_sub(a, v3_scale(n, 2 * v3_dot(a, n)))
}

pub open spec fn v3_refract(a: V3i, n: V3i, k: int) -> V3i {
    let cos_theta = if v3_dot(v3_neg(a), n) <= SCALE as int {
        v3_dot(v3_neg(a), n)
    } else {
        SCALE as int
    };
    let r_perp = v3_scale(v3_add(a, v3_scale(n, cos_theta)), k);
    let para_len = fx_sqrt(iabs(SCALE as int - v3_dot(r_perp, r_perp)));
    v3_add(r_perp, v3_scale(n, -para_len))
}

pub open spec fn v3_rot_x(a: V3i, c: int, s: int) -> V3i {
    V3i {
        x: a.x,
        y: fx_mul(a.y, c) + fx_mul(a.z, s),
        z: fx_mul(a.z, c) - fx_mul(a.y, s),
    }
}

pub open spec fn v3_rot_y(a: V3i, c: int, s: int) -> V3i {
    V3i {
        x: fx_mul(a.x, c) + fx_mul(a.z, s),
        y: a.y,
        z: fx_mul(a.z, c) - fx_mul(a.x, s),
    }
}

pub open spec fn v3_rot_z(a: V3i, c: int, s: int) -> V3i {
    V3i {
        x: fx_mul(a.x, c) + fx_mul(a.y, s),
        y: fx_mul(a.y, c) - fx_mul(a.x, s),
        z: a.z,
    }
}

pub open spec fn v3_div_k(a: V3i, k: int) -> V3i {
    V3i { x: fx_div(a.x, k), y: fx_div(a.y, k), z: fx_div(a.z, k) }
}

pub open spec fn v3_clamp(a: V3i, m: int) -> V3i {
    V3i { x: clamp_i(a.x, m), y: clamp_i(a.y, m), z: clamp_i(a.z, m) }
}

/// Cap a scalar's magnitude at two units.
fn clamp_mag(x: Fx) -> (r: Fx)
    ensures
        r.v() == clamp_i(x.v(), 2 * SCALE as int),
        iabs(r.v()) <= UNIT_LIMIT as int,
{
    clamp_to(x, 2 * SCALE)
}

/// Cap a scalar's magnitude at `m`.
fn clamp_to(x: Fx, m: i64) -> (r: Fx)
    requires
        0 < m,
    ensures
        r.v() == clamp_i(x.v(), m as int),
        iabs(r.v()) <= m as int,
{
    if x.raw > m {
        Fx { raw: m }
    } else if x.raw < -m {
        Fx { raw: -m }
    } else {
        x
    }
}

/// Componentwise magnitude bound for a scaled vector.
pub proof fn bound_scale(a: V3i, k: int, m: int, n: int)
    requires
        v3_bounded(a, m),
        iabs(k) <= n,
        0 <= m,
        0 <= n,
    ensures
        v3_bounded(v3_scale(a, k), (m * n) / (SCALE as int)),
{
    lemma_fx_mul_le(a.x, k, m, n);
    lemma_fx_mul_le(a.y, k, m, n);
    lemma_fx_mul_le(a.z, k, m, n);
}

/// Magnitude bound for a dot product of bounded vectors.
pub proof fn bound_dot(a: V3i, b: V3i, m: int, n: int)
    requires
        v3_bounded(a, m),
        v3_bounded(b, n),
        0 <= m,
        0 <= n,
    ensures
        iabs(v3_dot(a, b)) <= 3 * ((m * n) / (SCALE as int)),
{
    lemma_fx_mul_le(a.x, b.x, m, n);
    lemma_fx_mul_le(a.y, b.y, m, n);
    lemma_fx_mul_le(a.z, b.z, m, n);
}

/// Both rotated components of a rotation stay in 64-bit range.
proof fn rot_bounds(a: V3i, c: int, s: int)
    requires
        v3_bounded(a, ROT_LIMIT as int),
        iabs(c) <= 2 * SCALE as int,
        iabs(s) <= 2 * SCALE as int,
    ensures
        iabs(fx_mul(a.x, c)) <= 2 * ROT_LIMIT as int,
        iabs(fx_mul(a.y, c)) <= 2 * ROT_LIMIT as int,
        iabs(fx_mul(a.z, c)) <= 2 * ROT_LIMIT as int,
        iabs(fx_mul(a.x, s)) <= 2 * ROT_LIMIT as int,
        iabs(fx_mul(a.y, s)) <= 2 * ROT_LIMIT as int,
        iabs(fx_mul(a.z, s)) <= 2 * ROT_LIMIT as int,
{
    lemma_fx_mul_le(a.x, c, ROT_LIMIT as int, 2 * SCALE as int);
    lemma_fx_mul_le(a.y, c, ROT_LIMIT as int, 2 * SCALE as int);
    lemma_fx_mul_le(a.z, c, ROT_LIMIT as int, 2 * SCALE as int);
    lemma_fx_mul_le(a.x, s, ROT_LIMIT as int, 2 * SCALE as int);
    lemma_fx_mul_le(a.y, s, ROT_LIMIT as int, 2 * SCALE as int);
    lemma_fx_mul_le(a.z, s, ROT_LIMIT as int, 2 * SCALE as int);
}

} // verus!
