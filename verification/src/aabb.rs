//! Axis-aligned bounding boxes and the slab test.
//!
//! The slab test here is exact: `hit` returns true precisely when some ray
//! parameter strictly inside the query range lies within every axis slab,
//! where each slab is widened by one raw unit so that the one unit of
//! truncation in evaluating a ray position can never push a genuine hit
//! outside its box. That exactness is what makes hierarchy pruning provably
//! lossless.

use vstd::prelude::*;
use crate::fx::{Fx, iabs, tdiv, fx_mul, SCALE, ceil_div128, floor_div128, lemma_mul_bound,
    lemma_mul_mono, lemma_tdiv_close};
use crate::interval::Interval;
use crate::ray::{Ray3, ray_wf, ray_at};
use crate::vec::V3i;

verus! {

#[derive(Clone, Copy, PartialEq, Eq, Structural, Debug)]
pub struct AABB {
    pub x: Interval,
    pub y: Interval,
    pub z: Interval,
}

/// `t` lies in this axis's slab, with one raw unit of slack on each side.
pub open spec fn ax_mem(minv: int, maxv: int, o: int, d: int, t: int) -> bool {
    (minv - o - 1) * SCALE as int <= d * t <= (maxv - o + 1) * SCALE as int
}

/// Some parameter strictly inside `(t0, t1)` lies in all three slabs.
pub open spec fn slab_hit(b: AABB, o: V3i, d: V3i, t0: int, t1: int) -> bool {
    exists|t: int|
        t0 < t < t1 && #[trigger] ax_mem(b.x.min.v(), b.x.max.v(), o.x, d.x, t)
            && ax_mem(b.y.min.v(), b.y.max.v(), o.y, d.y, t)
            && ax_mem(b.z.min.v(), b.z.max.v(), o.z, d.z, t)
}

/// The point lies inside the box (inclusive on every axis).
pub open spec fn pt_in_box(b: AABB, p: V3i) -> bool {
    &&& b.x.min.v() <= p.x <= b.x.max.v()
    &&& b.y.min.v() <= p.y <= b.y.max.v()
    &&& b.z.min.v() <= p.z <= b.z.max.v()
}

/// The per-axis union of two boxes, selecting the smaller minimum and the
/// larger maximum on every axis.
pub open spec fn union_box(a: AABB, b: AABB) -> AABB {
    AABB {
        x: Interval {
            min: if a.x.min.v() <= b.x.min.v() { a.x.min } else { b.x.min },
            max: if a.x.max.v() >= b.x.max.v() { a.x.max } else { b.x.max },
        },
        y: Interval {
            min: if a.y.min.v() <= b.y.min.v() { a.y.min } else { b.y.min },
            max: if a.y.max.v() >= b.y.max.v() { a.y.max } else { b.y.max },
        },
        z: Interval {
            min: if a.z.min.v() <= b.z.min.v() { a.z.min } else { b.z.min },
            max: if a.z.max.v() >= b.z.max.v() { a.z.max } else { b.z.max },
        },
    }
}

/// Every point of `inner` lies in `outer`.
pub open spec fn box_contains(outer: AABB, inner: AABB) -> bool {
    &&& outer.x.min.v() <= inner.x.min.v() && inner.x.max.v() <= outer.x.max.v()
    &&& outer.y.min.v() <= inner.y.min.v() && inner.y.max.v() <= outer.y.max.v()
    &&& outer.z.min.v() <= inner.z.min.v() && inner.z.max.v() <= outer.z.max.v()
}

/// Bound every stored primitive box obeys.
pub const BOX_LIMIT: i64 = 0x2_0000_0000;

/// All six bounds have magnitude at most `m`.
pub open spec fn aabb_bounded(b: AABB, m: int) -> bool {
    &&& iabs(b.x.min.v()) <= m && iabs(b.x.max.v()) <= m
    &&& iabs(b.y.min.v()) <= m && iabs(b.y.max.v()) <= m
    &&& iabs(b.z.min.v()) <= m && iabs(b.z.max.v()) <= m
}

/// A ray position inside a box passes the box's slab test: the widened slabs
/// absorb the single unit of truncation in `ray_at`.
pub proof fn lemma_point_mem(b: AABB, o: V3i, d: V3i, t: int, t0: int, t1: int)
    requires
        pt_in_box(b, ray_at(o, d, t)),
        t0 < t < t1,
    ensures
        slab_hit(b, o, d, t0, t1),
{
    lemma_axis_point_mem(b.x.min.v(), b.x.max.v(), o.x, d.x, t);
    lemma_axis_point_mem(b.y.min.v(), b.y.max.v(), o.y, d.y, t);
    lemma_axis_point_mem(b.z.min.v(), b.z.max.v(), o.z, d.z, t);
}

proof fn lemma_axis_point_mem(minv: int, maxv: int, o: int, d: int, t: int)
    requires
        minv <= o + fx_mul(d, t) <= maxv,
    ensures
        ax_mem(minv, maxv, o, d, t),
{
    let q = tdiv(d * t, SCALE as int);
    lemma_tdiv_close(d * t, SCALE as int);
    lemma_mul_mono(minv - o - 1, q - 1, SCALE as int);
    lemma_mul_mono(q + 1, maxv - o + 1, SCALE as int);
}

/// Growing the box keeps every slab membership.
pub proof fn lemma_slab_mono(outer: AABB, inner: AABB, o: V3i, d: V3i, t0: int, t1: int)
    requires
        box_contains(outer, inner),
        slab_hit(inner, o, d, t0, t1),
    ensures
        slab_hit(outer, o, d, t0, t1),
{
    let t = choose|t: int|
        t0 < t < t1 && #[trigger] ax_mem(inner.x.min.v(), inner.x.max.v(), o.x, d.x, t)
            && ax_mem(inner.y.min.v(), inner.y.max.v(), o.y, d.y, t)
            && ax_mem(inner.z.min.v(), inner.z.max.v(), o.z, d.z, t);
    lemma_axis_mem_mono(inner.x.min.v(), inner.x.max.v(), outer.x.min.v(), outer.x.max.v(),
        o.x, d.x, t);
    lemma_axis_mem_mono(inner.y.min.v(), inner.y.max.v(), outer.y.min.v(), outer.y.max.v(),
        o.y, d.y, t);
    lemma_axis_mem_mono(inner.z.min.v(), inner.z.max.v(), outer.z.min.v(), outer.z.max.v(),
        o.z, d.z, t);
}

proof fn lemma_axis_mem_mono(mi: int, ma: int, mo: int, mao: int, o: int, d: int, t: int)
    requires
        ax_mem(mi, ma, o, d, t),
        mo <= mi,
        ma <= mao,
    ensures
        ax_mem(mo, mao, o, d, t),
{
    lemma_mul_mono(mo - o - 1, mi - o - 1, SCALE as int);
    lemma_mul_mono(ma - o + 1, mao - o + 1, SCALE as int);
}

impl AABB {
    pub fn new(x: Interval, y: Interval, z: Interval) -> (r: AABB)
        ensures
            r == (AABB { x, y, z }),
    {
        AABB { x, y, z }
    }

    /// The empty box, the identity for `from_bboxes`.
    pub fn empty() -> (r: AABB)
        ensures
            r.x.min.v() == crate::fx::T_LIMIT as int,
            r.x.max.v() == -(crate::fx::T_LIMIT as int),
            r.y == r.x && r.z == r.x,
    {
        AABB { x: Interval::empty(), y: Interval::empty(), z: Interval::empty() }
    }

    /// Smallest box containing the two points.
    pub fn from_points(a: &crate::vec::Point, b: &crate::vec::Point) -> (r: AABB)
        ensures
            r.x.min.v() == if a@.x <= b@.x { a@.x } else { b@.x },
            r.x.max.v() == if a@.x <= b@.x { b@.x } else { a@.x },
            r.y.min.v() == if a@.y <= b@.y { a@.y } else { b@.y },
            r.y.max.v() == if a@.y <= b@.y { b@.y } else { a@.y },
            r.z.min.v() == if a@.z <= b@.z { a@.z } else { b@.z },
            r.z.max.v() == if a@.z <= b@.z { b@.z } else { a@.z },
    {
        AABB {
            x: if a.x.le(b.x) {
                Interval { min: a.x, max: b.x }
            } else {
                Interval { min: b.x, max: a.x }
            },
            y: if a.y.le(b.y) {
                Interval { min: a.y, max: b.y }
            } else {
                Interval { min: b.y, max: a.y }
            },
            z: if a.z.le(b.z) {
                Interval { min: a.z, max: b.z }
            } else {
                Interval { min: b.z, max: a.z }
            },
        }
    }

    /// Union: the smallest box containing both boxes.
    pub fn from_bboxes(a: &AABB, b: &AABB) -> (r: AABB)
        ensures
            r == union_box(*a, *b),
            box_contains(r, *a),
            box_contains(r, *b),
    {
        AABB {
            x: Interval::union(&a.x, &b.x),
            y: Interval::union(&a.y, &b.y),
            z: Interval::union(&a.z, &b.z),
        }
    }

    /// Expand any axis thinner than the padding threshold, so that planar
    /// primitives get boxes the slab test can work with.
    pub fn maybe_pad(self) -> (r: AABB)
        requires
            aabb_bounded(self, 0x1000_0000_0000_0000),
        ensures
            r.x == pad_iv(self.x),
            r.y == pad_iv(self.y),
            r.z == pad_iv(self.z),
            box_contains(r, self),
            self.x.min.v() - PAD_DELTA as int <= r.x.min.v()
                && r.x.max.v() <= self.x.max.v() + PAD_DELTA as int,
            self.y.min.v() - PAD_DELTA as int <= r.y.min.v()
                && r.y.max.v() <= self.y.max.v() + PAD_DELTA as int,
            self.z.min.v() - PAD_DELTA as int <= r.z.min.v()
                && r.z.max.v() <= self.z.max.v() + PAD_DELTA as int,
    {
        let delta: i64 = PAD_DELTA;
        AABB {
            x: if self.x.max.sub(self.x.min).raw <= delta {
                self.x.expand(Fx { raw: delta })
            } else {
                self.x
            },
            y: if self.y.max.sub(self.y.min).raw <= delta {
                self.y.expand(Fx { raw: delta })
            } else {
                self.y
            },
            z: if self.z.max.sub(self.z.min).raw <= delta {
                self.z.expand(Fx { raw: delta })
            } else {
                self.z
            },
        }
    }

    pub fn axis_interval(&self, index: usize) -> (r: &Interval)
        requires
            index < 3,
        ensures
            index == 0 ==> r == self.x,
            index == 1 ==> r == self.y,
            index == 2 ==> r == self.z,
    {
        match index {
            0 => &self.x,
            1 => &self.y,
            _ => &self.z,
        }
    }

    /// Translate the whole box.
    pub fn shift(self, offset: crate::vec::Vec3) -> (r: AABB)
        requires
            aabb_bounded(self, 0x1000_0000_0000_0000),
            crate::vec::v3_bounded(offset@, 0x1000_0000_0000_0000),
        ensures
            r.x.min.v() == self.x.min.v() + offset@.x,
            r.x.max.v() == self.x.max.v() + offset@.x,
            r.y.min.v() == self.y.min.v() + offset@.y,
            r.y.max.v() == self.y.max.v() + offset@.y,
            r.z.min.v() == self.z.min.v() + offset@.z,
            r.z.max.v() == self.z.max.v() + offset@.z,
    {
        AABB {
            x: self.x.shift(offset.x),
            y: self.y.shift(offset.y),
            z: self.z.shift(offset.z),
        }
    }

    /// Whether the ray passes through the box within the given range: true
    /// exactly when some parameter strictly inside the range lies in all
    /// three (slack-widened) axis slabs.
    pub fn hit(&self, ray: &Ray3, t_range: Interval) -> (r: bool)
        requires
            ray_wf(*ray),
        ensures
            r == slab_hit(*self, ray.origin@, ray.dir@, t_range.min.v(), t_range.max.v()),
    {
        let lo0: i128 = (t_range.min.raw as i128) + 1;
        let hi0: i128 = (t_range.max.raw as i128) - 1;
        let (l1, h1) = axis_clip(ray.origin.x, ray.dir.x, self.x, lo0, hi0);
        let (l2, h2) = axis_clip(ray.origin.y, ray.dir.y, self.y, l1, h1);
        let (l3, h3) = axis_clip(ray.origin.z, ray.dir.z, self.z, l2, h2);
        if l3 <= h3 {
            proof {
                let t = l3 as int;
                assert(ray.origin@.x == ray.origin.x.v() && ray.dir@.x == ray.dir.x.v());
                assert(ray.origin@.y == ray.origin.y.v() && ray.dir@.y == ray.dir.y.v());
                assert(ray.origin@.z == ray.origin.z.v() && ray.dir@.z == ray.dir.z.v());
                assert(win(l3 as int, h3 as int, t));
                assert(win(l2 as int, h2 as int, t)
                    && ax_mem(self.z.min.v(), self.z.max.v(), ray.origin.z.v(), ray.dir.z.v(),
                        t));
                assert(win(l1 as int, h1 as int, t)
                    && ax_mem(self.y.min.v(), self.y.max.v(), ray.origin.y.v(), ray.dir.y.v(),
                        t));
                assert(win(lo0 as int, hi0 as int, t)
                    && ax_mem(self.x.min.v(), self.x.max.v(), ray.origin.x.v(), ray.dir.x.v(),
                        t));
                assert(t_range.min.v() < t < t_range.max.v());
            }
            true
        } else {
            proof {
                assert forall|t: int|
                    !(t_range.min.v() < t < t_range.max.v()
                        && #[trigger] ax_mem(self.x.min.v(), self.x.max.v(), ray.origin@.x,
                            ray.dir@.x, t)
                        && ax_mem(self.y.min.v(), self.y.max.v(), ray.origin@.y, ray.dir@.y, t)
                        && ax_mem(self.z.min.v(), self.z.max.v(), ray.origin@.z, ray.dir@.z,
                            t)) by {
                    assert(ray.origin@.x == ray.origin.x.v() && ray.dir@.x == ray.dir.x.v());
                    assert(ray.origin@.y == ray.origin.y.v() && ray.dir@.y == ray.dir.y.v());
                    assert(ray.origin@.z == ray.origin.z.v() && ray.dir@.z == ray.dir.z.v());
                    if t_range.min.v() < t < t_range.max.v()
                        && ax_mem(self.x.min.v(), self.x.max.v(), ray.origin@.x, ray.dir@.x, t)
                        && ax_mem(self.y.min.v(), self.y.max.v(), ray.origin@.y, ray.dir@.y, t)
                        && ax_mem(self.z.min.v(), self.z.max.v(), ray.origin@.z, ray.dir@.z,
                            t) {
                        assert(win(lo0 as int, hi0 as int, t));
                        assert(win(l1 as int, h1 as int, t));
                        assert(win(l2 as int, h2 as int, t));
                        assert(win(l3 as int, h3 as int, t));
                        assert(false);
                    }
                }
            }
            false
        }
    }
}

/// The slab test is symmetric under flipping the ray's direction together
/// with negating and swapping the ends of the parameter range: entry and
/// exit merely trade roles.
pub proof fn lemma_slab_flip(b: AABB, o: V3i, d: V3i, t0: int, t1: int)
    ensures
        slab_hit(b, o, d, t0, t1) == slab_hit(b, o, crate::vec::v3_neg(d), -t1, -t0),
{
    let nd = crate::vec::v3_neg(d);
    assert forall|t: int| #[trigger] ax_mem(b.x.min.v(), b.x.max.v(), o.x, d.x, t)
        == ax_mem(b.x.min.v(), b.x.max.v(), o.x, nd.x, -t) && ax_mem(b.y.min.v(),
        b.y.max.v(), o.y, d.y, t) == ax_mem(b.y.min.v(), b.y.max.v(), o.y, nd.y, -t)
        && ax_mem(b.z.min.v(), b.z.max.v(), o.z, d.z, t) == ax_mem(b.z.min.v(), b.z.max.v(),
        o.z, nd.z, -t) by {
        assert((-d.x) * (-t) == d.x * t && (-d.y) * (-t) == d.y * t && (-d.z) * (-t) == d.z
            * t) by (nonlinear_arith);
    }
    if slab_hit(b, o, d, t0, t1) {
        let t = choose|t: int| t0 < t < t1 && #[trigger] ax_mem(b.x.min.v(), b.x.max.v(), o.x,
            d.x, t) && ax_mem(b.y.min.v(), b.y.max.v(), o.y, d.y, t) && ax_mem(b.z.min.v(),
            b.z.max.v(), o.z, d.z, t);
        assert(-t1 < -t < -t0 && ax_mem(b.x.min.v(), b.x.max.v(), o.x, nd.x, -t)
            && ax_mem(b.y.min.v(), b.y.max.v(), o.y, nd.y, -t) && ax_mem(b.z.min.v(),
            b.z.max.v(), o.z, nd.z, -t));
    }
    if slab_hit(b, o, nd, -t1, -t0) {
        let t = choose|t: int| -t1 < t < -t0 && #[trigger] ax_mem(b.x.min.v(), b.x.max.v(),
            o.x, nd.x, t) && ax_mem(b.y.min.v(), b.y.max.v(), o.y, nd.y, t)
            && ax_mem(b.z.min.v(), b.z.max.v(), o.z, nd.z, t);
        assert(t0 < -t < t1 && ax_mem(b.x.min.v(), b.x.max.v(), o.x, d.x, -t)
            && ax_mem(b.y.min.v(), b.y.max.v(), o.y, d.y, -t) && ax_mem(b.z.min.v(),
            b.z.max.v(), o.z, d.z, -t));
    }
}

/// An axis along which the ray does not move never rejects a box whose slab
/// contains the ray's origin: the membership holds for every parameter.
pub proof fn lemma_zero_axis_inside(minv: int, maxv: int, o: int, t: int)
    requires
        minv <= o <= maxv,
    ensures
        ax_mem(minv, maxv, o, 0, t),
{
    assert(0 * t == 0) by (nonlinear_arith);
    lemma_mul_mono(minv - o - 1, -1, SCALE as int);
    lemma_mul_mono(1, maxv - o + 1, SCALE as int);
}

/// Threshold and padding amount for degenerate axes (about 1/8192 unit).
pub const PAD_DELTA: i64 = 8;

/// One axis interval after `maybe_pad`.
pub open spec fn pad_iv(iv: Interval) -> Interval {
    if iv.max.v() - iv.min.v() <= PAD_DELTA as int {
        Interval {
            min: Fx { raw: (iv.min.v() - PAD_DELTA as int / 2) as i64 },
            max: Fx { raw: (iv.max.v() + PAD_DELTA as int / 2) as i64 },
        }
    } else {
        iv
    }
}

/// `t` lies in the closed window `[lo, hi]`.
pub open spec fn win(lo: int, hi: int, t: int) -> bool {
    lo <= t <= hi
}

/// Intersect the running `t` window `[lo, hi]` with one axis slab; after the
/// call, a parameter lies in the result window exactly when it lay in the old
/// window and in the slab.
fn axis_clip(o: Fx, d: Fx, iv: Interval, lo: i128, hi: i128) -> (r: (i128, i128))
    requires
        d.v() != i64::MIN as int,
    ensures
        forall|t: int| #![trigger win(r.0 as int, r.1 as int, t)]
            win(r.0 as int, r.1 as int, t) <==> (win(lo as int, hi as int, t)
                && ax_mem(iv.min.v(), iv.max.v(), o.v(), d.v(), t)),
{
    proof {
        lemma_mul_bound(iv.min.v() - o.v() - 1, SCALE as int, 0x2_0000_0000_0000_0000,
            SCALE as int);
        lemma_mul_bound(iv.max.v() - o.v() + 1, SCALE as int, 0x2_0000_0000_0000_0000,
            SCALE as int);
    }
    let m_lo: i128 = ((iv.min.raw as i128) - (o.raw as i128) - 1) * (SCALE as i128);
    let m_hi: i128 = ((iv.max.raw as i128) - (o.raw as i128) + 1) * (SCALE as i128);
    if d.raw == 0 {
        if m_lo <= 0 && m_hi >= 0 {
            proof {
                assert forall|t: int| ax_mem(iv.min.v(), iv.max.v(), o.v(), d.v(), t) by {
                    assert(d.v() * t == 0) by (nonlinear_arith)
                        requires
                            d.v() == 0,
                    ;
                }
            }
            (lo, hi)
        } else {
            proof {
                assert forall|t: int| !ax_mem(iv.min.v(), iv.max.v(), o.v(), d.v(), t) by {
                    assert(d.v() * t == 0) by (nonlinear_arith)
                        requires
                            d.v() == 0,
                    ;
                }
            }
            (1, 0)
        }
    } else {
        let (dd, w_lo, w_hi): (i128, i128, i128) = if d.raw > 0 {
            (d.raw as i128, m_lo, m_hi)
        } else {
            ((-d.raw) as i128, -m_hi, -m_lo)
        };
        let ax_lo = ceil_div128(w_lo, dd);
        let ax_hi = floor_div128(w_hi, dd);
        let nlo = if lo >= ax_lo { lo } else { ax_lo };
        let nhi = if hi <= ax_hi { hi } else { ax_hi };
        proof {
            let ddi = dd as int;
            let dv = d.v();
            assert forall|t: int| #![trigger win(nlo as int, nhi as int, t)]
                win(nlo as int, nhi as int, t) <==> (win(lo as int, hi as int, t)
                    && ax_mem(iv.min.v(), iv.max.v(), o.v(), dv, t)) by {
                assert(dv * t == if dv > 0 { ddi * t } else { -(ddi * t) }) by (nonlinear_arith)
                    requires
                        ddi == if dv > 0 { dv } else { -dv },
                ;
                if t >= ax_lo as int {
                    lemma_mul_mono(ax_lo as int, t, ddi);
                }
                if t <= ax_hi as int {
                    lemma_mul_mono(t, ax_hi as int, ddi);
                }
                if t < ax_lo as int {
                    lemma_mul_mono(t, ax_lo as int - 1, ddi);
                }
                if t > ax_hi as int {
                    lemma_mul_mono(ax_hi as int + 1, t, ddi);
                }
            }
        }
        (nlo, nhi)
    }
}

} // verus!
