//! Parallelogram primitives: a plane from two edge vectors, with planar
//! containment coordinates.

use vstd::prelude::*;
use crate::fx::{Fx, fx_mul, fx_div, iabs, is_isqrt, SCALE, COORD_LIMIT, lemma_mul_bound,
    lemma_tdiv_bound, lemma_tdiv_exact};
use crate::vec::{Vec3, Point, V3i, v3_bounded, v3_sub, v3_neg, v3_dot, v3_cross, v3_div_k,
    v3_clamp, v3_norm, UNIT_LIMIT, bound_dot, lemma_fx_mul_le};
use crate::interval::Interval;
use crate::ray::{Ray3, ray_wf, ray_at, at_in_range, Hit, HitView, opt_hit_view, clip_hit};
use crate::aabb::{AABB, pt_in_box, aabb_bounded, BOX_LIMIT};

verus! {

/// Largest edge-vector component a planar primitive accepts (512 units).
pub const EDGE_LIMIT: i64 = 0x200_0000;

/// How far a planar primitive's padded box can reach from its corner point.
pub const SPAN_LIMIT: i64 = 0x400_0010;

/// A parallelogram with corner `q`, edges `u` and `v`, its unit plane normal
/// `n`, plane constant `d` and the cached planar-coordinate vector `w`.
#[derive(Clone, Copy, PartialEq, Eq, Structural, Debug)]
pub struct Quad {
    pub q: Point,
    pub v: Vec3,
    pub u: Vec3,
    pub n: Vec3,
    pub w: Vec3,
    pub d: Fx,
    pub mat: usize,
    pub bbox: AABB,
}

pub open spec fn quad_wf(qd: Quad) -> bool {
    &&& v3_bounded(qd.q@, COORD_LIMIT as int)
    &&& v3_bounded(qd.v@, EDGE_LIMIT as int)
    &&& v3_bounded(qd.u@, EDGE_LIMIT as int)
    &&& v3_bounded(qd.n@, UNIT_LIMIT as int)
    &&& v3_bounded(qd.w@, UNIT_LIMIT as int)
    &&& iabs(qd.d.v()) <= 0x6_0000_0000
    &&& aabb_bounded(qd.bbox, BOX_LIMIT as int)
    &&& box_near(qd.bbox, qd.q@)
}

/// The box reaches at most `SPAN_LIMIT` from the corner on every axis.
pub open spec fn box_near(b: AABB, q: V3i) -> bool {
    &&& q.x - SPAN_LIMIT as int <= b.x.min.v() && b.x.max.v() <= q.x + SPAN_LIMIT as int
    &&& q.y - SPAN_LIMIT as int <= b.y.min.v() && b.y.max.v() <= q.y + SPAN_LIMIT as int
    &&& q.z - SPAN_LIMIT as int <= b.z.min.v() && b.z.max.v() <= q.z + SPAN_LIMIT as int
}

/// The unit plane normal of the parallelogram, zero when the edges are
/// (numerically) parallel.
pub open spec fn quad_n(u: V3i, v: V3i) -> V3i {
    let n_raw = v3_cross(u, v);
    if v3_dot(n_raw, n_raw) <= 0 {
        V3i { x: 0, y: 0, z: 0 }
    } else {
        v3_norm(n_raw)
    }
}

/// The cached planar-coordinate vector, zero for degenerate edges.
pub open spec fn quad_w(u: V3i, v: V3i) -> V3i {
    let n_raw = v3_cross(u, v);
    if v3_dot(n_raw, n_raw) <= 0 {
        V3i { x: 0, y: 0, z: 0 }
    } else {
        v3_clamp(v3_div_k(n_raw, v3_dot(n_raw, n_raw)), UNIT_LIMIT as int)
    }
}

/// Ray/plane intersection parameter, or `None` for a (numerically) parallel
/// ray.
pub open spec fn plane_t(n: V3i, d_plane: int, o: V3i, dir: V3i) -> Option<int> {
    let denom = v3_dot(dir, n);
    if denom == 0 {
        None
    } else {
        Some(fx_div(d_plane - v3_dot(o, n), denom))
    }
}

/// Planar coordinates of a point relative to corner `q` and edges `u`, `v`,
/// through the cached vector `w`.
pub open spec fn planar_alpha(w: V3i, qp: V3i, v: V3i) -> int {
    v3_dot(w, v3_cross(qp, v))
}

pub open spec fn planar_beta(w: V3i, u: V3i, qp: V3i) -> int {
    v3_dot(w, v3_cross(u, qp))
}

/// The candidate intersection of a ray with the quad past `t0`: the plane
/// crossing, accepted when both planar coordinates are within [0, 1] and the
/// point lies in the quad's padded box.
pub open spec fn quad_rho(qd: Quad, ray: Ray3, t0: int) -> Option<HitView> {
    match plane_t(qd.n@, qd.d.v(), ray.origin@, ray.dir@) {
        None => None,
        Some(t) => if t0 < t {
            quad_finish(qd, ray, t)
        } else {
            None
        },
    }
}

pub open spec fn quad_finish(qd: Quad, ray: Ray3, t: int) -> Option<HitView> {
    if !at_in_range(ray.origin@, ray.dir@, t) {
        None
    } else {
        let p = ray_at(ray.origin@, ray.dir@, t);
        if !pt_in_box(qd.bbox, p) {
            None
        } else {
            let qp = v3_sub(p, qd.q@);
            let alpha = planar_alpha(qd.w@, qp, qd.v@);
            let beta = planar_beta(qd.w@, qd.u@, qp);
            if 0 <= alpha <= SCALE as int && 0 <= beta <= SCALE as int {
                let front = v3_dot(ray.dir@, qd.n@) < 0;
                Some(HitView {
                    p,
                    normal: if front { qd.n@ } else { v3_neg(qd.n@) },
                    u: alpha,
                    v: beta,
                    front_face: front,
                    t,
                    mat: qd.mat as int,
                })
            } else {
                None
            }
        }
    }
}

impl Quad {
    /// A quad spanned by `q`, `q + u`, `q + v`, `q + u + v`. Degenerate
    /// (parallel or vanishing) edges give a quad with a zero normal, which
    /// no ray ever hits; callers are expected to supply real geometry.
    pub fn new(q: Point, v: Vec3, u: Vec3, mat: usize) -> (r: Quad)
        requires
            v3_bounded(q@, COORD_LIMIT as int),
            v3_bounded(v@, EDGE_LIMIT as int),
            v3_bounded(u@, EDGE_LIMIT as int),
        ensures
            r.q == q,
            r.v == v,
            r.u == u,
            r.mat == mat,
            r.n@ == quad_n(u@, v@),
            r.w@ == quad_w(u@, v@),
            r.d.v() == v3_dot(quad_n(u@, v@), q@),
            r.bbox == quad_bbox(q@, v@, u@),
            quad_wf(r),
    {
        proof {
            bound_cross(u@, v@, EDGE_LIMIT as int, EDGE_LIMIT as int);
        }
        let n_raw = u.cross(v);
        let nn = n_raw.dot(n_raw);
        proof {
            bound_dot(n_raw@, n_raw@, 0x10_0000_0000, 0x10_0000_0000);
        }
        let (n, w) = if nn.raw <= 0 {
            proof {
                crate::vec::lemma_fx_square_nonneg(n_raw@.x);
                crate::vec::lemma_fx_square_nonneg(n_raw@.y);
                crate::vec::lemma_fx_square_nonneg(n_raw@.z);
            }
            (Vec3::zero(), Vec3::zero())
        } else {
            proof {
                lemma_mul_bound(n_raw@.x, SCALE as int, 0x10_0000_0000, SCALE as int);
                lemma_mul_bound(n_raw@.y, SCALE as int, 0x10_0000_0000, SCALE as int);
                lemma_mul_bound(n_raw@.z, SCALE as int, 0x10_0000_0000, SCALE as int);
                lemma_tdiv_bound(n_raw@.x * SCALE as int, v3_dot(n_raw@, n_raw@));
                lemma_tdiv_bound(n_raw@.y * SCALE as int, v3_dot(n_raw@, n_raw@));
                lemma_tdiv_bound(n_raw@.z * SCALE as int, v3_dot(n_raw@, n_raw@));
            }
            (n_raw.norm(), n_raw.div_k(nn).clamp_comps(UNIT_LIMIT))
        };
        proof {
            bound_dot(n@, q@, UNIT_LIMIT as int, COORD_LIMIT as int);
        }
        let d = n.dot(q);
        let bbox = Self::aabb(q, v, u);
        Quad { q, v, u, n, w, d, mat, bbox }
    }

    /// The padded box of the parallelogram: it spans the four corners, and a
    /// flat axis is widened so the slab test has a real box to work with.
    fn aabb(q: Point, v: Vec3, u: Vec3) -> (r: AABB)
        requires
            v3_bounded(q@, COORD_LIMIT as int),
            v3_bounded(v@, EDGE_LIMIT as int),
            v3_bounded(u@, EDGE_LIMIT as int),
        ensures
            r == quad_bbox(q@, v@, u@),
            aabb_bounded(r, BOX_LIMIT as int),
            box_near(r, q@),
    {
        AABB {
            x: axis_extent(q.x, q.x.add(v.x), q.x.add(u.x), q.x.add(v.x).add(u.x)),
            y: axis_extent(q.y, q.y.add(v.y), q.y.add(u.y), q.y.add(v.y).add(u.y)),
            z: axis_extent(q.z, q.z.add(v.z), q.z.add(u.z), q.z.add(v.z).add(u.z)),
        }
    }

    /// The closest intersection strictly inside the range: the clip of the
    /// quad's plane candidate to the range's upper end. Every primitive here
    /// accepts parameters strictly inside the range (a deliberate, uniform
    /// choice: with both ends open, coincident surfaces tie-break the same
    /// way however a scene is traversed; a hit exactly on the range's closed
    /// end would otherwise be kept or dropped depending on query order).
    pub fn hit(&self, ray: &Ray3, t_range: &Interval) -> (r: Option<Hit>)
        requires
            quad_wf(*self),
            ray_wf(*ray),
        ensures
            opt_hit_view(r) == clip_hit(quad_rho(*self, *ray, t_range.min.v()),
                t_range.max.v()),
    {
        let t = match plane_t_exec(self.n, self.d, ray) {
            Some(t) => t,
            None => {
                return None;
            },
        };
        if !(t_range.min.raw < t.raw && t.raw < t_range.max.raw) {
            return None;
        }
        let (p, alpha, beta) = match planar_parts(self.q, self.v, self.u, self.w, self.bbox, ray,
            t) {
            Some(parts) => parts,
            None => {
                return None;
            },
        };
        if !(0 <= alpha.raw && alpha.raw <= SCALE && 0 <= beta.raw && beta.raw <= SCALE) {
            return None;
        }
        proof {
            bound_dot(ray.dir@, self.n@, 0x2_0000_0000, UNIT_LIMIT as int);
        }
        let front = ray.dir.dot(self.n).raw < 0;
        Some(Hit {
            p,
            normal: if front { self.n } else { self.n.neg() },
            uv: (alpha, beta),
            front_face: front,
            t,
            mat: self.mat,
        })
    }
}

/// Exec twin of `plane_t`.
pub(crate) fn plane_t_exec(n: Vec3, d_plane: Fx, ray: &Ray3) -> (r: Option<Fx>)
    requires
        v3_bounded(n@, UNIT_LIMIT as int),
        iabs(d_plane.v()) <= 0x6_0000_0000,
        ray_wf(*ray),
    ensures
        match r {
            Some(t) => plane_t(n@, d_plane.v(), ray.origin@, ray.dir@) == Some(t.v()),
            None => plane_t(n@, d_plane.v(), ray.origin@, ray.dir@) is None,
        },
{
    proof {
        bound_dot(ray.dir@, n@, 0x2_0000_0000, UNIT_LIMIT as int);
        bound_dot(ray.origin@, n@, 0x2_0000_0000, UNIT_LIMIT as int);
    }
    let denom = ray.dir.dot(n);
    if denom.raw == 0 {
        return None;
    }
    let num = d_plane.sub(ray.origin.dot(n));
    proof {
        lemma_mul_bound(num.v(), SCALE as int, 0x24_0000_0000, SCALE as int);
        lemma_tdiv_bound(num.v() * SCALE as int, denom.v());
    }
    Some(num.div(denom))
}

/// Exec twin of the shared tail of the planar primitives: the hit point (if
/// representable and inside the stored box) and its planar coordinates.
pub(crate) fn planar_parts(q: Point, v: Vec3, u: Vec3, w: Vec3, bbox: AABB, ray: &Ray3, t: Fx)
    -> (r: Option<(Point, Fx, Fx)>)
    requires
        v3_bounded(q@, COORD_LIMIT as int),
        v3_bounded(v@, EDGE_LIMIT as int),
        v3_bounded(u@, EDGE_LIMIT as int),
        v3_bounded(w@, UNIT_LIMIT as int),
        box_near(bbox, q@),
        ray_wf(*ray),
    ensures
        match r {
            Some((p, alpha, beta)) => at_in_range(ray.origin@, ray.dir@, t.v())
                && p@ == ray_at(ray.origin@, ray.dir@, t.v()) && pt_in_box(bbox, p@)
                && alpha.v() == planar_alpha(w@, v3_sub(p@, q@), v@)
                && beta.v() == planar_beta(w@, u@, v3_sub(p@, q@)),
            None => !at_in_range(ray.origin@, ray.dir@, t.v())
                || !pt_in_box(bbox, ray_at(ray.origin@, ray.dir@, t.v())),
        },
{
    let p = match ray.at(t) {
        Some(p) => p,
        None => {
            return None;
        },
    };
    let inside = bbox.x.contains(p.x) && bbox.y.contains(p.y) && bbox.z.contains(p.z);
    if !inside {
        return None;
    }
    let qp = p.sub(q);
    proof {
        bound_cross(qp@, v@, 0x600_0010, EDGE_LIMIT as int);
        bound_cross(u@, qp@, EDGE_LIMIT as int, 0x600_0010);
        bound_dot(w@, v3_cross(qp@, v@), UNIT_LIMIT as int, 0x20_0000_0000);
        bound_dot(w@, v3_cross(u@, qp@), UNIT_LIMIT as int, 0x20_0000_0000);
    }
    let alpha = w.dot(qp.cross(v));
    let beta = w.dot(u.cross(qp));
    Some((p, alpha, beta))
}

/// The interval spanning four corner coordinates, widened by the padding
/// amount when it is thinner than that.
fn axis_extent(a: Fx, b: Fx, c: Fx, d2: Fx) -> (r: Interval)
    requires
        iabs(a.v()) <= 0x9000_0000,
        iabs(b.v()) <= 0x9000_0000,
        iabs(c.v()) <= 0x9000_0000,
        iabs(d2.v()) <= 0x9000_0000,
    ensures
        r == extent_iv(a.v(), b.v(), c.v(), d2.v()),
        imin4(a.v(), b.v(), c.v(), d2.v()) - 4 <= r.min.v()
            <= imin4(a.v(), b.v(), c.v(), d2.v()),
        imax4(a.v(), b.v(), c.v(), d2.v()) <= r.max.v()
            <= imax4(a.v(), b.v(), c.v(), d2.v()) + 4,
{
    let lo = a.min(b).min(c).min(d2);
    let hi = a.max(b).max(c).max(d2);
    if hi.raw - lo.raw <= 8 {
        Interval { min: Fx { raw: lo.raw - 4 }, max: Fx { raw: hi.raw + 4 } }
    } else {
        Interval { min: lo, max: hi }
    }
}

/// The exact interval `axis_extent` stores: the span of the four corner
/// coordinates, widened by the padding when thinner than it.
pub open spec fn extent_iv(a: int, b: int, c: int, d2: int) -> Interval {
    let lo = imin4(a, b, c, d2);
    let hi = imax4(a, b, c, d2);
    if hi - lo <= 8 {
        Interval { min: Fx { raw: (lo - 4) as i64 }, max: Fx { raw: (hi + 4) as i64 } }
    } else {
        Interval { min: Fx { raw: lo as i64 }, max: Fx { raw: hi as i64 } }
    }
}

/// The exact stored box of a parallelogram or triangle with corner `q` and
/// edges `v`, `u`: per axis, the padded span of the four corners.
pub open spec fn quad_bbox(q: V3i, v: V3i, u: V3i) -> AABB {
    AABB {
        x: extent_iv(q.x, q.x + v.x, q.x + u.x, q.x + v.x + u.x),
        y: extent_iv(q.y, q.y + v.y, q.y + u.y, q.y + v.y + u.y),
        z: extent_iv(q.z, q.z + v.z, q.z + u.z, q.z + v.z + u.z),
    }
}

pub open spec fn imin4(a: int, b: int, c: int, d2: int) -> int {
    let m1 = if a <= b { a } else { b };
    let m2 = if m1 <= c { m1 } else { c };
    if m2 <= d2 { m2 } else { d2 }
}

pub open spec fn imax4(a: int, b: int, c: int, d2: int) -> int {
    let m1 = if a >= b { a } else { b };
    let m2 = if m1 >= c { m1 } else { c };
    if m2 >= d2 { m2 } else { d2 }
}

/// Componentwise minimum and maximum, the box's two extreme corners.
pub open spec fn cw_min(a: V3i, b: V3i) -> V3i {
    V3i {
        x: if a.x <= b.x { a.x } else { b.x },
        y: if a.y <= b.y { a.y } else { b.y },
        z: if a.z <= b.z { a.z } else { b.z },
    }
}

pub open spec fn cw_max(a: V3i, b: V3i) -> V3i {
    V3i {
        x: if a.x >= b.x { a.x } else { b.x },
        y: if a.y >= b.y { a.y } else { b.y },
        z: if a.z >= b.z { a.z } else { b.z },
    }
}

/// Corner and edge vectors of the `k`-th face of the axis-aligned cuboid
/// with extreme corners `lo` and `hi`: front, right, back, left, top,
/// bottom.
pub open spec fn box_face(lo: V3i, hi: V3i, k: int) -> (V3i, V3i, V3i) {
    let dx = V3i { x: hi.x - lo.x, y: 0, z: 0 };
    let dy = V3i { x: 0, y: hi.y - lo.y, z: 0 };
    let dz = V3i { x: 0, y: 0, z: hi.z - lo.z };
    if k == 0 {
        (V3i { x: lo.x, y: lo.y, z: hi.z }, dy, dx)
    } else if k == 1 {
        (V3i { x: hi.x, y: lo.y, z: hi.z }, dy, dz)
    } else if k == 2 {
        (lo, dy, dx)
    } else if k == 3 {
        (lo, dy, dz)
    } else if k == 4 {
        (V3i { x: lo.x, y: hi.y, z: lo.z }, dz, dx)
    } else {
        (lo, dz, dx)
    }
}

/// The arena entry at `idx` is a quad with exactly this corner, these edges
/// and this material.
pub open spec fn face_at(w: Seq<crate::world::Primitive>, idx: int, face: (V3i, V3i, V3i),
    mat: int) -> bool {
    &&& 0 <= idx < w.len()
    &&& w[idx] matches crate::world::Primitive::Qd(qd) && qd.q@ == face.0 && qd.v@ == face.1
        && qd.u@ == face.2 && qd.mat == mat
}

impl Quad {
    /// The six faces of an axis-aligned box spanning the two corner points,
    /// registered in the world and gathered in a collection: front, right,
    /// back, left, top and bottom of the cuboid with extreme corners
    /// `min(a, b)` and `max(a, b)` taken componentwise.
    #[verifier::rlimit(100)]
    #[verifier::spinoff_prover]
    pub fn spawn_box(a: Point, b: Point, mat: usize, world: &mut crate::world::World)
        -> (r: crate::world::Hittables)
        requires
            crate::world::world_wf(*old(world)),
            mat < old(world).mats@.len(),
            v3_bounded(a@, 0x100_0000),
            v3_bounded(b@, 0x100_0000),
        ensures
            crate::world::world_wf(*final(world)),
            final(world).mats@ == old(world).mats@,
            final(world).prims@.len() == old(world).prims@.len() + 6,
            ({
                let ol = old(world).prims@.len() as int;
                let lo = cw_min(a@, b@);
                let hi = cw_max(a@, b@);
                &&& face_at(final(world).prims@, ol + 0, box_face(lo, hi, 0), mat as int)
                &&& face_at(final(world).prims@, ol + 1, box_face(lo, hi, 1), mat as int)
                &&& face_at(final(world).prims@, ol + 2, box_face(lo, hi, 2), mat as int)
                &&& face_at(final(world).prims@, ol + 3, box_face(lo, hi, 3), mat as int)
                &&& face_at(final(world).prims@, ol + 4, box_face(lo, hi, 4), mat as int)
                &&& face_at(final(world).prims@, ol + 5, box_face(lo, hi, 5), mat as int)
                &&& r.objects@ =~= seq![
                    ol as usize,
                    (ol + 1) as usize,
                    (ol + 2) as usize,
                    (ol + 3) as usize,
                    (ol + 4) as usize,
                    (ol + 5) as usize,
                ]
            }),
            crate::world::hittables_wf(r, final(world).prims@),
    {
        let min = Vec3 { x: a.x.min(b.x), y: a.y.min(b.y), z: a.z.min(b.z) };
        let max = Vec3 { x: a.x.max(b.x), y: a.y.max(b.y), z: a.z.max(b.z) };
        let dx = Vec3 { x: max.x.sub(min.x), y: Fx::zero(), z: Fx::zero() };
        let dy = Vec3 { x: Fx::zero(), y: max.y.sub(min.y), z: Fx::zero() };
        let dz = Vec3 { x: Fx::zero(), y: Fx::zero(), z: max.z.sub(min.z) };
        let mut quads = crate::world::Hittables::new();
        let f1 = world.add_prim(crate::world::Primitive::Qd(Quad::new(min.add(dz), dy, dx,
            mat)));
        quads.add(world, f1);
        let f2 = world.add_prim(crate::world::Primitive::Qd(Quad::new(min.add(dz).add(dx), dy,
            dz, mat)));
        quads.add(world, f2);
        let f3 = world.add_prim(crate::world::Primitive::Qd(Quad::new(min, dy, dx, mat)));
        quads.add(world, f3);
        let f4 = world.add_prim(crate::world::Primitive::Qd(Quad::new(min, dy, dz, mat)));
        quads.add(world, f4);
        let f5 = world.add_prim(crate::world::Primitive::Qd(Quad::new(min.add(dy), dz, dx,
            mat)));
        quads.add(world, f5);
        let f6 = world.add_prim(crate::world::Primitive::Qd(Quad::new(min, dz, dx, mat)));
        quads.add(world, f6);
        quads
    }
}

/// A product with a zero factor lands on zero exactly.
proof fn lemma_fx_mul_zero(x: int)
    ensures
        fx_mul(0, x) == 0,
        fx_mul(x, 0) == 0,
{
    assert(0 * x == 0 && x * 0 == 0) by (nonlinear_arith);
}

/// A ray aimed straight at the center of the unit quad in the xy plane hits
/// it at exactly the center: planar coordinates one half each, parameter
/// one, the plane normal facing the ray. Every value here is exact on the
/// fixed-point grid, not within a tolerance.
pub proof fn lemma_centered_ray_hits_quad(qd: Quad, ray: Ray3, t0: int)
    requires
        qd.q@ == (V3i { x: 0, y: 0, z: 0 }),
        qd.v@ == (V3i { x: 0, y: SCALE as int, z: 0 }),
        qd.u@ == (V3i { x: SCALE as int, y: 0, z: 0 }),
        qd.n@ == quad_n(qd.u@, qd.v@),
        qd.w@ == quad_w(qd.u@, qd.v@),
        qd.d.v() == v3_dot(quad_n(qd.u@, qd.v@), qd.q@),
        qd.bbox == quad_bbox(qd.q@, qd.v@, qd.u@),
        ray.origin@ == (V3i { x: (SCALE as int) / 2, y: (SCALE as int) / 2, z: SCALE as int }),
        ray.dir@ == (V3i { x: 0, y: 0, z: -(SCALE as int) }),
        0 <= t0 < SCALE as int,
    ensures
        quad_rho(qd, ray, t0) matches Some(h) && h.t == SCALE as int
            && h.u == (SCALE as int) / 2 && h.v == (SCALE as int) / 2 && h.front_face
            && h.p == (V3i { x: (SCALE as int) / 2, y: (SCALE as int) / 2, z: 0 })
            && h.normal == (V3i { x: 0, y: 0, z: SCALE as int }),
{
    let sc = SCALE as int;
    let half = sc / 2;
    // the plane data of this quad
    lemma_fx_mul_zero(0);
    lemma_fx_mul_zero(sc);
    lemma_fx_mul_zero(-sc);
    lemma_fx_mul_zero(half);
    lemma_tdiv_exact(sc, sc);
    let n_raw = v3_cross(qd.u@, qd.v@);
    assert(n_raw == (V3i { x: 0, y: 0, z: sc }));
    assert(v3_dot(n_raw, n_raw) == sc);
    assert(is_isqrt(sc * sc, sc)) by (nonlinear_arith)
        requires
            sc == 65536,
    ;
    crate::fx::lemma_isqrt_unique(sc * sc, sc);
    assert(qd.n@ == (V3i { x: 0, y: 0, z: sc })) by {
        assert(fx_div(0, sc) == 0) by {
            lemma_fx_mul_zero(sc);
            assert(0 * sc == 0) by (nonlinear_arith);
            lemma_tdiv_exact(0, sc);
        }
        assert(fx_div(sc, sc) == sc) by {
            lemma_tdiv_exact(sc, sc);
        }
    }
    assert(qd.w@ == (V3i { x: 0, y: 0, z: sc }));
    assert(qd.d.v() == 0);
    // the plane crossing
    assert((-sc) * sc == (-sc) * sc) by (nonlinear_arith);
    lemma_tdiv_exact(-sc, sc);
    assert(v3_dot(ray.dir@, qd.n@) == -sc);
    assert(v3_dot(ray.origin@, qd.n@) == sc);
    assert(fx_div(0 - sc, -sc) == sc) by {
        assert((0 - sc) * sc == -(sc * sc) && iabs(-(sc * sc)) == sc * sc && iabs(-sc) == sc
            && 0 < sc * sc) by (nonlinear_arith)
            requires
                sc == 65536,
        ;
        assert((sc * sc) / sc == sc) by (nonlinear_arith)
            requires
                sc == 65536,
        ;
    }
    assert(plane_t(qd.n@, qd.d.v(), ray.origin@, ray.dir@) == Some(sc));
    // the surface data at the crossing
    assert(fx_mul(-sc, sc) == -sc) by {
        assert((-sc) * sc == (-sc) * sc) by (nonlinear_arith);
        lemma_tdiv_exact(-sc, sc);
    }
    let p = ray_at(ray.origin@, ray.dir@, sc);
    assert(p == (V3i { x: half, y: half, z: 0 }));
    assert(at_in_range(ray.origin@, ray.dir@, sc));
    assert(pt_in_box(qd.bbox, p));
    let qp = v3_sub(p, qd.q@);
    assert(fx_mul(half, sc) == half) by {
        assert(half * sc == half * sc) by (nonlinear_arith);
        lemma_tdiv_exact(half, sc);
    }
    assert(v3_cross(qp, qd.v@) == (V3i { x: 0, y: 0, z: half }));
    assert(v3_cross(qd.u@, qp) == (V3i { x: 0, y: 0, z: half }));
    assert(fx_mul(sc, half) == half) by {
        assert(sc * half == half * sc) by (nonlinear_arith);
        lemma_tdiv_exact(half, sc);
    }
    assert(planar_alpha(qd.w@, qp, qd.v@) == half);
    assert(planar_beta(qd.w@, qd.u@, qp) == half);
}

/// Componentwise magnitude bound for a cross product.
pub proof fn bound_cross(a: V3i, b: V3i, m: int, n: int)
    requires
        v3_bounded(a, m),
        v3_bounded(b, n),
        0 <= m,
        0 <= n,
    ensures
        v3_bounded(v3_cross(a, b), 2 * ((m * n) / (SCALE as int))),
{
    lemma_fx_mul_le(a.x, b.y, m, n);
    lemma_fx_mul_le(a.x, b.z, m, n);
    lemma_fx_mul_le(a.y, b.x, m, n);
    lemma_fx_mul_le(a.y, b.z, m, n);
    lemma_fx_mul_le(a.z, b.x, m, n);
    lemma_fx_mul_le(a.z, b.y, m, n);
}

} // verus!
