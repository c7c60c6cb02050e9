//! Triangle primitives: the quad's plane crossing with barycentric
//! containment.

use vstd::prelude::*;
use crate::fx::{Fx, iabs, SCALE, COORD_LIMIT};
use crate::vec::{Vec3, Point, v3_bounded, v3_sub, v3_neg, v3_dot, UNIT_LIMIT, bound_dot};
use crate::interval::Interval;
use crate::ray::{Ray3, ray_wf, ray_at, at_in_range, Hit, HitView, opt_hit_view, clip_hit};
use crate::aabb::{AABB, pt_in_box, aabb_bounded, BOX_LIMIT};
use crate::quad::{EDGE_LIMIT, box_near, plane_t, planar_alpha, planar_beta, plane_t_exec,
    planar_parts};

verus! {

/// A triangle with corner `q` and edges `u`, `v`; plane data as in `Quad`.
#[derive(Clone, Copy, PartialEq, Eq, Structural, Debug)]
pub struct Triangle {
    pub q: Point,
    pub v: Vec3,
    pub u: Vec3,
    pub n: Vec3,
    pub w: Vec3,
    pub d: Fx,
    pub mat: usize,
    pub bbox: AABB,
}

pub open spec fn tri_wf(td: Triangle) -> bool {
    &&& v3_bounded(td.q@, COORD_LIMIT as int)
    &&& v3_bounded(td.v@, EDGE_LIMIT as int)
    &&& v3_bounded(td.u@, EDGE_LIMIT as int)
    &&& v3_bounded(td.n@, UNIT_LIMIT as int)
    &&& v3_bounded(td.w@, UNIT_LIMIT as int)
    &&& iabs(td.d.v()) <= 0x6_0000_0000
    &&& aabb_bounded(td.bbox, BOX_LIMIT as int)
    &&& box_near(td.bbox, td.q@)
}

/// The candidate intersection of a ray with the triangle past `t0`: the
/// plane crossing, accepted under barycentric containment and the stored
/// box.
pub open spec fn tri_rho(td: Triangle, ray: Ray3, t0: int) -> Option<HitView> {
    match plane_t(td.n@, td.d.v(), ray.origin@, ray.dir@) {
        None => None,
        Some(t) => if t0 < t {
            tri_finish(td, ray, t)
        } else {
            None
        },
    }
}

pub open spec fn tri_finish(td: Triangle, ray: Ray3, t: int) -> Option<HitView> {
    if !at_in_range(ray.origin@, ray.dir@, t) {
        None
    } else {
        let p = ray_at(ray.origin@, ray.dir@, t);
        if !pt_in_box(td.bbox, p) {
            None
        } else {
            let qp = v3_sub(p, td.q@);
            let alpha = planar_alpha(td.w@, qp, td.v@);
            let beta = planar_beta(td.w@, td.u@, qp);
            if 0 <= alpha && 0 <= beta && alpha + beta <= SCALE as int {
                let front = v3_dot(ray.dir@, td.n@) < 0;
                Some(HitView {
                    p,
                    normal: if front { td.n@ } else { v3_neg(td.n@) },
                    u: alpha,
                    v: beta,
                    front_face: front,
                    t,
                    mat: td.mat as int,
                })
            } else {
                None
            }
        }
    }
}

impl Triangle {
    /// A triangle with corners `q`, `q + u`, `q + v`; degenerate edges give
    /// a zero normal, which no ray ever hits.
    pub fn new(q: Point, v: Vec3, u: Vec3, mat: usize) -> (r: Triangle)
        requires
            v3_bounded(q@, COORD_LIMIT as int),
            v3_bounded(v@, EDGE_LIMIT as int),
            v3_bounded(u@, EDGE_LIMIT as int),
        ensures
            r.q == q,
            r.v == v,
            r.u == u,
            r.mat == mat,
            r.n@ == crate::quad::quad_n(u@, v@),
            r.w@ == crate::quad::quad_w(u@, v@),
            r.d.v() == v3_dot(crate::quad::quad_n(u@, v@), q@),
            r.bbox == crate::quad::quad_bbox(q@, v@, u@),
            tri_wf(r),
    {
        let base = crate::quad::Quad::new(q, v, u, mat);
        Triangle {
            q: base.q,
            v: base.v,
            u: base.u,
            n: base.n,
            w: base.w,
            d: base.d,
            mat: base.mat,
            bbox: base.bbox,
        }
    }

    /// The closest intersection strictly inside the range: the clip of the
    /// triangle's plane candidate to the range's upper end (strictly inside,
    /// as for every primitive: a uniform open range keeps tie-breaking
    /// independent of traversal order).
    pub fn hit(&self, ray: &Ray3, t_range: &Interval) -> (r: Option<Hit>)
        requires
            tri_wf(*self),
            ray_wf(*ray),
        ensures
            opt_hit_view(r) == clip_hit(tri_rho(*self, *ray, t_range.min.v()),
                t_range.max.v()),
    {
        let t = match plane_t_exec(self.n, self.d, ray) {
            Some(t) => t,
            None => {
                return None;
            },
        };
        if !(t_range.min.raw < t.raw && t.raw < t_range.max.raw) {
            return None;
        }
        let (p, alpha, beta) = match planar_parts(self.q, self.v, self.u, self.w, self.bbox, ray,
            t) {
            Some(parts) => parts,
            None => {
                return None;
            },
        };
        if !(0 <= alpha.raw && 0 <= beta.raw && alpha.raw <= i64::MAX - beta.raw
            && alpha.raw + beta.raw <= SCALE) {
            return None;
        }
        proof {
            bound_dot(ray.dir@, self.n@, 0x2_0000_0000, UNIT_LIMIT as int);
        }
        let front = ray.dir.dot(self.n).raw < 0;
        Some(Hit {
            p,
            normal: if front { self.n } else { self.n.neg() },
            uv: (alpha, beta),
            front_face: front,
            t,
            mat: self.mat,
        })
    }
}

} // verus!
