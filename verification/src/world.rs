//! The scene: an arena of primitives and materials, the closed primitive
//! capability, and the linear-scan collection.
//!
//! Wrapped primitives (translations, rotations, media) refer to earlier
//! arena entries by index, so the whole scene is a read-only value that can
//! be shared across worker threads without reference counting.

use vstd::prelude::*;
use crate::fx::{Fx, fx_mul, fx_div, fx_sqrt, iabs, SCALE, T_LIMIT, lemma_mul_bound,
    lemma_tdiv_bound};
use crate::vec::{Vec3, V3i, v3_bounded, v3_sub, v3_dot, v3_norm, UNIT_LIMIT, bound_dot};
use crate::interval::Interval;
use crate::ray::{Ray3, ray_wf, ray_at, at_in_range, Hit, HitView, opt_hit_view, clip_hit,
    RAY_LIMIT};
use crate::aabb::{AABB, pt_in_box, box_contains};
use crate::sphere::{Sphere, sphere_wf, sphere_rho};
use crate::quad::{Quad, quad_wf, quad_rho};
use crate::triangle::{Triangle, tri_wf, tri_rho};
use crate::transform::{Translate, Rotate, translate_wf, rotate_wf, rot_about};
use crate::volumetric::{ConstantMedium, medium_wf, fx_ln_unit, fx_ln_unit_exec};
use crate::material::{Material, mat_wf};
use crate::rng::{Prng, unit_of, step64};

verus! {

/// The closed set of things a ray can hit.
#[derive(Clone, Copy, PartialEq, Eq, Structural, Debug)]
pub enum Primitive {
    Sph(Sphere),
    Qd(Quad),
    Tri(Triangle),
    Trans(Translate),
    Rot(Rotate),
    Med(ConstantMedium),
}

/// The world-space box stored with the primitive.
pub open spec fn prim_bbox(p: Primitive) -> AABB {
    match p {
        Primitive::Sph(s) => s.bbox,
        Primitive::Qd(q) => q.bbox,
        Primitive::Tri(t) => t.bbox,
        Primitive::Trans(t) => t.bbox,
        Primitive::Rot(r) => r.bbox,
        Primitive::Med(m) => m.bbox,
    }
}

/// Shape-level well-formedness.
pub open spec fn prim_shape_wf(p: Primitive) -> bool {
    match p {
        Primitive::Sph(s) => sphere_wf(s),
        Primitive::Qd(q) => quad_wf(q),
        Primitive::Tri(t) => tri_wf(t),
        Primitive::Trans(t) => translate_wf(t),
        Primitive::Rot(r) => rotate_wf(r),
        Primitive::Med(m) => medium_wf(m),
    }
}

/// Wrappers refer only to earlier arena entries.
pub open spec fn prim_child_ok(p: Primitive, i: int) -> bool {
    match p {
        Primitive::Trans(t) => t.object < i,
        Primitive::Rot(r) => r.object < i,
        Primitive::Med(m) => m.boundary < i,
        _ => true,
    }
}

pub open spec fn prims_wf(w: Seq<Primitive>) -> bool {
    forall|i: int| 0 <= i < w.len() ==> prim_shape_wf(#[trigger] w[i]) && prim_child_ok(w[i], i)
}

/// The material index of a primitive stays inside the material arena.
pub open spec fn prim_mat_ok(p: Primitive, nmats: int) -> bool {
    match p {
        Primitive::Sph(s) => s.mat < nmats,
        Primitive::Qd(q) => q.mat < nmats,
        Primitive::Tri(t) => t.mat < nmats,
        Primitive::Med(m) => m.phase_function < nmats,
        _ => true,
    }
}

pub open spec fn prims_mats_ok(w: Seq<Primitive>, nmats: int) -> bool {
    forall|i: int| 0 <= i < w.len() ==> prim_mat_ok(#[trigger] w[i], nmats)
}

/// The primitive resolves without consulting the sampler: everything except
/// a participating medium (directly or under wrappers).
pub open spec fn prim_det(w: Seq<Primitive>, i: int) -> bool
    decreases i,
{
    if !(0 <= i < w.len()) {
        false
    } else {
        match w[i] {
            Primitive::Sph(_) => true,
            Primitive::Qd(_) => true,
            Primitive::Tri(_) => true,
            Primitive::Trans(t) => t.object < i && prim_det(w, t.object as int),
            Primitive::Rot(r) => r.object < i && prim_det(w, r.object as int),
            Primitive::Med(_) => false,
        }
    }
}

/// A scalar, vector or ray assembled in a specification.
pub open spec fn mk_fx(x: int) -> Fx {
    Fx { raw: x as i64 }
}

pub open spec fn mk_v3(a: V3i) -> Vec3 {
    Vec3 { x: mk_fx(a.x), y: mk_fx(a.y), z: mk_fx(a.z) }
}

pub open spec fn mk_ray(o: V3i, d: V3i, time: int) -> Ray3 {
    Ray3 { origin: mk_v3(o), dir: mk_v3(d), time: mk_fx(time) }
}

/// Carry a wrapped primitive's hit back out: the point is re-evaluated on
/// the outer ray (the parameter survives both wrappers unchanged) and must
/// land in the wrapper's stored box.
pub open spec fn box_wrap(bbox: AABB, ray: Ray3, h: HitView) -> Option<HitView> {
    if !at_in_range(ray.origin@, ray.dir@, h.t) {
        None
    } else {
        let p2 = ray_at(ray.origin@, ray.dir@, h.t);
        if pt_in_box(bbox, p2) {
            Some(HitView {
                p: p2,
                normal: h.normal,
                u: h.u,
                v: h.v,
                front_face: h.front_face,
                t: h.t,
                mat: h.mat,
            })
        } else {
            None
        }
    }
}

pub open spec fn trans_wrap(tr: Translate, ray: Ray3, h: HitView) -> Option<HitView> {
    box_wrap(tr.bbox, ray, h)
}

/// As `box_wrap`, with the normal first rotated forward and re-normalized.
pub open spec fn rot_wrap(ro: Rotate, ray: Ray3, h: HitView) -> Option<HitView> {
    box_wrap(ro.bbox, ray, HitView {
        p: h.p,
        normal: v3_norm(rot_about(h.normal, ro.axis, ro.cos_theta.v(), ro.sin_theta.v())),
        u: h.u,
        v: h.v,
        front_face: h.front_face,
        t: h.t,
        mat: h.mat,
    })
}

/// The candidate hit of a deterministic primitive past `t0` (for a medium
/// the value is unused and stands at `None`).
pub open spec fn prim_rho(w: Seq<Primitive>, i: int, ray: Ray3, t0: int) -> Option<HitView>
    decreases i,
{
    if !(0 <= i < w.len()) {
        None
    } else {
        match w[i] {
            Primitive::Sph(s) => sphere_rho(s, ray, t0),
            Primitive::Qd(q) => quad_rho(q, ray, t0),
            Primitive::Tri(t) => tri_rho(t, ray, t0),
            Primitive::Trans(tr) => if 0 <= tr.object < i {
                let o2 = v3_sub(ray.origin@, tr.offset@);
                if !v3_bounded(o2, RAY_LIMIT as int) {
                    None
                } else {
                    match prim_rho(w, tr.object as int, mk_ray(o2, ray.dir@, ray.time.v()),
                        t0) {
                        None => None,
                        Some(h) => trans_wrap(tr, ray, h),
                    }
                }
            } else {
                None
            },
            Primitive::Rot(ro) => if 0 <= ro.object < i {
                let o2 = rot_about(ray.origin@, ro.axis, ro.cos_theta.v(), -ro.sin_theta.v());
                let d2 = rot_about(ray.dir@, ro.axis, ro.cos_theta.v(), -ro.sin_theta.v());
                if !v3_bounded(o2, RAY_LIMIT as int) || !v3_bounded(d2, RAY_LIMIT as int) {
                    None
                } else {
                    match prim_rho(w, ro.object as int, mk_ray(o2, d2, ray.time.v()), t0) {
                        None => None,
                        Some(h) => rot_wrap(ro, ray, h),
                    }
                }
            } else {
                None
            },
            Primitive::Med(_) => None,
        }
    }
}

/// The complete result of one primitive query, threaded through the sampler
/// state: for a deterministic primitive the clipped candidate with the state
/// untouched; for a medium the two boundary queries and the free-flight
/// draw. Every hit the renderer computes is this function of its inputs.
#[verifier::opaque]
pub open spec fn prim_res(w: Seq<Primitive>, i: int, ray: Ray3, t0: int, t1: int, st: u64)
    -> (Option<HitView>, u64)
    decreases i,
{
    if !(0 <= i < w.len()) {
        (None, st)
    } else {
        match w[i] {
            Primitive::Sph(s) => (clip_hit(sphere_rho(s, ray, t0), t1), st),
            Primitive::Qd(q) => (clip_hit(quad_rho(q, ray, t0), t1), st),
            Primitive::Tri(t) => (clip_hit(tri_rho(t, ray, t0), t1), st),
            Primitive::Trans(tr) => if 0 <= tr.object < i {
                let o2 = v3_sub(ray.origin@, tr.offset@);
                if !v3_bounded(o2, RAY_LIMIT as int) {
                    (None, st)
                } else {
                    let inner = prim_res(w, tr.object as int, mk_ray(o2, ray.dir@,
                        ray.time.v()), t0, t1, st);
                    match inner.0 {
                        None => (None, inner.1),
                        Some(h) => (trans_wrap(tr, ray, h), inner.1),
                    }
                }
            } else {
                (None, st)
            },
            Primitive::Rot(ro) => if 0 <= ro.object < i {
                let o2 = rot_about(ray.origin@, ro.axis, ro.cos_theta.v(), -ro.sin_theta.v());
                let d2 = rot_about(ray.dir@, ro.axis, ro.cos_theta.v(), -ro.sin_theta.v());
                if !v3_bounded(o2, RAY_LIMIT as int) || !v3_bounded(d2, RAY_LIMIT as int) {
                    (None, st)
                } else {
                    let inner = prim_res(w, ro.object as int, mk_ray(o2, d2, ray.time.v()),
                        t0, t1, st);
                    match inner.0 {
                        None => (None, inner.1),
                        Some(h) => (rot_wrap(ro, ray, h), inner.1),
                    }
                }
            } else {
                (None, st)
            },
            Primitive::Med(m) => if 0 <= m.boundary < i {
                let entry = prim_res(w, m.boundary as int, ray, -(T_LIMIT as int),
                    T_LIMIT as int, st);
                match entry.0 {
                    None => (None, entry.1),
                    Some(en) => {
                        let past0 = if en.t <= T_LIMIT as int - 8 {
                            en.t + 7
                        } else {
                            T_LIMIT as int
                        };
                        let exit = prim_res(w, m.boundary as int, ray, past0, T_LIMIT as int,
                            entry.1);
                        match exit.0 {
                            None => (None, exit.1),
                            Some(ex) => medium_sample(m, ray, t0, t1, exit.1, en.t, ex.t),
                        }
                    },
                }
            } else {
                (None, st)
            },
        }
    }
}

/// The facts every reported hit obeys, whether or not the primitive is
/// deterministic: the parameter is strictly inside the queried range, the
/// point is the ray's own position there, inside the primitive's stored box,
/// and the surface data is within the material bounds.
pub open spec fn hit_good(w: Seq<Primitive>, i: int, ray: Ray3, t0: int, t1: int, h: HitView)
    -> bool {
    &&& t0 < h.t < t1
    &&& at_in_range(ray.origin@, ray.dir@, h.t)
    &&& h.p == ray_at(ray.origin@, ray.dir@, h.t)
    &&& pt_in_box(prim_bbox(w[i]), h.p)
    &&& v3_bounded(h.normal, UNIT_LIMIT as int)
    &&& 0 <= h.u <= SCALE as int
    &&& 0 <= h.v <= SCALE as int
    &&& 0 <= h.mat
    &&& forall|nm: int| prims_mats_ok(w, nm) ==> h.mat < nm
}

/// The tail of the medium interaction once entry and exit parameters are
/// known: clip them to the queried range and compare the sampled free-flight
/// distance `-(1/density) ln U` against the distance available inside.
pub open spec fn medium_sample(m: ConstantMedium, ray: Ray3, t0: int, t1: int, st: u64,
    ent: int, ext: int) -> (Option<HitView>, u64) {
    if iabs(ent) > 0x100_0000_0000 || iabs(ext) > 0x100_0000_0000 {
        (None, st)
    } else {
        let entry_clipped = if ent >= t0 { ent } else { t0 };
        let exit_t = if ext <= t1 { ext } else { t1 };
        if entry_clipped >= exit_t {
            (None, st)
        } else {
            let entry_t = if entry_clipped < 0 { 0 } else { entry_clipped };
            let rl = fx_sqrt(v3_dot(ray.dir@, ray.dir@));
            if rl <= 0 || rl > 0x10_0000_0000 {
                (None, st)
            } else {
                let dist_in_boundary = fx_mul(exit_t - entry_t, rl);
                let st2 = step64(st);
                let hit_dist = fx_mul(m.neg_inv_density.v(), fx_ln_unit(unit_of(st) + 1));
                if hit_dist > dist_in_boundary {
                    (None, st2)
                } else {
                    let t = entry_t + fx_div(hit_dist, rl);
                    if !(t0 < t < t1) {
                        (None, st2)
                    } else if !at_in_range(ray.origin@, ray.dir@, t) {
                        (None, st2)
                    } else {
                        let p = ray_at(ray.origin@, ray.dir@, t);
                        if pt_in_box(m.bbox, p) {
                            (Some(HitView {
                                p,
                                normal: V3i { x: SCALE as int, y: 0, z: 0 },
                                u: SCALE as int,
                                v: SCALE as int,
                                front_face: true,
                                t,
                                mat: m.phase_function as int,
                            }), st2)
                        } else {
                            (None, st2)
                        }
                    }
                }
            }
        }
    }
}

/// Every hit a deterministic candidate reports satisfies `hit_good` (with
/// the range bound discharged by the caller's clip).
pub proof fn lemma_rho_good(w: Seq<Primitive>, i: int, ray: Ray3, t0: int)
    requires
        prims_wf(w),
        ray_wf(ray),
        0 <= i < w.len(),
    ensures
        match prim_rho(w, i, ray, t0) {
            Some(h) => t0 < h.t && at_in_range(ray.origin@, ray.dir@, h.t)
                && h.p == ray_at(ray.origin@, ray.dir@, h.t) && pt_in_box(prim_bbox(w[i]), h.p)
                && v3_bounded(h.normal, UNIT_LIMIT as int) && 0 <= h.u <= SCALE as int
                && 0 <= h.v <= SCALE as int && 0 <= h.mat
                && (forall|nm: int| prims_mats_ok(w, nm) ==> h.mat < nm),
            None => true,
        },
    decreases i,
{
    if let Some(h) = prim_rho(w, i, ray, t0) {
        match w[i] {
            Primitive::Sph(s) => {
                crate::sphere::lemma_sphere_rho_good(s, ray, t0);
                assert(prim_mat_ok(w[i], h.mat + 1) ==> s.mat < h.mat + 1);
            },
            Primitive::Qd(q) => {},
            Primitive::Tri(t) => {},
            Primitive::Trans(tr) => {
                let o2 = v3_sub(ray.origin@, tr.offset@);
                if v3_bounded(o2, RAY_LIMIT as int) {
                    let r2 = mk_ray(o2, ray.dir@, ray.time.v());
                    lemma_mk_ray_wf(o2, ray.dir@, ray.time.v());
                    lemma_rho_good(w, tr.object as int, r2, t0);
                }
            },
            Primitive::Rot(ro) => {
                let o2 = rot_about(ray.origin@, ro.axis, ro.cos_theta.v(), -ro.sin_theta.v());
                let d2 = rot_about(ray.dir@, ro.axis, ro.cos_theta.v(), -ro.sin_theta.v());
                if v3_bounded(o2, RAY_LIMIT as int) && v3_bounded(d2, RAY_LIMIT as int) {
                    let r2 = mk_ray(o2, d2, ray.time.v());
                    lemma_mk_ray_wf(o2, d2, ray.time.v());
                    lemma_rho_good(w, ro.object as int, r2, t0);
                }
            },
            Primitive::Med(_) => {},
        }
    }
}

/// A specification-assembled ray from bounded parts is well formed and views
/// back to its parts.
pub proof fn lemma_mk_ray_wf(o: V3i, d: V3i, time: int)
    requires
        v3_bounded(o, RAY_LIMIT as int),
        v3_bounded(d, RAY_LIMIT as int),
        0 <= time <= SCALE as int,
    ensures
        ray_wf(mk_ray(o, d, time)),
        mk_ray(o, d, time).origin@ == o,
        mk_ray(o, d, time).dir@ == d,
        mk_ray(o, d, time).time.v() == time,
{
}

/// The closest hit of one primitive strictly inside the range.
///
/// For a deterministic primitive this is exactly the clip of its candidate,
/// and the sampler is untouched; for a medium, whatever comes back still
/// satisfies `hit_good`, so callers are verified for every outcome.
#[verifier::rlimit(100)]
#[verifier::spinoff_prover]
pub fn prim_hit(prims: &Vec<Primitive>, i: usize, ray: &Ray3, t_range: Interval,
    rng: &mut Prng) -> (r: Option<Hit>)
    requires
        prims_wf(prims@),
        i < prims@.len(),
        ray_wf(*ray),
    ensures
        prim_det(prims@, i as int) ==> opt_hit_view(r) == clip_hit(prim_rho(prims@, i as int,
            *ray, t_range.min.v()), t_range.max.v()) && final(rng).state == old(rng).state,
        (opt_hit_view(r), final(rng).state) == prim_res(prims@, i as int, *ray,
            t_range.min.v(), t_range.max.v(), old(rng).state),
        match r {
            Some(h) => hit_good(prims@, i as int, *ray, t_range.min.v(), t_range.max.v(), h@),
            None => true,
        },
    decreases i, 1nat,
{
    proof {
        lemma_rho_good(prims@, i as int, *ray, t_range.min.v());
        reveal(prim_res);
    }
    match prims[i] {
        Primitive::Sph(s) => {
            let r = s.hit(ray, &t_range);
            proof {
                if let Some(h) = r {
                    mat_quant(prims@, i as int, h@.mat);
                }
            }
            r
        },
        Primitive::Qd(q) => {
            let r = q.hit(ray, &t_range);
            proof {
                if let Some(h) = r {
                    mat_quant(prims@, i as int, h@.mat);
                }
            }
            r
        },
        Primitive::Tri(t) => {
            let r = t.hit(ray, &t_range);
            proof {
                if let Some(h) = r {
                    mat_quant(prims@, i as int, h@.mat);
                }
            }
            r
        },
        Primitive::Trans(tr) => {
            let o2 = ray.origin.sub(tr.offset);
            let lim: i64 = RAY_LIMIT;
            if !(o2.x.raw <= lim && o2.x.raw >= -lim && o2.y.raw <= lim && o2.y.raw >= -lim
                && o2.z.raw <= lim && o2.z.raw >= -lim) {
                return None;
            }
            let inner_ray = Ray3 { origin: o2, dir: ray.dir, time: ray.time };
            proof {
                assert(inner_ray == mk_ray(v3_sub(ray.origin@, tr.offset@), ray.dir@,
                    ray.time.v()));
            }
            let inner = prim_hit(prims, tr.object, &inner_ray, t_range, rng);
            match inner {
                None => None,
                Some(h) => wrap_outer(prims, i, ray, t_range, &h, h.normal),
            }
        },
        Primitive::Rot(ro) => {
            let neg_s = ro.sin_theta.neg();
            let o2 = ray.origin.rot_about(ro.axis, ro.cos_theta, neg_s);
            let d2 = ray.dir.rot_about(ro.axis, ro.cos_theta, neg_s);
            let lim: i64 = RAY_LIMIT;
            if !(o2.x.raw <= lim && o2.x.raw >= -lim && o2.y.raw <= lim && o2.y.raw >= -lim
                && o2.z.raw <= lim && o2.z.raw >= -lim && d2.x.raw <= lim && d2.x.raw >= -lim
                && d2.y.raw <= lim && d2.y.raw >= -lim && d2.z.raw <= lim
                && d2.z.raw >= -lim) {
                return None;
            }
            let inner_ray = Ray3 { origin: o2, dir: d2, time: ray.time };
            proof {
                assert(inner_ray == mk_ray(o2@, d2@, ray.time.v()));
            }
            let inner = prim_hit(prims, ro.object, &inner_ray, t_range, rng);
            match inner {
                None => None,
                Some(h) => {
                    let back = h.normal.rot_about(ro.axis, ro.cos_theta, ro.sin_theta).norm();
                    wrap_outer(prims, i, ray, t_range, &h, back)
                },
            }
        },
        Primitive::Med(m) => medium_hit(prims, i, ray, t_range, rng),
    }
}

/// Shared tail of the transform wrappers: re-evaluate the point on the outer
/// ray, keep the hit only inside the wrapper's stored box.
fn wrap_outer(prims: &Vec<Primitive>, i: usize, ray: &Ray3, t_range: Interval, h: &Hit,
    normal: Vec3) -> (r: Option<Hit>)
    requires
        prims_wf(prims@),
        i < prims@.len(),
        ray_wf(*ray),
        v3_bounded(normal@, UNIT_LIMIT as int),
        t_range.min.v() < h@.t < t_range.max.v(),
        0 <= h@.u <= SCALE as int,
        0 <= h@.v <= SCALE as int,
        0 <= h@.mat,
        forall|nm: int| prims_mats_ok(prims@, nm) ==> h@.mat < nm,
    ensures
        match (prims@[i as int]) {
            Primitive::Trans(tr) => opt_hit_view(r) == trans_wrap(tr, *ray, HitView {
                normal: normal@, ..h@ }),
            Primitive::Rot(ro) => opt_hit_view(r) == (match rot_wrap(ro, *ray, h@) {
                None => None::<HitView>,
                Some(g) => Some(HitView { normal: normal@, ..g }),
            }),
            _ => true,
        },
        match r {
            Some(g) => hit_good(prims@, i as int, *ray, t_range.min.v(), t_range.max.v(), g@),
            None => true,
        },
{
    let p2 = match ray.at(h.t) {
        Some(p) => p,
        None => {
            return None;
        },
    };
    let bbox = prim_bbox_exec(&prims[i]);
    let inside = bbox.x.contains(p2.x) && bbox.y.contains(p2.y) && bbox.z.contains(p2.z);
    if !inside {
        return None;
    }
    Some(Hit { p: p2, normal, uv: h.uv, front_face: h.front_face, t: h.t, mat: h.mat })
}

/// The stored world-space box of a primitive.
pub fn prim_bbox_exec(p: &Primitive) -> (r: AABB)
    ensures
        r == prim_bbox(*p),
{
    match p {
        Primitive::Sph(s) => s.bbox,
        Primitive::Qd(q) => q.bbox,
        Primitive::Tri(t) => t.bbox,
        Primitive::Trans(t) => t.bbox,
        Primitive::Rot(r) => r.bbox,
        Primitive::Med(m) => m.bbox,
    }
}

/// Instantiate the material-arena quantifier for a concrete hit.
proof fn mat_quant(w: Seq<Primitive>, i: int, m: int)
    requires
        0 <= i < w.len(),
        match w[i] {
            Primitive::Sph(s) => m == s.mat as int,
            Primitive::Qd(q) => m == q.mat as int,
            Primitive::Tri(t) => m == t.mat as int,
            Primitive::Med(md) => m == md.phase_function as int,
            _ => false,
        },
    ensures
        forall|nm: int| prims_mats_ok(w, nm) ==> m < nm,
{
    assert forall|nm: int| prims_mats_ok(w, nm) implies m < nm by {
        assert(prim_mat_ok(w[i], nm));
    }
}

/// Scattering inside a constant medium: find where the ray enters and leaves
/// the boundary, clip to the queried range, and compare a sampled
/// free-flight distance against the distance available inside.
#[verifier::rlimit(100)]
#[verifier::spinoff_prover]
fn medium_hit(prims: &Vec<Primitive>, i: usize, ray: &Ray3, t_range: Interval,
    rng: &mut Prng) -> (r: Option<Hit>)
    requires
        prims_wf(prims@),
        i < prims@.len(),
        prims@[i as int] is Med,
        ray_wf(*ray),
    ensures
        (opt_hit_view(r), final(rng).state) == prim_res(prims@, i as int, *ray,
            t_range.min.v(), t_range.max.v(), old(rng).state),
        match r {
            Some(h) => hit_good(prims@, i as int, *ray, t_range.min.v(), t_range.max.v(), h@),
            None => true,
        },
    decreases i, 0nat,
{
    proof {
        reveal(prim_res);
    }
    let m = match prims[i] {
        Primitive::Med(m) => m,
        _ => {
            return None;
        },
    };
    let entry = match prim_hit(prims, m.boundary, ray, Interval::universe(), rng) {
        Some(h) => h,
        None => {
            return None;
        },
    };
    let past = Interval {
        min: Fx { raw: if entry.t.raw <= T_LIMIT - 8 { entry.t.raw + 7 } else { T_LIMIT } },
        max: Fx { raw: T_LIMIT },
    };
    let exit = match prim_hit(prims, m.boundary, ray, past, rng) {
        Some(h) => h,
        None => {
            return None;
        },
    };
    let lim: i64 = 0x100_0000_0000;
    if !(entry.t.raw >= -lim && entry.t.raw <= lim && exit.t.raw >= -lim
        && exit.t.raw <= lim) {
        return None;
    }
    let mut entry_t = entry.t.max(t_range.min);
    let exit_t = exit.t.min(t_range.max);
    if entry_t.raw >= exit_t.raw {
        return None;
    }
    if entry_t.raw < 0 {
        entry_t = Fx::zero();
    }
    proof {
        bound_dot(ray.dir@, ray.dir@, RAY_LIMIT as int, RAY_LIMIT as int);
    }
    let ray_len = ray.dir.len();
    if ray_len.raw <= 0 || ray_len.raw > 0x10_0000_0000 {
        return None;
    }
    proof {
        crate::vec::lemma_fx_mul_le(exit_t.v() - entry_t.v(), ray_len.v(), 0x200_0000_0000,
            0x10_0000_0000);
    }
    let dist_in_boundary = exit_t.sub(entry_t).mul(ray_len);
    let u = rng.unit();
    let lnu = fx_ln_unit_exec(Fx { raw: u.raw + 1 });
    proof {
        crate::vec::lemma_fx_mul_le(m.neg_inv_density.v(), lnu.v(), 0x1000_0000,
            30 * SCALE as int);
    }
    let hit_dist = m.neg_inv_density.mul(lnu);
    if hit_dist.raw > dist_in_boundary.raw {
        return None;
    }
    proof {
        lemma_mul_bound(hit_dist.v(), SCALE as int, 0x2000_0000_0000, SCALE as int);
        lemma_tdiv_bound(hit_dist.v() * SCALE as int, ray_len.v());
    }
    let t = entry_t.add(hit_dist.div(ray_len));
    if !(t_range.min.raw < t.raw && t.raw < t_range.max.raw) {
        return None;
    }
    let p = match ray.at(t) {
        Some(p) => p,
        None => {
            return None;
        },
    };
    let inside = m.bbox.x.contains(p.x) && m.bbox.y.contains(p.y) && m.bbox.z.contains(p.z);
    if !inside {
        return None;
    }
    proof {
        mat_quant(prims@, i as int, m.phase_function as int);
    }
    Some(Hit {
        p,
        normal: Vec3 { x: Fx::one(), y: Fx::zero(), z: Fx::zero() },
        uv: (Fx::one(), Fx::one()),
        front_face: true,
        t,
        mat: m.phase_function,
    })
}

/// The facts a collection-level hit obeys (as `hit_good` without naming the
/// particular primitive).
pub open spec fn hit_ok(w: Seq<Primitive>, ray: Ray3, t0: int, t1: int, h: HitView) -> bool {
    &&& t0 < h.t < t1
    &&& at_in_range(ray.origin@, ray.dir@, h.t)
    &&& h.p == ray_at(ray.origin@, ray.dir@, h.t)
    &&& v3_bounded(h.normal, UNIT_LIMIT as int)
    &&& 0 <= h.u <= SCALE as int
    &&& 0 <= h.v <= SCALE as int
    &&& 0 <= h.mat
    &&& forall|nm: int| prims_mats_ok(w, nm) ==> h.mat < nm
}

/// The upper ray-parameter bound a scan works against: the best hit so far,
/// or the queried maximum.
pub open spec fn bound_of(acc: Option<HitView>, m0: int) -> int {
    match acc {
        Some(h) => h.t,
        None => m0,
    }
}

/// What a left-to-right scan over primitive indices returns: each candidate
/// is clipped against the best hit so far, exactly as the linear collection
/// walks its members.
#[verifier::opaque]
pub open spec fn scan(w: Seq<Primitive>, s: Seq<usize>, ray: Ray3, t0: int, m0: int,
    acc: Option<HitView>) -> Option<HitView>
    decreases s.len(),
{
    if s.len() == 0 {
        acc
    } else {
        match clip_hit(prim_rho(w, s[0] as int, ray, t0), bound_of(acc, m0)) {
            Some(h) => scan(w, s.drop_first(), ray, t0, m0, Some(h)),
            None => scan(w, s.drop_first(), ray, t0, m0, acc),
        }
    }
}

/// The linear scan threaded through the sampler state: each member is
/// queried against the best bound so far, exactly as `scan`, but carrying
/// the state any medium draws from.
#[verifier::opaque]
pub open spec fn scan_res(w: Seq<Primitive>, s: Seq<usize>, ray: Ray3, t0: int, m0: int,
    acc: Option<HitView>, st: u64) -> (Option<HitView>, u64)
    decreases s.len(),
{
    if s.len() == 0 {
        (acc, st)
    } else {
        let cur = prim_res(w, s[0] as int, ray, t0, bound_of(acc, m0), st);
        match cur.0 {
            Some(h) => scan_res(w, s.drop_first(), ray, t0, m0, Some(h), cur.1),
            None => scan_res(w, s.drop_first(), ray, t0, m0, acc, cur.1),
        }
    }
}

/// Every index is a primitive of the arena.
pub open spec fn objs_ok(s: Seq<usize>, n: int) -> bool {
    forall|k: int| 0 <= k < s.len() ==> (#[trigger] s[k]) < n
}

/// Every listed primitive is deterministic.
pub open spec fn all_det(w: Seq<Primitive>, s: Seq<usize>) -> bool {
    forall|k: int| 0 <= k < s.len() ==> prim_det(w, (#[trigger] s[k]) as int)
}

/// The exact box of a collection: the fold of per-axis unions over the
/// members' stored boxes, starting from the empty box.
pub open spec fn boxes_union(w: Seq<Primitive>, s: Seq<usize>, k: int) -> AABB
    decreases k,
{
    if k <= 0 {
        AABB {
            x: Interval { min: Fx { raw: T_LIMIT }, max: Fx { raw: (-(T_LIMIT as int)) as i64 } },
            y: Interval { min: Fx { raw: T_LIMIT }, max: Fx { raw: (-(T_LIMIT as int)) as i64 } },
            z: Interval { min: Fx { raw: T_LIMIT }, max: Fx { raw: (-(T_LIMIT as int)) as i64 } },
        }
    } else {
        crate::aabb::union_box(boxes_union(w, s, k - 1), prim_bbox(w[s[k - 1] as int]))
    }
}

/// A flat, growable collection of primitives, walked linearly.
#[derive(Clone, PartialEq, Eq, Debug)]
pub struct Hittables {
    pub objects: Vec<usize>,
    pub bbox: AABB,
}

/// The collection's box contains every member's box.
pub open spec fn hittables_wf(hs: Hittables, w: Seq<Primitive>) -> bool {
    &&& objs_ok(hs.objects@, w.len() as int)
    &&& forall|k: int| 0 <= k < hs.objects@.len()
        ==> box_contains(hs.bbox, prim_bbox(w[#[trigger] hs.objects@[k] as int]))
}

impl Hittables {
    pub fn new() -> (r: Hittables)
        ensures
            r.objects@.len() == 0,
            forall|w: Seq<Primitive>| hittables_wf(r, w),
    {
        Hittables { objects: Vec::new(), bbox: AABB::empty() }
    }

    /// Wrap a list of member indices, computing the united box.
    pub fn from_vec(objects: Vec<usize>, world: &World) -> (r: Hittables)
        requires
            objs_ok(objects@, world.prims@.len() as int),
        ensures
            r.objects@ == objects@,
            r.bbox == boxes_union(world.prims@, objects@, objects@.len() as int),
            hittables_wf(r, world.prims@),
    {
        let mut bbox = AABB::empty();
        let mut k: usize = 0;
        while k < objects.len()
            invariant
                objs_ok(objects@, world.prims@.len() as int),
                k <= objects.len(),
                bbox == boxes_union(world.prims@, objects@, k as int),
                forall|j: int| 0 <= j < k
                    ==> box_contains(bbox, prim_bbox(world.prims@[#[trigger] objects@[j] as int])),
            decreases objects.len() - k,
        {
            bbox = AABB::from_bboxes(&bbox, &prim_bbox_exec(&world.prims[objects[k]]));
            k = k + 1;
        }
        Hittables { objects, bbox }
    }

    /// Add one member, growing the box to keep containing everything.
    pub fn add(&mut self, world: &World, idx: usize)
        requires
            hittables_wf(*old(self), world.prims@),
            idx < world.prims@.len(),
        ensures
            final(self).objects@ == old(self).objects@.push(idx),
            final(self).bbox == (if old(self).objects@.len() == 0 {
                prim_bbox(world.prims@[idx as int])
            } else {
                crate::aabb::union_box(old(self).bbox, prim_bbox(world.prims@[idx as int]))
            }),
            hittables_wf(*final(self), world.prims@),
    {
        let b = prim_bbox_exec(&world.prims[idx]);
        if self.objects.len() == 0 {
            self.bbox = b;
        } else {
            self.bbox = AABB::from_bboxes(&self.bbox, &b);
        }
        self.objects.push(idx);
    }

    /// Absorb another collection's members.
    pub fn extend(&mut self, world: &World, other: &Hittables)
        requires
            hittables_wf(*old(self), world.prims@),
            hittables_wf(*other, world.prims@),
        ensures
            final(self).objects@ == old(self).objects@ + other.objects@,
            final(self).bbox == crate::aabb::union_box(old(self).bbox, other.bbox),
            hittables_wf(*final(self), world.prims@),
    {
        self.bbox = AABB::from_bboxes(&self.bbox, &other.bbox);
        let mut k: usize = 0;
        while k < other.objects.len()
            invariant
                hittables_wf(*other, world.prims@),
                box_contains(self.bbox, other.bbox),
                self.bbox == crate::aabb::union_box(old(self).bbox, other.bbox),
                k <= other.objects@.len(),
                self.objects@ == old(self).objects@ + other.objects@.subrange(0, k as int),
                hittables_wf(*self, world.prims@),
            decreases other.objects@.len() - k,
        {
            self.objects.push(other.objects[k]);
            k = k + 1;
            proof {
                assert(old(self).objects@ + other.objects@.subrange(0, k as int)
                    =~= (old(self).objects@ + other.objects@.subrange(0, k as int - 1)).push(
                    other.objects@[k as int - 1]));
            }
        }
        proof {
            assert(other.objects@.subrange(0, other.objects@.len() as int) =~= other.objects@);
        }
    }

    /// The closest hit over all members within the range: a left-to-right
    /// scan, tightening the upper bound at every hit.
    pub fn hit(&self, world: &World, ray: &Ray3, t_range: Interval, rng: &mut Prng)
        -> (r: Option<Hit>)
        requires
            world_wf(*world),
            hittables_wf(*self, world.prims@),
            ray_wf(*ray),
        ensures
            all_det(world.prims@, self.objects@) ==> opt_hit_view(r) == scan(world.prims@,
                self.objects@, *ray, t_range.min.v(), t_range.max.v(), None)
                && final(rng).state == old(rng).state,
            (opt_hit_view(r), final(rng).state) == scan_res(world.prims@, self.objects@, *ray,
                t_range.min.v(), t_range.max.v(), None, old(rng).state),
            match r {
                Some(h) => hit_ok(world.prims@, *ray, t_range.min.v(), t_range.max.v(), h@),
                None => true,
            },
    {
        let r = scan_from(&world.prims, &self.objects, 0, ray, t_range.min, t_range.max, None,
            rng);
        proof {
            assert(self.objects@.skip(0) =~= self.objects@);
        }
        r
    }

    pub fn bbox(&self) -> (r: AABB)
        ensures
            r == self.bbox,
    {
        self.bbox
    }
}

/// The tail of the linear scan from member `k` on, carrying the best hit so
/// far.
fn scan_from(prims: &Vec<Primitive>, objects: &Vec<usize>, k: usize, ray: &Ray3, t0: Fx, m0: Fx,
    acc: Option<Hit>, rng: &mut Prng) -> (r: Option<Hit>)
    requires
        prims_wf(prims@),
        objs_ok(objects@, prims@.len() as int),
        ray_wf(*ray),
        k <= objects@.len(),
        match acc {
            Some(h) => hit_ok(prims@, *ray, t0.v(), m0.v(), h@),
            None => true,
        },
    ensures
        all_det(prims@, objects@.skip(k as int)) ==> opt_hit_view(r) == scan(prims@,
            objects@.skip(k as int), *ray, t0.v(), m0.v(), opt_hit_view(acc))
            && final(rng).state == old(rng).state,
        (opt_hit_view(r), final(rng).state) == scan_res(prims@, objects@.skip(k as int), *ray,
            t0.v(), m0.v(), opt_hit_view(acc), old(rng).state),
        match r {
            Some(h) => hit_ok(prims@, *ray, t0.v(), m0.v(), h@),
            None => acc is None,
        },
    decreases objects@.len() - k,
{
    proof {
        reveal(scan);
        reveal(scan_res);
    }
    if k == objects.len() {
        proof {
            assert(objects@.skip(k as int) =~= Seq::<usize>::empty());
        }
        return acc;
    }
    let bound = match &acc {
        Some(h) => h.t,
        None => m0,
    };
    let cur = prim_hit(prims, objects[k], ray, Interval { min: t0, max: bound }, rng);
    proof {
        assert(objects@.skip(k as int).drop_first() =~= objects@.skip(k as int + 1));
        assert(objects@.skip(k as int)[0] == objects@[k as int]);
    }
    match cur {
        Some(h) => scan_from(prims, objects, k + 1, ray, t0, m0, Some(h), rng),
        None => scan_from(prims, objects, k + 1, ray, t0, m0, acc, rng),
    }
}

/// A scene: primitives and materials in index arenas, immutable once built
/// and freely shareable across render workers.
#[derive(Clone, PartialEq, Eq, Debug)]
pub struct World {
    pub prims: Vec<Primitive>,
    pub mats: Vec<Material>,
}

pub open spec fn world_wf(w: World) -> bool {
    &&& prims_wf(w.prims@)
    &&& prims_mats_ok(w.prims@, w.mats@.len() as int)
    &&& forall|j: int| 0 <= j < w.mats@.len() ==> mat_wf(#[trigger] w.mats@[j])
}

impl World {
    pub fn new() -> (r: World)
        ensures
            r.prims@.len() == 0,
            r.mats@.len() == 0,
            world_wf(r),
    {
        World { prims: Vec::new(), mats: Vec::new() }
    }

    /// Register a material; its index is how primitives refer to it.
    pub fn add_mat(&mut self, m: Material) -> (idx: usize)
        requires
            world_wf(*old(self)),
            mat_wf(m),
        ensures
            world_wf(*final(self)),
            final(self).mats@ == old(self).mats@.push(m),
            final(self).prims@ == old(self).prims@,
            idx == old(self).mats@.len(),
    {
        let idx = self.mats.len();
        self.mats.push(m);
        proof {
            assert forall|i: int| 0 <= i < self.prims@.len()
                implies prim_mat_ok(#[trigger] self.prims@[i], self.mats@.len() as int) by {
                assert(prim_mat_ok(self.prims@[i], old(self).mats@.len() as int));
            }
        }
        idx
    }

    /// Register a primitive; wrappers must refer to earlier entries and
    /// materials must already be registered.
    pub fn add_prim(&mut self, p: Primitive) -> (idx: usize)
        requires
            world_wf(*old(self)),
            prim_shape_wf(p),
            prim_child_ok(p, old(self).prims@.len() as int),
            prim_mat_ok(p, old(self).mats@.len() as int),
        ensures
            world_wf(*final(self)),
            final(self).prims@ == old(self).prims@.push(p),
            final(self).mats@ == old(self).mats@,
            idx == old(self).prims@.len(),
    {
        let idx = self.prims.len();
        self.prims.push(p);
        idx
    }
}

} // verus!
