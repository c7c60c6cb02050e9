//! Rays, hit records and scatter results.

use vstd::prelude::*;
use crate::fx::{Fx, fx_mul, iabs, SCALE, lemma_mul_bound};
use crate::vec::{Vec3, Point, Color, V3i, v3_add, v3_bounded};

verus! {

/// Bound on the components of a ray origin or direction.
pub const RAY_LIMIT: i64 = 0x2_0000_0000;

/// Bound on the components of a reported hit point; points farther out than
/// this are treated as misses, far beyond any coordinate a scene may hold.
pub const POINT_LIMIT: i64 = 0x2_0000_0000;

/// A ray with an origin, a direction and the time at which it samples moving
/// geometry (in [0, 1], forwarded unchanged through every scattered ray).
#[derive(Clone, Copy, PartialEq, Eq, Structural, Debug)]
pub struct Ray3 {
    pub origin: Point,
    pub dir: Vec3,
    pub time: Fx,
}

/// Origin, direction and time within the bounds every query assumes.
pub open spec fn ray_wf(r: Ray3) -> bool {
    &&& v3_bounded(r.origin@, RAY_LIMIT as int)
    &&& v3_bounded(r.dir@, RAY_LIMIT as int)
    &&& 0 <= r.time.v() <= SCALE as int
}

/// The exact fixed-point position of a ray at parameter `t`.
pub open spec fn ray_at(o: V3i, d: V3i, t: int) -> V3i {
    v3_add(o, V3i { x: fx_mul(d.x, t), y: fx_mul(d.y, t), z: fx_mul(d.z, t) })
}

/// The position at `t` stays within `POINT_LIMIT` on every axis.
pub open spec fn at_in_range(o: V3i, d: V3i, t: int) -> bool {
    v3_bounded(ray_at(o, d, t), POINT_LIMIT as int)
}

impl Ray3 {
    pub fn with_time(origin: Point, dir: Vec3, time: Fx) -> (r: Ray3)
        ensures
            r == (Ray3 { origin, dir, time }),
    {
        Ray3 { origin, dir, time }
    }

    pub fn without_time(origin: Point, dir: Vec3) -> (r: Ray3)
        ensures
            r == (Ray3 { origin, dir, time: Fx { raw: 0 } }),
    {
        Ray3 { origin, dir, time: Fx::zero() }
    }

    /// Position at parameter `t`, or `None` when it leaves the representable
    /// scene volume (such a position could not lie on any primitive).
    pub fn at(&self, t: Fx) -> (r: Option<Point>)
        requires
            ray_wf(*self),
        ensures
            match r {
                Some(p) => at_in_range(self.origin@, self.dir@, t.v())
                    && p@ == ray_at(self.origin@, self.dir@, t.v()),
                None => !at_in_range(self.origin@, self.dir@, t.v()),
            },
    {
        let x = at_axis(self.origin.x, self.dir.x, t);
        let y = at_axis(self.origin.y, self.dir.y, t);
        let z = at_axis(self.origin.z, self.dir.z, t);
        match (x, y, z) {
            (Some(x), Some(y), Some(z)) => Some(Vec3 { x, y, z }),
            _ => None,
        }
    }
}

/// One axis of `Ray3::at`: `o + d * t` if it stays within `POINT_LIMIT`.
fn at_axis(o: Fx, d: Fx, t: Fx) -> (r: Option<Fx>)
    requires
        iabs(o.v()) <= RAY_LIMIT as int,
        iabs(d.v()) <= RAY_LIMIT as int,
    ensures
        match r {
            Some(p) => p.v() == o.v() + fx_mul(d.v(), t.v())
                && iabs(p.v()) <= POINT_LIMIT as int,
            None => iabs(o.v() + fx_mul(d.v(), t.v())) > POINT_LIMIT as int,
        },
{
    proof {
        lemma_mul_bound(d.v(), t.v(), 0x8000_0000_0000_0000, 0x8000_0000_0000_0000);
    }
    let q: i128 = crate::fx::mul_then_tdiv(d.raw, t.raw);
    let p: i128 = (o.raw as i128) + q;
    if p > POINT_LIMIT as i128 || p < -(POINT_LIMIT as i128) {
        None
    } else {
        Some(Fx { raw: p as i64 })
    }
}

/// Mathematical view of a hit record.
pub ghost struct HitView {
    pub p: V3i,
    pub normal: V3i,
    pub u: int,
    pub v: int,
    pub front_face: bool,
    pub t: int,
    pub mat: int,
}

/// Everything a material needs to respond to an intersection. `mat` indexes
/// the world's material arena.
#[derive(Clone, Copy, Debug)]
pub struct Hit {
    pub p: Point,
    pub normal: Vec3,
    pub uv: (Fx, Fx),
    pub front_face: bool,
    pub t: Fx,
    pub mat: usize,
}

impl View for Hit {
    type V = HitView;

    open spec fn view(&self) -> HitView {
        HitView {
            p: self.p@,
            normal: self.normal@,
            u: self.uv.0.v(),
            v: self.uv.1.v(),
            front_face: self.front_face,
            t: self.t.v(),
            mat: self.mat as int,
        }
    }
}

/// The view of an optional hit.
pub open spec fn opt_hit_view(r: Option<Hit>) -> Option<HitView> {
    match r {
        Some(h) => Some(h@),
        None => None,
    }
}

/// Keep a candidate hit only when it falls short of the range's upper end.
pub open spec fn clip_hit(c: Option<HitView>, m: int) -> Option<HitView> {
    match c {
        Some(h) => if h.t < m { Some(h) } else { None },
        None => None,
    }
}

/// A scattered ray together with the color attenuation it carries.
#[derive(Clone, Copy, Debug)]
pub struct Scatter {
    pub attenuation: Color,
    pub scattered_ray: Ray3,
}

} // verus!
