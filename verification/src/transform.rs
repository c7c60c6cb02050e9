//! Transform wrappers: translation and rotation of a wrapped primitive.

use vstd::prelude::*;
use crate::fx::{Fx, iabs, SCALE, COORD_LIMIT};
use crate::vec::{Vec3, V3i, v3_bounded};
use crate::aabb::{AABB, aabb_bounded, BOX_LIMIT};

verus! {

/// A coordinate axis, naming the rotation plane of a `Rotate` wrapper.
#[derive(Clone, Copy, PartialEq, Eq, Structural, Debug)]
pub enum Axis {
    X,
    Y,
    Z,
}

/// A wrapped primitive shifted by a fixed offset. `object` indexes the
/// world's primitive arena and must come before this wrapper in it.
#[derive(Clone, Copy, PartialEq, Eq, Structural, Debug)]
pub struct Translate {
    pub object: usize,
    pub offset: Vec3,
    pub bbox: AABB,
}

pub open spec fn translate_wf(t: Translate) -> bool {
    &&& v3_bounded(t.offset@, COORD_LIMIT as int)
    &&& aabb_bounded(t.bbox, BOX_LIMIT as int)
}

/// A wrapped primitive rotated about one axis; the angle is stored as its
/// cosine and sine.
#[derive(Clone, Copy, PartialEq, Eq, Structural, Debug)]
pub struct Rotate {
    pub object: usize,
    pub cos_theta: Fx,
    pub sin_theta: Fx,
    pub axis: Axis,
    pub bbox: AABB,
}

pub open spec fn rotate_wf(r: Rotate) -> bool {
    &&& iabs(r.cos_theta.v()) <= SCALE as int
    &&& iabs(r.sin_theta.v()) <= SCALE as int
    &&& aabb_bounded(r.bbox, BOX_LIMIT as int)
}

/// Rotation of a vector about the given axis by the angle with the given
/// cosine and sine.
pub open spec fn rot_about(a: V3i, axis: Axis, c: int, s: int) -> V3i {
    match axis {
        Axis::X => crate::vec::v3_rot_x(a, c, s),
        Axis::Y => crate::vec::v3_rot_y(a, c, s),
        Axis::Z => crate::vec::v3_rot_z(a, c, s),
    }
}

impl Translate {
    /// Wrap an earlier primitive, shifted by `offset`; the box is the
    /// wrapped primitive's box shifted along.
    pub fn new(world: &crate::world::World, object: usize, offset: Vec3) -> (r: Translate)
        requires
            object < world.prims@.len(),
            v3_bounded(offset@, COORD_LIMIT as int),
            aabb_bounded(crate::world::prim_bbox(world.prims@[object as int]), 0x1_0000_0000),
        ensures
            r.object == object,
            r.offset == offset,
            r.bbox.x.min.v() == crate::world::prim_bbox(world.prims@[object as int]).x.min.v()
                + offset@.x,
            r.bbox.x.max.v() == crate::world::prim_bbox(world.prims@[object as int]).x.max.v()
                + offset@.x,
            r.bbox.y.min.v() == crate::world::prim_bbox(world.prims@[object as int]).y.min.v()
                + offset@.y,
            r.bbox.y.max.v() == crate::world::prim_bbox(world.prims@[object as int]).y.max.v()
                + offset@.y,
            r.bbox.z.min.v() == crate::world::prim_bbox(world.prims@[object as int]).z.min.v()
                + offset@.z,
            r.bbox.z.max.v() == crate::world::prim_bbox(world.prims@[object as int]).z.max.v()
                + offset@.z,
            translate_wf(r),
    {
        let inner = crate::world::prim_bbox_exec(&world.prims[object]);
        Translate { object, offset, bbox: inner.shift(offset) }
    }
}

/// The box spanning the eight rotated corners of a box.
pub open spec fn rot_corners_box(b: AABB, axis: Axis, c: int, s: int) -> AABB {
    let c000 = rot_about(V3i { x: b.x.min.v(), y: b.y.min.v(), z: b.z.min.v() }, axis, c, s);
    let c001 = rot_about(V3i { x: b.x.min.v(), y: b.y.min.v(), z: b.z.max.v() }, axis, c, s);
    let c010 = rot_about(V3i { x: b.x.min.v(), y: b.y.max.v(), z: b.z.min.v() }, axis, c, s);
    let c011 = rot_about(V3i { x: b.x.min.v(), y: b.y.max.v(), z: b.z.max.v() }, axis, c, s);
    let c100 = rot_about(V3i { x: b.x.max.v(), y: b.y.min.v(), z: b.z.min.v() }, axis, c, s);
    let c101 = rot_about(V3i { x: b.x.max.v(), y: b.y.min.v(), z: b.z.max.v() }, axis, c, s);
    let c110 = rot_about(V3i { x: b.x.max.v(), y: b.y.max.v(), z: b.z.min.v() }, axis, c, s);
    let c111 = rot_about(V3i { x: b.x.max.v(), y: b.y.max.v(), z: b.z.max.v() }, axis, c, s);
    AABB {
        x: mk_iv(imin8(c000.x, c001.x, c010.x, c011.x, c100.x, c101.x, c110.x, c111.x),
            imax8(c000.x, c001.x, c010.x, c011.x, c100.x, c101.x, c110.x, c111.x)),
        y: mk_iv(imin8(c000.y, c001.y, c010.y, c011.y, c100.y, c101.y, c110.y, c111.y),
            imax8(c000.y, c001.y, c010.y, c011.y, c100.y, c101.y, c110.y, c111.y)),
        z: mk_iv(imin8(c000.z, c001.z, c010.z, c011.z, c100.z, c101.z, c110.z, c111.z),
            imax8(c000.z, c001.z, c010.z, c011.z, c100.z, c101.z, c110.z, c111.z)),
    }
}

pub open spec fn mk_iv(lo: int, hi: int) -> crate::interval::Interval {
    crate::interval::Interval { min: Fx { raw: lo as i64 }, max: Fx { raw: hi as i64 } }
}

pub open spec fn imin8(a: int, b: int, c: int, d: int, e: int, f: int, g: int, h: int) -> int {
    let m1 = if a <= b { a } else { b };
    let m2 = if c <= d { c } else { d };
    let m3 = if e <= f { e } else { f };
    let m4 = if g <= h { g } else { h };
    let n1 = if m1 <= m2 { m1 } else { m2 };
    let n2 = if m3 <= m4 { m3 } else { m4 };
    if n1 <= n2 { n1 } else { n2 }
}

pub open spec fn imax8(a: int, b: int, c: int, d: int, e: int, f: int, g: int, h: int) -> int {
    let m1 = if a >= b { a } else { b };
    let m2 = if c >= d { c } else { d };
    let m3 = if e >= f { e } else { f };
    let m4 = if g >= h { g } else { h };
    let n1 = if m1 >= m2 { m1 } else { m2 };
    let n2 = if m3 >= m4 { m3 } else { m4 };
    if n1 >= n2 { n1 } else { n2 }
}

/// Rotating a point of a bounded box stays within the transform range.
pub proof fn bound_rot_corner(a: V3i, axis: Axis, c: int, s: int)
    requires
        v3_bounded(a, 0x1_0000_0000),
        iabs(c) <= SCALE as int,
        iabs(s) <= SCALE as int,
    ensures
        v3_bounded(rot_about(a, axis, c, s), 0x2_0000_0000),
{
    crate::vec::lemma_fx_mul_le(a.x, c, 0x1_0000_0000, SCALE as int);
    crate::vec::lemma_fx_mul_le(a.y, c, 0x1_0000_0000, SCALE as int);
    crate::vec::lemma_fx_mul_le(a.z, c, 0x1_0000_0000, SCALE as int);
    crate::vec::lemma_fx_mul_le(a.x, s, 0x1_0000_0000, SCALE as int);
    crate::vec::lemma_fx_mul_le(a.y, s, 0x1_0000_0000, SCALE as int);
    crate::vec::lemma_fx_mul_le(a.z, s, 0x1_0000_0000, SCALE as int);
}

impl Rotate {
    /// Wrap an earlier primitive, rotated about `axis` by the angle with the
    /// given cosine and sine; the box is computed once, spanning the eight
    /// rotated corners of the wrapped primitive's box.
    pub fn new(world: &crate::world::World, object: usize, cos_theta: Fx, sin_theta: Fx,
        axis: Axis) -> (r: Rotate)
        requires
            object < world.prims@.len(),
            iabs(cos_theta.v()) <= SCALE as int,
            iabs(sin_theta.v()) <= SCALE as int,
            aabb_bounded(crate::world::prim_bbox(world.prims@[object as int]), 0x1_0000_0000),
        ensures
            r.object == object,
            r.cos_theta == cos_theta,
            r.sin_theta == sin_theta,
            r.axis == axis,
            r.bbox == rot_corners_box(crate::world::prim_bbox(world.prims@[object as int]),
                axis, cos_theta.v(), sin_theta.v()),
            rotate_wf(r),
    {
        let b = crate::world::prim_bbox_exec(&world.prims[object]);
        let c000 = Vec3 { x: b.x.min, y: b.y.min, z: b.z.min }.rot_about(axis, cos_theta,
            sin_theta);
        let c001 = Vec3 { x: b.x.min, y: b.y.min, z: b.z.max }.rot_about(axis, cos_theta,
            sin_theta);
        let c010 = Vec3 { x: b.x.min, y: b.y.max, z: b.z.min }.rot_about(axis, cos_theta,
            sin_theta);
        let c011 = Vec3 { x: b.x.min, y: b.y.max, z: b.z.max }.rot_about(axis, cos_theta,
            sin_theta);
        let c100 = Vec3 { x: b.x.max, y: b.y.min, z: b.z.min }.rot_about(axis, cos_theta,
            sin_theta);
        let c101 = Vec3 { x: b.x.max, y: b.y.min, z: b.z.max }.rot_about(axis, cos_theta,
            sin_theta);
        let c110 = Vec3 { x: b.x.max, y: b.y.max, z: b.z.min }.rot_about(axis, cos_theta,
            sin_theta);
        let c111 = Vec3 { x: b.x.max, y: b.y.max, z: b.z.max }.rot_about(axis, cos_theta,
            sin_theta);
        proof {
            bound_rot_corner(V3i { x: b.x.min.v(), y: b.y.min.v(), z: b.z.min.v() }, axis,
                cos_theta.v(), sin_theta.v());
            bound_rot_corner(V3i { x: b.x.min.v(), y: b.y.min.v(), z: b.z.max.v() }, axis,
                cos_theta.v(), sin_theta.v());
            bound_rot_corner(V3i { x: b.x.min.v(), y: b.y.max.v(), z: b.z.min.v() }, axis,
                cos_theta.v(), sin_theta.v());
            bound_rot_corner(V3i { x: b.x.min.v(), y: b.y.max.v(), z: b.z.max.v() }, axis,
                cos_theta.v(), sin_theta.v());
            bound_rot_corner(V3i { x: b.x.max.v(), y: b.y.min.v(), z: b.z.min.v() }, axis,
                cos_theta.v(), sin_theta.v());
            bound_rot_corner(V3i { x: b.x.max.v(), y: b.y.min.v(), z: b.z.max.v() }, axis,
                cos_theta.v(), sin_theta.v());
            bound_rot_corner(V3i { x: b.x.max.v(), y: b.y.max.v(), z: b.z.min.v() }, axis,
                cos_theta.v(), sin_theta.v());
            bound_rot_corner(V3i { x: b.x.max.v(), y: b.y.max.v(), z: b.z.max.v() }, axis,
                cos_theta.v(), sin_theta.v());
        }
        let bbox = AABB {
            x: crate::interval::Interval {
                min: min8(c000.x, c001.x, c010.x, c011.x, c100.x, c101.x, c110.x, c111.x),
                max: max8(c000.x, c001.x, c010.x, c011.x, c100.x, c101.x, c110.x, c111.x),
            },
            y: crate::interval::Interval {
                min: min8(c000.y, c001.y, c010.y, c011.y, c100.y, c101.y, c110.y, c111.y),
                max: max8(c000.y, c001.y, c010.y, c011.y, c100.y, c101.y, c110.y, c111.y),
            },
            z: crate::interval::Interval {
                min: min8(c000.z, c001.z, c010.z, c011.z, c100.z, c101.z, c110.z, c111.z),
                max: max8(c000.z, c001.z, c010.z, c011.z, c100.z, c101.z, c110.z, c111.z),
            },
        };
        Rotate { object, cos_theta, sin_theta, axis, bbox }
    }
}

/// Smallest of eight scalars.
fn min8(a: Fx, b: Fx, c: Fx, d: Fx, e: Fx, f: Fx, g: Fx, h: Fx) -> (r: Fx)
    ensures
        r.v() == imin8(a.v(), b.v(), c.v(), d.v(), e.v(), f.v(), g.v(), h.v()),
{
    a.min(b).min(c.min(d)).min(e.min(f).min(g.min(h)))
}

/// Largest of eight scalars.
fn max8(a: Fx, b: Fx, c: Fx, d: Fx, e: Fx, f: Fx, g: Fx, h: Fx) -> (r: Fx)
    ensures
        r.v() == imax8(a.v(), b.v(), c.v(), d.v(), e.v(), f.v(), g.v(), h.v()),
{
    a.max(b).max(c.max(d)).max(e.max(f).max(g.max(h)))
}

impl Vec3 {
    /// Rotate about the chosen axis.
    pub fn rot_about(self, axis: Axis, c: Fx, s: Fx) -> (r: Vec3)
        requires
            v3_bounded(self@, crate::vec::ROT_LIMIT as int),
            iabs(c.v()) <= 2 * SCALE as int,
            iabs(s.v()) <= 2 * SCALE as int,
        ensures
            r@ == rot_about(self@, axis, c.v(), s.v()),
            v3_bounded(r@, crate::vec::VEC_LIMIT as int),
    {
        match axis {
            Axis::X => self.rot_x(c, s),
            Axis::Y => self.rot_y(c, s),
            Axis::Z => self.rot_z(c, s),
        }
    }
}

} // verus!
