//! Spheres, stationary or in linear motion, with their intersection routine.

use vstd::prelude::*;
use crate::fx::{Fx, fx_mul, fx_div, fx_sqrt, iabs, tdiv, isqrt_s, SCALE, COORD_LIMIT,
    lemma_mul_bound, lemma_tdiv_bound, lemma_tdiv_exact, lemma_isqrt_unique, isqrt128, tdiv128};
use crate::vec::{Vec3, Point, V3i, v3_bounded, v3_add, v3_sub, v3_neg, v3_scale, v3_dot,
    v3_div_k, UNIT_LIMIT, bound_dot, bound_scale, lemma_fx_mul_le};
use crate::interval::Interval;
use crate::ray::{Ray3, ray_wf, ray_at, at_in_range, Hit, HitView, opt_hit_view, clip_hit};
use crate::aabb::{AABB, pt_in_box, aabb_bounded, BOX_LIMIT};

verus! {

/// A sphere whose center travels along `center` over the unit time interval
/// (a zero direction keeps it still).
#[derive(Clone, Copy, PartialEq, Eq, Structural, Debug)]
pub struct Sphere {
    pub radius: Fx,
    pub center: Ray3,
    pub mat: usize,
    pub bbox: AABB,
    pub naz_rot: Fx,
}

pub open spec fn sphere_wf(s: Sphere) -> bool {
    &&& v3_bounded(s.center.origin@, COORD_LIMIT as int)
    &&& v3_bounded(s.center.dir@, COORD_LIMIT as int)
    &&& 1 <= s.radius.v() <= COORD_LIMIT as int
    &&& 0 <= s.naz_rot.v() < SCALE as int
    &&& aabb_bounded(s.bbox, BOX_LIMIT as int)
}

/// Surface coordinate of the point with the given outward normal, from its
/// spherical angles, shifted by the azimuthal texture rotation.
pub open spec fn sphere_uv(outward: V3i, naz: int) -> (int, int) {
    let polar = fx_acos(-outward.y);
    let azimuth = fx_atan2(-outward.z, outward.x) + PI as int;
    let u0 = fx_div(azimuth, TWO_PI as int);
    let u1 = if u0 >= SCALE as int { u0 - SCALE as int } else { u0 };
    let u2 = u1 + naz;
    let u = if u2 >= SCALE as int { u2 - SCALE as int } else { u2 };
    let v0 = fx_div(polar, PI as int);
    let v = if v0 >= SCALE as int { v0 - SCALE as int } else { v0 };
    (u, v)
}

/// The candidate intersection of a ray with the sphere past `t0`, before any
/// upper range bound is applied: the nearer admissible root of the quadratic,
/// with its surface data, or `None` where the ray misses (or the arithmetic
/// guards reject the configuration).
pub open spec fn sphere_rho(s: Sphere, ray: Ray3, t0: int) -> Option<HitView> {
    let cc = v3_add(s.center.origin@, v3_scale(s.center.dir@, ray.time.v()));
    let cq = v3_sub(ray.origin@, cc);
    let a = v3_dot(ray.dir@, ray.dir@);
    let b = v3_dot(v3_add(ray.dir@, ray.dir@), cq);
    let c = v3_dot(cq, cq) - fx_mul(s.radius.v(), s.radius.v());
    let disc = b * b - 4 * a * c;
    if a <= 0 || disc < 0 {
        None
    } else {
        let sq = isqrt_s(disc);
        let t1 = tdiv((-b - sq) * SCALE as int, 2 * a);
        let t2 = tdiv((-b + sq) * SCALE as int, 2 * a);
        if t0 < t1 {
            sphere_finish(s, ray, cc, t1)
        } else if t0 < t2 {
            sphere_finish(s, ray, cc, t2)
        } else {
            None
        }
    }
}

/// Surface data at a chosen root, with the guards the implementation applies:
/// the point must be representable, the normal sane, and the point inside the
/// sphere's stored box.
pub open spec fn sphere_finish(s: Sphere, ray: Ray3, cc: V3i, t: int) -> Option<HitView> {
    if !at_in_range(ray.origin@, ray.dir@, t) {
        None
    } else {
        let p = ray_at(ray.origin@, ray.dir@, t);
        let outward = v3_div_k(v3_sub(p, cc), s.radius.v());
        if !v3_bounded(outward, UNIT_LIMIT as int) || !pt_in_box(s.bbox, p) {
            None
        } else {
            let front = v3_dot(ray.dir@, outward) < 0;
            let uv = sphere_uv(outward, s.naz_rot.v());
            Some(HitView {
                p,
                normal: if front { outward } else { v3_neg(outward) },
                u: uv.0,
                v: uv.1,
                front_face: front,
                t,
                mat: s.mat as int,
            })
        }
    }
}

impl Sphere {
    /// A stationary sphere; its box spans `center` plus/minus the radius.
    pub fn new(radius: Fx, center: Point, mat: usize) -> (r: Sphere)
        requires
            v3_bounded(center@, COORD_LIMIT as int),
            1 <= radius.v() <= COORD_LIMIT as int,
        ensures
            r.radius == radius,
            r.center.origin == center,
            r.center.dir@ == (V3i { x: 0, y: 0, z: 0 }),
            r.center.time.v() == 0,
            r.mat == mat,
            r.naz_rot.v() == 0,
            r.bbox.x.min.v() == center@.x - radius.v(),
            r.bbox.x.max.v() == center@.x + radius.v(),
            r.bbox.y.min.v() == center@.y - radius.v(),
            r.bbox.y.max.v() == center@.y + radius.v(),
            r.bbox.z.min.v() == center@.z - radius.v(),
            r.bbox.z.max.v() == center@.z + radius.v(),
            sphere_wf(r),
    {
        let rv = Vec3::splat(radius);
        let bbox = AABB::from_points(&center.sub(rv), &center.add(rv));
        Sphere {
            radius,
            center: Ray3::without_time(center, Vec3::zero()),
            mat,
            bbox,
            naz_rot: Fx::zero(),
        }
    }

    /// Let the center move to `center` over the unit time interval; the box
    /// grows to span the whole path.
    pub fn add_movement(self, center: Point) -> (r: Sphere)
        requires
            sphere_wf(self),
            v3_bounded(center@, COORD_LIMIT as int),
            v3_bounded(v3_sub(center@, self.center.origin@), COORD_LIMIT as int),
        ensures
            r.radius == self.radius,
            r.center.origin == self.center.origin,
            r.center.dir@ == v3_sub(center@, self.center.origin@),
            r.mat == self.mat,
            r.naz_rot == self.naz_rot,
            r.bbox.x.min.v() == (if self.center.origin@.x <= center@.x {
                self.center.origin@.x
            } else {
                center@.x
            }) - self.radius.v(),
            r.bbox.x.max.v() == (if self.center.origin@.x >= center@.x {
                self.center.origin@.x
            } else {
                center@.x
            }) + self.radius.v(),
            r.bbox.y.min.v() == (if self.center.origin@.y <= center@.y {
                self.center.origin@.y
            } else {
                center@.y
            }) - self.radius.v(),
            r.bbox.y.max.v() == (if self.center.origin@.y >= center@.y {
                self.center.origin@.y
            } else {
                center@.y
            }) + self.radius.v(),
            r.bbox.z.min.v() == (if self.center.origin@.z <= center@.z {
                self.center.origin@.z
            } else {
                center@.z
            }) - self.radius.v(),
            r.bbox.z.max.v() == (if self.center.origin@.z >= center@.z {
                self.center.origin@.z
            } else {
                center@.z
            }) + self.radius.v(),
            sphere_wf(r),
    {
        let new_dir = center.sub(self.center.origin);
        let rv = Vec3::splat(self.radius);
        let start = AABB::from_points(&self.center.origin.sub(rv), &self.center.origin.add(rv));
        let end = AABB::from_points(&center.sub(rv), &center.add(rv));
        Sphere {
            radius: self.radius,
            center: Ray3::without_time(self.center.origin, new_dir),
            mat: self.mat,
            bbox: AABB::from_bboxes(&start, &end),
            naz_rot: self.naz_rot,
        }
    }

    /// Rotate the texture around the azimuth by a fraction of a full turn.
    pub fn rotate_texture(&mut self, turn: Fx)
        requires
            0 <= turn.v() < SCALE as int,
        ensures
            final(self).naz_rot == turn,
            final(self).radius == old(self).radius,
            final(self).center == old(self).center,
            final(self).mat == old(self).mat,
            final(self).bbox == old(self).bbox,
    {
        self.naz_rot = turn;
    }

    /// A matte gray sphere, its material registered in the world.
    pub fn lambertian(radius: Fx, center: Point, world: &mut crate::world::World)
        -> (r: Sphere)
        requires
            crate::world::world_wf(*old(world)),
            v3_bounded(center@, COORD_LIMIT as int),
            1 <= radius.v() <= COORD_LIMIT as int,
        ensures
            crate::world::world_wf(*final(world)),
            final(world).prims@ == old(world).prims@,
            final(world).mats@.len() == old(world).mats@.len() + 1,
            sphere_wf(r),
            r.mat == old(world).mats@.len(),
            r.radius == radius,
            r.center.origin == center,
    {
        let gray = Vec3::splat(Fx { raw: SCALE / 2 });
        Self::lambertian_with_albedo(radius, center, gray, world)
    }

    /// A matte sphere with the given albedo.
    pub fn lambertian_with_albedo(radius: Fx, center: Point, albedo: crate::vec::Color,
        world: &mut crate::world::World) -> (r: Sphere)
        requires
            crate::world::world_wf(*old(world)),
            v3_bounded(center@, COORD_LIMIT as int),
            1 <= radius.v() <= COORD_LIMIT as int,
            v3_bounded(albedo@, crate::texture::COLOR_LIMIT as int),
        ensures
            crate::world::world_wf(*final(world)),
            final(world).prims@ == old(world).prims@,
            final(world).mats@.len() == old(world).mats@.len() + 1,
            sphere_wf(r),
            r.mat == old(world).mats@.len(),
            r.radius == radius,
            r.center.origin == center,
    {
        Self::lambertian_with_texture(radius, center, crate::texture::Texture::Solid(
            crate::texture::SolidTex::new(albedo)), world)
    }

    /// A matte sphere with an arbitrary texture.
    pub fn lambertian_with_texture(radius: Fx, center: Point, tex: crate::texture::Texture,
        world: &mut crate::world::World) -> (r: Sphere)
        requires
            crate::world::world_wf(*old(world)),
            v3_bounded(center@, COORD_LIMIT as int),
            1 <= radius.v() <= COORD_LIMIT as int,
            crate::texture::tex_wf(tex),
        ensures
            crate::world::world_wf(*final(world)),
            final(world).prims@ == old(world).prims@,
            final(world).mats@.len() == old(world).mats@.len() + 1,
            sphere_wf(r),
            r.mat == old(world).mats@.len(),
            r.radius == radius,
            r.center.origin == center,
    {
        let mat = world.add_mat(crate::material::Material::Lamb(
            crate::material::Lambertian::new(tex)));
        Sphere::new(radius, center, mat)
    }

    /// A gray metal sphere with the given fuzz.
    pub fn metal(radius: Fx, center: Point, fuzz: Fx, world: &mut crate::world::World)
        -> (r: Sphere)
        requires
            crate::world::world_wf(*old(world)),
            v3_bounded(center@, COORD_LIMIT as int),
            1 <= radius.v() <= COORD_LIMIT as int,
            0 <= fuzz.v() <= SCALE as int,
        ensures
            crate::world::world_wf(*final(world)),
            final(world).prims@ == old(world).prims@,
            final(world).mats@.len() == old(world).mats@.len() + 1,
            sphere_wf(r),
            r.mat == old(world).mats@.len(),
    {
        let gray = Vec3::splat(Fx { raw: SCALE / 2 });
        Self::metal_with_albedo(radius, center, gray, fuzz, world)
    }

    /// A metal sphere with the given albedo and fuzz.
    pub fn metal_with_albedo(radius: Fx, center: Point, albedo: crate::vec::Color, fuzz: Fx,
        world: &mut crate::world::World) -> (r: Sphere)
        requires
            crate::world::world_wf(*old(world)),
            v3_bounded(center@, COORD_LIMIT as int),
            1 <= radius.v() <= COORD_LIMIT as int,
            0 <= fuzz.v() <= SCALE as int,
            v3_bounded(albedo@, crate::texture::COLOR_LIMIT as int),
        ensures
            crate::world::world_wf(*final(world)),
            final(world).prims@ == old(world).prims@,
            final(world).mats@.len() == old(world).mats@.len() + 1,
            sphere_wf(r),
            r.mat == old(world).mats@.len(),
    {
        let mat = world.add_mat(crate::material::Material::Met(crate::material::Metal::new(
            crate::texture::Texture::Solid(crate::texture::SolidTex::new(albedo)), fuzz)));
        Sphere::new(radius, center, mat)
    }

    /// A glass sphere with the given refractive index.
    pub fn dielectric(radius: Fx, center: Point, refractive_index: Fx,
        world: &mut crate::world::World) -> (r: Sphere)
        requires
            crate::world::world_wf(*old(world)),
            v3_bounded(center@, COORD_LIMIT as int),
            1 <= radius.v() <= COORD_LIMIT as int,
            SCALE as int <= refractive_index.v() <= 4 * SCALE as int,
        ensures
            crate::world::world_wf(*final(world)),
            final(world).prims@ == old(world).prims@,
            final(world).mats@.len() == old(world).mats@.len() + 1,
            sphere_wf(r),
            r.mat == old(world).mats@.len(),
    {
        let mat = world.add_mat(crate::material::Material::Diel(
            crate::material::Dielectric::new(refractive_index)));
        Sphere::new(radius, center, mat)
    }

    /// The closest intersection with the ray strictly inside the range, if
    /// any: the clip of the sphere's candidate root to the range's upper end.
    pub fn hit(&self, ray: &Ray3, t_range: &Interval) -> (r: Option<Hit>)
        requires
            sphere_wf(*self),
            ray_wf(*ray),
        ensures
            opt_hit_view(r) == clip_hit(sphere_rho(*self, *ray, t_range.min.v()),
                t_range.max.v()),
    {
        proof {
            bound_scale(self.center.dir@, ray.time.v(), COORD_LIMIT as int, SCALE as int);
            bound_dot(ray.dir@, ray.dir@, 0x2_0000_0000, 0x2_0000_0000);
        }
        let cc = self.center.origin.add(self.center.dir.scale(ray.time));
        let cq = ray.origin.sub(cc);
        proof {
            bound_dot(v3_add(ray.dir@, ray.dir@), cq@, 0x4_0000_0000, 0x3_0000_0000);
            bound_dot(cq@, cq@, 0x3_0000_0000, 0x3_0000_0000);
            lemma_fx_mul_le(self.radius.v(), self.radius.v(), COORD_LIMIT as int,
                COORD_LIMIT as int);
        }
        let a = ray.dir.dot(ray.dir);
        let b = ray.dir.add(ray.dir).dot(cq);
        let c = cq.dot(cq).sub(self.radius.mul(self.radius));
        proof {
            lemma_mul_bound(b.v(), b.v(), 0x24_0000_0000_0000, 0x24_0000_0000_0000);
            lemma_mul_bound(4 * a.v(), c.v(), 0x30_0000_0000_0000, 0x1C_0000_0000_0000);
        }
        let disc: i128 = (b.raw as i128) * (b.raw as i128) - 4 * (a.raw as i128)
            * (c.raw as i128);
        if a.raw <= 0 || disc < 0 {
            return None;
        }
        let sq: u64 = isqrt128(disc as u128);
        proof {
            lemma_isqrt_unique(disc as int, sq as int);
            lemma_mul_bound(-(b.v()) - sq as int, SCALE as int, 0x2000_0000_0000_0000,
                SCALE as int);
            lemma_mul_bound(-(b.v()) + sq as int, SCALE as int, 0x2000_0000_0000_0000,
                SCALE as int);
        }
        let t1: i128 = tdiv128(((-(b.raw as i128)) - (sq as i128)) * (SCALE as i128),
            2 * (a.raw as i128));
        let t2: i128 = tdiv128(((-(b.raw as i128)) + (sq as i128)) * (SCALE as i128),
            2 * (a.raw as i128));
        let t0 = t_range.min.raw as i128;
        let chosen: i128 = if t0 < t1 {
            t1
        } else if t0 < t2 {
            t2
        } else {
            return None;
        };
        if chosen >= t_range.max.raw as i128 {
            return None;
        }
        let t = Fx { raw: chosen as i64 };
        self.finish(ray, cc, t)
    }

    /// Build the hit record at the chosen root, applying the guards.
    fn finish(&self, ray: &Ray3, cc: Point, t: Fx) -> (r: Option<Hit>)
        requires
            sphere_wf(*self),
            ray_wf(*ray),
            v3_bounded(cc@, 0x1_0000_0000),
        ensures
            opt_hit_view(r) == sphere_finish(*self, *ray, cc@, t.v()),
            match r {
                Some(h) => h@.t == t.v(),
                None => true,
            },
    {
        let p = match ray.at(t) {
            Some(p) => p,
            None => {
                return None;
            },
        };
        proof {
            lemma_mul_bound(p@.x - cc@.x, SCALE as int, 0x3_0000_0000, SCALE as int);
            lemma_mul_bound(p@.y - cc@.y, SCALE as int, 0x3_0000_0000, SCALE as int);
            lemma_mul_bound(p@.z - cc@.z, SCALE as int, 0x3_0000_0000, SCALE as int);
            lemma_tdiv_bound((p@.x - cc@.x) * SCALE as int, self.radius.v());
            lemma_tdiv_bound((p@.y - cc@.y) * SCALE as int, self.radius.v());
            lemma_tdiv_bound((p@.z - cc@.z) * SCALE as int, self.radius.v());
        }
        let outward = p.sub(cc).div_k(self.radius);
        let lim: i64 = UNIT_LIMIT;
        let ok = outward.x.raw <= lim && outward.x.raw >= -lim && outward.y.raw <= lim
            && outward.y.raw >= -lim && outward.z.raw <= lim && outward.z.raw >= -lim;
        let inside = self.bbox.x.contains(p.x) && self.bbox.y.contains(p.y)
            && self.bbox.z.contains(p.z);
        if !ok || !inside {
            return None;
        }
        proof {
            bound_dot(ray.dir@, outward@, 0x2_0000_0000, UNIT_LIMIT as int);
        }
        let front = ray.dir.dot(outward).raw < 0;
        let uv = sphere_uv_exec(&outward, self.naz_rot);
        Some(Hit {
            p,
            normal: if front { outward } else { outward.neg() },
            uv,
            front_face: front,
            t,
            mat: self.mat,
        })
    }
}

/// A ray fired along the axis from distance `d` at a sphere of radius `r`
/// around the origin meets it exactly at parameter `d - r` (the nearer
/// root), at the point where the axis pierces the surface. Radius and
/// distance on the whole 1/256-unit grid keep every intermediate product
/// exact, so the equality is on the nose, not within a tolerance.
pub proof fn lemma_axis_ray_hits_sphere(s: Sphere, ray: Ray3, dq: int, rq: int, t0: int)
    requires
        sphere_wf(s),
        s.center.origin@ == (V3i { x: 0, y: 0, z: 0 }),
        s.center.dir@ == (V3i { x: 0, y: 0, z: 0 }),
        s.radius.v() == 256 * rq,
        1 <= rq < dq,
        ray.origin@ == (V3i { x: 256 * dq, y: 0, z: 0 }),
        256 * dq <= COORD_LIMIT as int,
        ray.dir@ == (V3i { x: -(SCALE as int), y: 0, z: 0 }),
        ray.time.v() == 0,
        s.bbox.x.min.v() == -256 * rq && s.bbox.x.max.v() == 256 * rq,
        s.bbox.y.min.v() == -256 * rq && s.bbox.y.max.v() == 256 * rq,
        s.bbox.z.min.v() == -256 * rq && s.bbox.z.max.v() == 256 * rq,
        0 <= t0 < 256 * dq - 256 * rq,
    ensures
        sphere_rho(s, ray, t0) matches Some(h) && h.t == 256 * dq - 256 * rq
            && h.p == (V3i { x: 256 * rq, y: 0, z: 0 }) && h.front_face,
{
    let dd = 256 * dq;
    let rr = 256 * rq;
    let sc = SCALE as int;
    // the moving-center evaluation and all off-axis products are zero
    assert(0 * ray.time.v() == 0 && 0 * (dd - rr) == 0) by (nonlinear_arith);
    lemma_tdiv_exact(0, sc);
    assert(fx_mul(0, ray.time.v()) == 0) by {
        assert(0 * ray.time.v() == 0) by (nonlinear_arith);
    }
    let cc = v3_add(s.center.origin@, v3_scale(s.center.dir@, ray.time.v()));
    assert(cc == (V3i { x: 0, y: 0, z: 0 }));
    let cq = v3_sub(ray.origin@, cc);
    // the quadratic's coefficients
    assert((-sc) * (-sc) == sc * sc) by (nonlinear_arith);
    lemma_tdiv_exact(sc, sc);
    let a = v3_dot(ray.dir@, ray.dir@);
    assert(a == sc);
    assert((-(2 * sc)) * dd == (-(2 * dd)) * sc) by (nonlinear_arith);
    lemma_tdiv_exact(-(2 * dd), sc);
    let b = v3_dot(v3_add(ray.dir@, ray.dir@), cq);
    assert(b == -(2 * dd));
    assert(dd * dd == (dq * dq) * sc && rr * rr == (rq * rq) * sc) by (nonlinear_arith)
        requires
            dd == 256 * dq,
            rr == 256 * rq,
            sc == 65536,
    ;
    lemma_tdiv_exact(dq * dq, sc);
    lemma_tdiv_exact(rq * rq, sc);
    let c = v3_dot(cq, cq) - fx_mul(s.radius.v(), s.radius.v());
    assert(c == dq * dq - rq * rq);
    let disc = b * b - 4 * a * c;
    assert(disc == (512 * rq) * (512 * rq) && disc >= 0 && (512 * rq) * (512 * rq)
        < (512 * rq + 1) * (512 * rq + 1)) by (nonlinear_arith)
        requires
            b == -(2 * dd),
            a == sc,
            sc == 65536,
            c == dq * dq - rq * rq,
            dd == 256 * dq,
            rr == 256 * rq,
            disc == b * b - 4 * a * c,
            1 <= rq,
    ;
    lemma_isqrt_unique(disc, 512 * rq);
    let sq = isqrt_s(disc);
    assert(sq == 512 * rq);
    assert((-b - sq) * sc == (dd - rr) * (2 * sc)) by (nonlinear_arith)
        requires
            b == -(2 * dd),
            sq == 512 * rq,
            rr == 256 * rq,
            sc == 65536,
    ;
    lemma_tdiv_exact(dd - rr, 2 * sc);
    assert(2 * a == 2 * sc);
    let t1 = tdiv((-b - sq) * sc, 2 * a);
    assert(t1 == dd - rr);
    // the surface data at the chosen root
    assert((-sc) * (dd - rr) == (-(dd - rr)) * sc) by (nonlinear_arith);
    lemma_tdiv_exact(-(dd - rr), sc);
    assert(fx_mul(-sc, t1) == -(dd - rr));
    lemma_tdiv_exact(0, sc);
    assert(fx_mul(0, t1) == 0) by {
        assert(0 * t1 == 0) by (nonlinear_arith);
    }
    let p = ray_at(ray.origin@, ray.dir@, t1);
    assert(p == (V3i { x: rr, y: 0, z: 0 }));
    assert(at_in_range(ray.origin@, ray.dir@, t1));
    assert(rr * sc == sc * rr) by (nonlinear_arith);
    lemma_tdiv_exact(sc, rr);
    assert(fx_div(rr, rr) == sc);
    assert(0 * sc == 0 * rr) by (nonlinear_arith);
    assert(fx_div(0, rr) == 0) by {
        assert(0 * sc == 0) by (nonlinear_arith);
        lemma_tdiv_exact(0, rr);
    }
    let outward = v3_div_k(v3_sub(p, cc), s.radius.v());
    assert(outward == (V3i { x: sc, y: 0, z: 0 }));
    assert((-sc) * sc == (-sc) * sc) by (nonlinear_arith);
    lemma_tdiv_exact(-sc, sc);
    assert(v3_dot(ray.dir@, outward) == -sc) by {
        assert((-sc) * sc == (-sc) * sc);
        assert(fx_mul(-sc, sc) == tdiv((-sc) * sc, sc));
        assert((-sc) * sc == (-sc) * sc && tdiv((-sc) * sc, sc) == -sc) by {
            lemma_tdiv_exact(-sc, sc);
        }
        assert(fx_mul(0, 0) == 0) by {
            assert(0 * 0 == 0) by (nonlinear_arith);
        }
    }
    assert(crate::aabb::pt_in_box(s.bbox, p));
}

/// Every hit the sphere's candidate reports is past `t0`, on the ray, in
/// the stored box, and carries surface data within the material bounds.
pub proof fn lemma_sphere_rho_good(s: Sphere, ray: Ray3, t0: int)
    requires
        sphere_wf(s),
        ray_wf(ray),
    ensures
        match sphere_rho(s, ray, t0) {
            Some(h) => t0 < h.t && at_in_range(ray.origin@, ray.dir@, h.t)
                && h.p == ray_at(ray.origin@, ray.dir@, h.t) && pt_in_box(s.bbox, h.p)
                && crate::vec::v3_bounded(h.normal, UNIT_LIMIT as int)
                && 0 <= h.u <= SCALE as int && 0 <= h.v <= SCALE as int
                && h.mat == s.mat as int,
            None => true,
        },
{
    if let Some(h) = sphere_rho(s, ray, t0) {
        let cc = crate::vec::v3_add(s.center.origin@, crate::vec::v3_scale(s.center.dir@,
            ray.time.v()));
        let p = h.p;
        let outward = v3_div_k(v3_sub(p, cc), s.radius.v());
        lemma_sphere_uv_range(outward, s.naz_rot.v());
    }
}

/// The spherical surface coordinate stays inside the unit square.
pub proof fn lemma_sphere_uv_range(outward: V3i, naz: int)
    requires
        crate::vec::v3_bounded(outward, UNIT_LIMIT as int),
        0 <= naz < SCALE as int,
    ensures
        0 <= sphere_uv(outward, naz).0 <= SCALE as int,
        0 <= sphere_uv(outward, naz).1 <= SCALE as int,
{
    lemma_acos_range(-outward.y);
    lemma_atan2_range(-outward.z, outward.x);
    let polar = fx_acos(-outward.y);
    let azimuth = fx_atan2(-outward.z, outward.x) + PI as int;
    lemma_div_le_threehalf(azimuth);
    lemma_div_le_twice(polar);
}

/// The shifted azimuth ratio is at most one and a half units, so one wrap
/// brings it below one.
proof fn lemma_div_le_threehalf(az: int)
    requires
        0 <= az <= TWO_PI as int + PI as int,
    ensures
        0 <= fx_div(az, TWO_PI as int) < 2 * SCALE as int,
{
    assert(0 <= az * SCALE as int <= (TWO_PI as int + PI as int) * SCALE as int)
        by (nonlinear_arith)
        requires
            0 <= az <= TWO_PI as int + PI as int,
    ;
    assert(iabs(az * SCALE as int) == az * SCALE as int);
    assert(0 <= (az * SCALE as int) / (TWO_PI as int) < 2 * SCALE as int) by (nonlinear_arith)
        requires
            0 <= az * SCALE as int <= (TWO_PI as int + PI as int) * SCALE as int,
    ;
}

/// The full-circle arctangent stays within one turn.
pub proof fn lemma_atan2_range(y: int, x: int)
    ensures
        0 <= fx_atan2(y, x) <= TWO_PI as int,
{
    if !(x == 0 && y == 0) {
        let ax = iabs(x);
        let ay = iabs(y);
        if ax >= ay {
            lemma_div_ratio_unit(ay, ax);
            lemma_atan01_nonneg(fx_div(ay, ax));
        } else {
            lemma_div_ratio_unit(ax, ay);
            lemma_atan01_nonneg(fx_div(ax, ay));
        }
    }
}

/// The arccosine stays within one turn.
pub proof fn lemma_acos_range(c: int)
    ensures
        0 <= fx_acos(c) <= TWO_PI as int,
{
    lemma_atan2_range(fx_sqrt(iabs(SCALE as int - fx_mul(c, c))), c);
}

/// Quarter, half, full and double circle constants on the raw grid.
pub const PI: i64 = 205887;
pub const TWO_PI: i64 = 411775;
pub const HALF_PI: i64 = 102944;
pub const QUARTER_PI: i64 = 51472;

/// Arctangent of a ratio in [0, 1], by the classic quadratic fit
/// `atan(x) ~ x * (pi/4 + 0.273 * (1 - x))`.
pub open spec fn fx_atan01(q: int) -> int {
    fx_mul(q, QUARTER_PI as int + fx_mul(17892, SCALE as int - q))
}

/// Full-circle arctangent in [0, 2 pi], from the octant reduction of
/// `fx_atan01`.
pub open spec fn fx_atan2(y: int, x: int) -> int {
    if x == 0 && y == 0 {
        0
    } else {
        let ax = iabs(x);
        let ay = iabs(y);
        let base = if ax >= ay {
            fx_atan01(fx_div(ay, ax))
        } else {
            HALF_PI as int - fx_atan01(fx_div(ax, ay))
        };
        if x >= 0 && y >= 0 {
            base
        } else if x < 0 && y >= 0 {
            PI as int - base
        } else if x < 0 {
            PI as int + base
        } else {
            TWO_PI as int - base
        }
    }
}

/// Arccosine in [0, pi], as the angle whose sine and cosine are known.
pub open spec fn fx_acos(c: int) -> int {
    fx_atan2(fx_sqrt(iabs(SCALE as int - fx_mul(c, c))), c)
}

/// Exec twin of `fx_atan01`.
fn fx_atan01_exec(q: Fx) -> (r: Fx)
    requires
        0 <= q.v() <= SCALE as int,
    ensures
        r.v() == fx_atan01(q.v()),
        0 <= r.v() <= 0x1_1000,
{
    proof {
        lemma_fx_mul_le(17892, SCALE as int - q.v(), 17892, SCALE as int);
        lemma_fx_mul_le(q.v(), QUARTER_PI as int + fx_mul(17892, SCALE as int - q.v()),
            SCALE as int, 0x1_1000);
        crate::vec::lemma_fx_square_nonneg(0);
        lemma_atan01_nonneg(q.v());
    }
    q.mul(Fx { raw: QUARTER_PI }.add(Fx { raw: 17892 }.mul(Fx::one().sub(q))))
}

/// The fitted arctangent is non-negative and at most a half turn on [0, 1].
proof fn lemma_atan01_nonneg(q: int)
    requires
        0 <= q <= SCALE as int,
    ensures
        0 <= fx_atan01(q) <= 0x1_1000,
{
    lemma_fx_mul_le(17892, SCALE as int - q, 17892, SCALE as int);
    assert(0 <= fx_mul(17892, SCALE as int - q)) by {
        lemma_mul_bound(17892, SCALE as int - q, 17892, SCALE as int);
        assert(0 <= 17892 * (SCALE as int - q)) by (nonlinear_arith)
            requires
                0 <= SCALE as int - q,
        ;
    }
    let inner = QUARTER_PI as int + fx_mul(17892, SCALE as int - q);
    assert(0 <= q * inner <= SCALE as int * 0x1_1000) by (nonlinear_arith)
        requires
            0 <= q <= SCALE as int,
            0 <= inner <= 0x1_1000,
    ;
    lemma_tdiv_bound(q * inner, SCALE as int);
    assert(iabs(q * inner) / (SCALE as int) <= 0x1_1000) by (nonlinear_arith)
        requires
            0 <= q * inner <= SCALE as int * 0x1_1000,
    ;
    assert(0 <= tdiv(q * inner, SCALE as int)) by (nonlinear_arith)
        requires
            0 <= q * inner,
    ;
}

/// Exec twin of `fx_atan2`.
fn fx_atan2_exec(y: Fx, x: Fx) -> (r: Fx)
    requires
        iabs(y.v()) <= 0x1000_0000,
        iabs(x.v()) <= 0x1000_0000,
    ensures
        r.v() == fx_atan2(y.v(), x.v()),
        0 <= r.v() <= TWO_PI as int,
{
    if x.raw == 0 && y.raw == 0 {
        return Fx::zero();
    }
    let ax = x.abs();
    let ay = y.abs();
    let base = if ax.raw >= ay.raw {
        proof {
            lemma_mul_bound(ay.v(), SCALE as int, 0x1000_0000, SCALE as int);
            lemma_tdiv_bound(ay.v() * SCALE as int, ax.v());
            lemma_div_ratio_unit(ay.v(), ax.v());
        }
        fx_atan01_exec(ay.div(ax))
    } else {
        proof {
            lemma_mul_bound(ax.v(), SCALE as int, 0x1000_0000, SCALE as int);
            lemma_tdiv_bound(ax.v() * SCALE as int, ay.v());
            lemma_div_ratio_unit(ax.v(), ay.v());
        }
        Fx { raw: HALF_PI }.sub(fx_atan01_exec(ax.div(ay)))
    };
    if x.raw >= 0 && y.raw >= 0 {
        base
    } else if x.raw < 0 && y.raw >= 0 {
        Fx { raw: PI }.sub(base)
    } else if x.raw < 0 {
        Fx { raw: PI }.add(base)
    } else {
        Fx { raw: TWO_PI }.sub(base)
    }
}

/// A ratio of a smaller by a larger magnitude stays within the unit.
proof fn lemma_div_ratio_unit(a: int, b: int)
    requires
        0 <= a <= b,
        1 <= b,
    ensures
        0 <= fx_div(a, b) <= SCALE as int,
{
    assert(0 <= a * SCALE as int <= b * SCALE as int) by (nonlinear_arith)
        requires
            0 <= a <= b,
    ;
    assert(iabs(a * SCALE as int) == a * SCALE as int);
    assert((a * SCALE as int) / b <= SCALE as int && 0 <= (a * SCALE as int) / b)
        by (nonlinear_arith)
        requires
            0 <= a * SCALE as int <= b * SCALE as int,
            1 <= b,
    ;
}

/// Exec twin of `sphere_uv`: the azimuth is shifted by a half turn before
/// normalizing, so the seam of the texture sits on the negative x axis.
fn sphere_uv_exec(outward: &Vec3, naz: Fx) -> (r: (Fx, Fx))
    requires
        v3_bounded(outward@, UNIT_LIMIT as int),
        0 <= naz.v() < SCALE as int,
    ensures
        (r.0.v(), r.1.v()) == sphere_uv(outward@, naz.v()),
        0 <= r.0.v() <= SCALE as int,
        0 <= r.1.v() <= SCALE as int,
{
    proof {
        lemma_fx_mul_le(-outward@.y, -outward@.y, UNIT_LIMIT as int, UNIT_LIMIT as int);
    }
    let c = outward.y.neg();
    let sin = Fx::one().sub(c.mul(c)).abs().sqrt();
    proof {
        crate::fx::lemma_isqrt_bound(iabs(SCALE as int - fx_mul(c.v(), c.v())) * SCALE as int,
            sin.v(), 0x1000_0000);
    }
    let polar = fx_atan2_exec(sin, c);
    let azimuth = fx_atan2_exec(outward.z.neg(), outward.x).add(Fx { raw: PI });
    proof {
        lemma_mul_bound(azimuth.v(), SCALE as int, TWO_PI as int + PI as int, SCALE as int);
        lemma_tdiv_bound(azimuth.v() * SCALE as int, TWO_PI as int);
        lemma_div_le_threehalf(azimuth.v());
        lemma_mul_bound(polar.v(), SCALE as int, TWO_PI as int, SCALE as int);
        lemma_tdiv_bound(polar.v() * SCALE as int, PI as int);
    }
    let u0 = azimuth.div(Fx { raw: TWO_PI });
    let u1 = if u0.raw >= SCALE { u0.sub(Fx::one()) } else { u0 };
    let u2 = u1.add(naz);
    let u = if u2.raw >= SCALE { u2.sub(Fx::one()) } else { u2 };
    proof {
        lemma_div_le_twice(polar.v());
    }
    let v0 = polar.div(Fx { raw: PI });
    let v = if v0.raw >= SCALE { v0.sub(Fx::one()) } else { v0 };
    (u, v)
}

/// The polar ratio is at most two units, so one wrap suffices.
proof fn lemma_div_le_twice(p: int)
    requires
        0 <= p <= TWO_PI as int,
    ensures
        0 <= fx_div(p, PI as int) <= 2 * SCALE as int,
{
    assert(0 <= p * SCALE as int <= TWO_PI as int * SCALE as int) by (nonlinear_arith)
        requires
            0 <= p <= TWO_PI as int,
    ;
    assert(iabs(p * SCALE as int) == p * SCALE as int);
    assert(0 <= (p * SCALE as int) / (PI as int) <= 2 * SCALE as int) by (nonlinear_arith)
        requires
            0 <= p * SCALE as int <= TWO_PI as int * SCALE as int,
    ;
}

} // verus!
