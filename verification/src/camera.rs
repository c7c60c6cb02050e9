//! Camera, path-tracing integrator and the renderer core.
//!
//! Everything here is an exact function of the scene, the camera and the
//! sampler seed: `render_row` pins each row of pixels down completely, so a
//! render split across any number of workers is proven to produce the same
//! image as a sequential pass.

use vstd::prelude::*;
use crate::fx::{Fx, fx_mul, fx_div, iabs, SCALE, T_LIMIT, lemma_mul_bound, lemma_tdiv_bound};
use crate::vec::{Vec3, Point, Color, V3i, v3_bounded, v3_add, v3_sub, v3_scale, v3_mul,
    v3_norm, v3_clamp, v3_div_k, UNIT_LIMIT, VEC_LIMIT, bound_scale, lemma_fx_mul_le};
use crate::interval::{Interval, clamp_to};
use crate::ray::{Ray3, ray_wf, HitView, RAY_LIMIT};
use crate::rng::{Prng, unit_of, step64};
use crate::material::{Material, scatter_spec, scatter_state, emit_value};
use crate::world::{World, world_wf, prims_mats_ok, mk_ray, Primitive};
use crate::bvh::{Bvh, bvh_wf, leaves, walk};
use crate::utils::{linear_to_gamma, map_rgb, rgb_byte, gamma_of, map_rgb_of};

verus! {

/// Shadow-acne bias: the lower end of every primary and scattered ray query.
pub const T_EPS: i64 = 66;

/// Cap on an accumulated radiance component (256 units of intensity); the
/// integrator clamps into this range at every bounce, keeping arithmetic in
/// range for any scene.
pub const COLOR_CEIL: i64 = 0x100_0000;

/// Where the camera stands and looks.
#[derive(Clone, Copy, PartialEq, Eq, Structural, Debug)]
pub struct CameraPose {
    pub lookfrom: Vec3,
    pub lookat: Vec3,
    pub vup: Vec3,
}

impl Default for CameraPose {
    /// At the origin, looking down the negative z axis, y up.
    fn default() -> (r: CameraPose)
        ensures
            r.lookfrom@ == (V3i { x: 0, y: 0, z: 0 }),
            r.lookat@ == (V3i { x: 0, y: 0, z: -(SCALE as int) }),
            r.vup@ == (V3i { x: 0, y: SCALE as int, z: 0 }),
    {
        CameraPose {
            lookfrom: Vec3::zero(),
            lookat: Vec3 { x: Fx::zero(), y: Fx::zero(), z: Fx { raw: -crate::fx::SCALE } },
            vup: Vec3 { x: Fx::zero(), y: Fx::one(), z: Fx::zero() },
        }
    }
}

pub open spec fn pose_wf(p: CameraPose) -> bool {
    &&& v3_bounded(p.lookfrom@, 0x400_0000)
    &&& v3_bounded(p.lookat@, 0x400_0000)
    &&& v3_bounded(p.vup@, 0x400_0000)
}

/// Image and lens configuration. The field of view and the defocus angle
/// enter as the tangents of their half angles (their only use), and the
/// aspect ratio as a fraction.
#[derive(Clone, Copy, PartialEq, Eq, Structural, Debug)]
pub struct CameraIntrinsics {
    pub img_w: u32,
    pub ar_num: u32,
    pub ar_den: u32,
    pub rays_per_pixel: u32,
    pub max_bounces: u32,
    pub tan_half_vfov: Fx,
    pub tan_half_defocus: Fx,
    pub focus_distance: Fx,
    pub background: Color,
}

impl Default for CameraIntrinsics {
    /// A 1600-wide, 16:9 image at 100 rays a pixel and 10 bounces, a 90
    /// degree vertical field of view (tangent one), no defocus, and a soft
    /// blue background.
    fn default() -> (r: CameraIntrinsics)
        ensures
            r.img_w == 1600,
            r.ar_num == 16 && r.ar_den == 9,
            r.rays_per_pixel == 100,
            r.max_bounces == 10,
            r.tan_half_vfov.v() == SCALE as int,
            r.tan_half_defocus.v() == 0,
            r.focus_distance.v() == SCALE as int,
            intrinsics_wf(r),
    {
        CameraIntrinsics {
            img_w: 1600,
            ar_num: 16,
            ar_den: 9,
            rays_per_pixel: 100,
            max_bounces: 10,
            tan_half_vfov: Fx::one(),
            tan_half_defocus: Fx::zero(),
            focus_distance: Fx::one(),
            background: Vec3 { x: Fx { raw: 27761 }, y: Fx { raw: 42666 }, z: Fx {
                raw: 49606 } },
        }
    }
}

pub open spec fn intrinsics_wf(it: CameraIntrinsics) -> bool {
    &&& 1 <= it.img_w <= 16384
    &&& 1 <= it.ar_num <= 0x10_0000
    &&& 1 <= it.ar_den <= 0x10_0000
    &&& 1 <= it.rays_per_pixel <= 0x2000
    &&& it.max_bounces <= 64
    &&& 0 <= it.tan_half_vfov.v() <= 4 * SCALE as int
    &&& 0 <= it.tan_half_defocus.v() <= 4 * SCALE as int
    &&& 0 <= it.focus_distance.v() <= 0x400_0000
    &&& v3_bounded(it.background@, crate::texture::COLOR_LIMIT as int)
}

/// The derived camera frame, ready to generate rays.
#[derive(Clone, Copy, PartialEq, Eq, Structural, Debug)]
pub struct Camera {
    pub img_w: u32,
    pub img_h: u32,
    pub px00: Point,
    pub px_delta_u: Vec3,
    pub px_delta_v: Vec3,
    pub defocus_disk_radius: Fx,
    pub defocus_disk_u: Vec3,
    pub defocus_disk_v: Vec3,
    pub rays_per_pixel: u32,
    pub max_bounces: u32,
    pub pose: CameraPose,
    pub background: Color,
    pub rng_base_seed: Option<u64>,
}

pub open spec fn camera_wf(c: Camera) -> bool {
    &&& 1 <= c.img_w <= 16384
    &&& 1 <= c.img_h <= 16384
    &&& 1 <= c.rays_per_pixel <= 0x2000
    &&& c.max_bounces <= 64
    &&& v3_bounded(c.px00@, 0x8000_0000)
    &&& v3_bounded(c.px_delta_u@, SCALE as int)
    &&& v3_bounded(c.px_delta_v@, SCALE as int)
    &&& 0 <= c.defocus_disk_radius.v() <= 0x400_0000
    &&& v3_bounded(c.defocus_disk_u@, 0x8000_0000)
    &&& v3_bounded(c.defocus_disk_v@, 0x8000_0000)
    &&& pose_wf(c.pose)
    &&& v3_bounded(c.background@, crate::texture::COLOR_LIMIT as int)
}

/// Everything `Camera::new` derives, as one mathematical value.
pub ghost struct CamCalc {
    pub img_h: int,
    pub px00: V3i,
    pub du: V3i,
    pub dv: V3i,
    pub dr: int,
    pub disk_u: V3i,
    pub disk_v: V3i,
}

/// Output height: width over aspect ratio, floored, kept within the
/// supported row range.
pub open spec fn cam_img_h(w: int, num: int, den: int) -> int {
    let h = w * den / num;
    if h < 1 { 1 } else if h > 16384 { 16384 } else { h }
}

/// The camera's orthonormal frame: reverse view direction, right, up.
pub open spec fn cam_wv(pose: CameraPose) -> V3i {
    v3_norm(v3_sub(pose.lookfrom@, pose.lookat@))
}

pub open spec fn cam_u(pose: CameraPose) -> V3i {
    v3_norm(crate::vec::v3_cross(pose.vup@, cam_wv(pose)))
}

pub open spec fn cam_v(pose: CameraPose) -> V3i {
    crate::vec::v3_cross(cam_u(pose), cam_wv(pose))
}

/// The pixel grid: top-left pixel center and the per-pixel steps.
pub ghost struct GridCalc {
    pub px00: V3i,
    pub du: V3i,
    pub dv: V3i,
}

pub open spec fn grid_calc(it: CameraIntrinsics, lookfrom: V3i, img_h: int, wv: V3i, uv: V3i,
    vv: V3i) -> GridCalc {
    let vp_h = clamp_to(-(VEC_LIMIT as int), VEC_LIMIT as int,
        fx_mul(2 * it.tan_half_vfov.v(), it.focus_distance.v()));
    let ratio = fx_div(it.img_w as int * SCALE as int, img_h * SCALE as int);
    let vp_w = clamp_to(-(VEC_LIMIT as int), VEC_LIMIT as int, fx_mul(vp_h, ratio));
    let vp_u = v3_clamp(v3_scale(uv, vp_w), 0x2_0000_0000);
    let vp_v = v3_clamp(v3_scale(vv, vp_h), 0x2_0000_0000);
    let du = v3_clamp(v3_div_k(vp_u, it.img_w as int * SCALE as int), SCALE as int);
    let dv = v3_clamp(v3_div_k(vp_v, img_h * SCALE as int), SCALE as int);
    let half = (SCALE as int) / 2;
    let ul = v3_sub(v3_sub(v3_sub(lookfrom, v3_scale(wv, it.focus_distance.v())),
        v3_scale(vp_u, half)), v3_scale(vp_v, half));
    let px00 = v3_clamp(v3_add(ul, v3_scale(v3_add(du, dv), half)), 0x8000_0000);
    GridCalc { px00, du, dv }
}

pub open spec fn cam_dr(it: CameraIntrinsics) -> int {
    clamp_to(0, 0x400_0000, fx_mul(it.tan_half_defocus.v(), it.focus_distance.v()))
}

pub open spec fn cam_calc(it: CameraIntrinsics, pose: CameraPose) -> CamCalc {
    let img_h = cam_img_h(it.img_w as int, it.ar_num as int, it.ar_den as int);
    let wv = cam_wv(pose);
    let uv = cam_u(pose);
    let vv = cam_v(pose);
    let grid = grid_calc(it, pose.lookfrom@, img_h, wv, uv, vv);
    let dr = cam_dr(it);
    let disk_u = v3_clamp(v3_scale(uv, dr), 0x8000_0000);
    let disk_v = v3_clamp(v3_scale(vv, dr), 0x8000_0000);
    CamCalc { img_h, px00: grid.px00, du: grid.du, dv: grid.dv, dr, disk_u, disk_v }
}

impl Camera {
    /// Derive the pixel grid, the orthonormal frame and the defocus disk
    /// from the configuration. Intermediates are capped at generous bounds
    /// (far beyond any plausible viewport) so the frame is well formed for
    /// every configuration.
    #[verifier::rlimit(100)]
    #[verifier::spinoff_prover]
    pub fn new(intrinsics: CameraIntrinsics, pose: CameraPose, seed: Option<u64>) -> (r: Camera)
        requires
            intrinsics_wf(intrinsics),
            pose_wf(pose),
        ensures
            r.img_w == intrinsics.img_w,
            r.img_h as int == cam_calc(intrinsics, pose).img_h,
            r.px00@ == cam_calc(intrinsics, pose).px00,
            r.px_delta_u@ == cam_calc(intrinsics, pose).du,
            r.px_delta_v@ == cam_calc(intrinsics, pose).dv,
            r.defocus_disk_radius.v() == cam_calc(intrinsics, pose).dr,
            r.defocus_disk_u@ == cam_calc(intrinsics, pose).disk_u,
            r.defocus_disk_v@ == cam_calc(intrinsics, pose).disk_v,
            r.rays_per_pixel == intrinsics.rays_per_pixel,
            r.max_bounces == intrinsics.max_bounces,
            r.pose == pose,
            r.background == intrinsics.background,
            r.rng_base_seed == seed,
            camera_wf(r),
    {
        proof {
            lemma_mul_bound(intrinsics.img_w as int, intrinsics.ar_den as int, 16384,
                0x10_0000);
            lemma_img_h_bounds(intrinsics.img_w as int, intrinsics.ar_num as int,
                intrinsics.ar_den as int);
        }
        let h0: u64 = (intrinsics.img_w as u64) * (intrinsics.ar_den as u64)
            / (intrinsics.ar_num as u64);
        let img_h: u32 = if h0 < 1 { 1 } else if h0 > 16384 { 16384 } else { h0 as u32 };
        let wv = pose.lookfrom.sub(pose.lookat).norm();
        proof {
            crate::quad::bound_cross(pose.vup@, wv@, 0x400_0000, 0x4_0000);
        }
        let uv = pose.vup.cross(wv).norm();
        proof {
            crate::quad::bound_cross(uv@, wv@, 0x4_0000, 0x4_0000);
        }
        let vv = uv.cross(wv);
        let (px00, px_delta_u, px_delta_v) = derive_grid(&intrinsics, pose.lookfrom, img_h, wv,
            uv, vv);
        proof {
            lemma_fx_mul_le(intrinsics.tan_half_defocus.v(), intrinsics.focus_distance.v(),
                4 * SCALE as int, 0x400_0000);
        }
        let dr0 = intrinsics.tan_half_defocus.mul(intrinsics.focus_distance);
        let defocus_disk_radius = if dr0.raw < 0 {
            Fx::zero()
        } else if dr0.raw > 0x400_0000 {
            Fx { raw: 0x400_0000 }
        } else {
            dr0
        };
        proof {
            bound_scale(uv@, defocus_disk_radius.v(), UNIT_LIMIT as int, 0x400_0000);
            bound_scale(vv@, defocus_disk_radius.v(), 0x20_0000, 0x400_0000);
        }
        let defocus_disk_u = uv.scale(defocus_disk_radius).clamp_comps(0x8000_0000);
        let defocus_disk_v = vv.scale(defocus_disk_radius).clamp_comps(0x8000_0000);
        Camera {
            img_w: intrinsics.img_w,
            img_h,
            px00,
            px_delta_u,
            px_delta_v,
            defocus_disk_radius,
            defocus_disk_u,
            defocus_disk_v,
            rays_per_pixel: intrinsics.rays_per_pixel,
            max_bounces: intrinsics.max_bounces,
            pose,
            background: intrinsics.background,
            rng_base_seed: seed,
        }
    }
}

/// Compute the pixel grid from the frame and the viewport.
#[verifier::rlimit(100)]
#[verifier::spinoff_prover]
fn derive_grid(it: &CameraIntrinsics, lookfrom: Point, img_h: u32, wv: Vec3, uv: Vec3, vv: Vec3)
    -> (r: (Point, Vec3, Vec3))
    requires
        intrinsics_wf(*it),
        1 <= img_h <= 16384,
        v3_bounded(lookfrom@, 0x400_0000),
        v3_bounded(wv@, UNIT_LIMIT as int),
        v3_bounded(uv@, UNIT_LIMIT as int),
        v3_bounded(vv@, 0x20_0000),
    ensures
        r.0@ == grid_calc(*it, lookfrom@, img_h as int, wv@, uv@, vv@).px00,
        r.1@ == grid_calc(*it, lookfrom@, img_h as int, wv@, uv@, vv@).du,
        r.2@ == grid_calc(*it, lookfrom@, img_h as int, wv@, uv@, vv@).dv,
        v3_bounded(r.0@, 0x8000_0000),
        v3_bounded(r.1@, SCALE as int),
        v3_bounded(r.2@, SCALE as int),
{
    proof {
        lemma_fx_mul_le(2 * it.tan_half_vfov.v(), it.focus_distance.v(), 8 * SCALE as int,
            0x400_0000);
    }
    let vp_h = Fx { raw: 2 * it.tan_half_vfov.raw }.mul(it.focus_distance).clamp_sym(
        VEC_LIMIT);
    let w_fx = Fx { raw: (it.img_w as i64) * crate::fx::SCALE };
    let h_fx = Fx { raw: (img_h as i64) * crate::fx::SCALE };
    proof {
        lemma_mul_bound(w_fx.v(), SCALE as int, 0x4000_0000, SCALE as int);
        lemma_tdiv_bound(w_fx.v() * SCALE as int, h_fx.v());
        assert(iabs(w_fx.v() * SCALE as int) / iabs(h_fx.v()) <= 0x4000_0000)
            by (nonlinear_arith)
            requires
                iabs(w_fx.v() * SCALE as int) <= 0x4000_0000_0000,
                iabs(h_fx.v()) >= 0x1_0000,
        ;
        lemma_fx_mul_le(vp_h.v(), fx_div(w_fx.v(), h_fx.v()), VEC_LIMIT as int, 0x4000_0000);
    }
    let ratio = w_fx.div(h_fx);
    let vp_w = vp_h.mul_wide_clamped(ratio);
    proof {
        bound_scale(uv@, vp_w.v(), UNIT_LIMIT as int, VEC_LIMIT as int);
        bound_scale(vv@, vp_h.v(), 0x20_0000, VEC_LIMIT as int);
    }
    let vp_u = uv.scale(vp_w).clamp_comps(0x2_0000_0000);
    let vp_v = vv.scale(vp_h).clamp_comps(0x2_0000_0000);
    proof {
        lemma_mul_bound(vp_u@.x, SCALE as int, 0x2_0000_0000, SCALE as int);
        lemma_mul_bound(vp_u@.y, SCALE as int, 0x2_0000_0000, SCALE as int);
        lemma_mul_bound(vp_u@.z, SCALE as int, 0x2_0000_0000, SCALE as int);
        lemma_tdiv_bound(vp_u@.x * SCALE as int, w_fx.v());
        lemma_tdiv_bound(vp_u@.y * SCALE as int, w_fx.v());
        lemma_tdiv_bound(vp_u@.z * SCALE as int, w_fx.v());
        lemma_mul_bound(vp_v@.x, SCALE as int, 0x2_0000_0000, SCALE as int);
        lemma_mul_bound(vp_v@.y, SCALE as int, 0x2_0000_0000, SCALE as int);
        lemma_mul_bound(vp_v@.z, SCALE as int, 0x2_0000_0000, SCALE as int);
        lemma_tdiv_bound(vp_v@.x * SCALE as int, h_fx.v());
        lemma_tdiv_bound(vp_v@.y * SCALE as int, h_fx.v());
        lemma_tdiv_bound(vp_v@.z * SCALE as int, h_fx.v());
    }
    let px_delta_u = vp_u.div_k(w_fx).clamp_comps(crate::fx::SCALE);
    let px_delta_v = vp_v.div_k(h_fx).clamp_comps(crate::fx::SCALE);
    let half = Fx { raw: crate::fx::SCALE / 2 };
    proof {
        bound_scale(wv@, it.focus_distance.v(), UNIT_LIMIT as int, 0x400_0000);
        bound_scale(vp_u@, half.v(), 0x2_0000_0000, SCALE as int);
        bound_scale(vp_v@, half.v(), 0x2_0000_0000, SCALE as int);
        bound_scale(v3_add(px_delta_u@, px_delta_v@), half.v(), 2 * SCALE as int,
            SCALE as int);
    }
    let vp_upper_left = lookfrom.sub(wv.scale(it.focus_distance)).sub(vp_u.scale(half)).sub(
        vp_v.scale(half));
    let px00 = vp_upper_left.add(px_delta_u.add(px_delta_v).scale(half)).clamp_comps(
        0x8000_0000);
    (px00, px_delta_u, px_delta_v)
}

/// The floored height is positive and, under the intrinsics bounds, fits.
proof fn lemma_img_h_bounds(w: int, num: int, den: int)
    requires
        1 <= w <= 16384,
        1 <= num,
        1 <= den,
    ensures
        0 <= w * den / num,
        cam_img_h(w, num, den) >= 1,
{
    assert(0 <= w * den / num) by (nonlinear_arith)
        requires
            1 <= w,
            1 <= den,
            1 <= num,
    ;
}

/// One color component clamped into the accumulator range.
pub open spec fn clamp_color(a: V3i) -> V3i {
    V3i {
        x: clamp_to(0, COLOR_CEIL as int, a.x),
        y: clamp_to(0, COLOR_CEIL as int, a.y),
        z: clamp_to(0, COLOR_CEIL as int, a.z),
    }
}

/// A color within the accumulator range.
pub open spec fn color_ok(a: V3i) -> bool {
    &&& 0 <= a.x <= COLOR_CEIL as int
    &&& 0 <= a.y <= COLOR_CEIL as int
    &&& 0 <= a.z <= COLOR_CEIL as int
}

/// The sampler state after generating one camera ray, before its time draw.
pub open spec fn get_ray_pretime_state(c: Camera, st: u64) -> u64 {
    let st2 = crate::rng::step2(st);
    if c.defocus_disk_radius.v() <= 0 {
        st2
    } else {
        crate::rng::unit_disk_state(st2, crate::rng::SPHERE_TRIES as nat)
    }
}

pub open spec fn get_ray_state(c: Camera, st: u64) -> u64 {
    step64(get_ray_pretime_state(c, st))
}

/// The primary ray for pixel (i, j) from a given sampler state: the pixel
/// center jittered within its footprint, the origin at the eye or on the
/// defocus disk, and a fresh time for motion blur.
pub open spec fn get_ray_of(c: Camera, i: int, j: int, st: u64) -> Ray3 {
    let offx = unit_of(st) - (SCALE as int) / 2;
    let offy = unit_of(step64(st)) - (SCALE as int) / 2;
    let st2 = crate::rng::step2(st);
    let px_sample = v3_add(v3_add(c.px00@, v3_scale(c.px_delta_u@, i * SCALE as int + offx)),
        v3_scale(c.px_delta_v@, j * SCALE as int + offy));
    let origin = if c.defocus_disk_radius.v() <= 0 {
        c.pose.lookfrom@
    } else {
        let p = crate::rng::unit_disk_of(st2, crate::rng::SPHERE_TRIES as nat);
        v3_clamp(v3_add(v3_add(c.pose.lookfrom@, v3_scale(c.defocus_disk_u@, p.x)),
            v3_scale(c.defocus_disk_v@, p.y)), RAY_LIMIT as int)
    };
    let dir = v3_norm(v3_sub(px_sample, origin));
    mk_ray(origin, dir, unit_of(get_ray_pretime_state(c, st)))
}

/// What the integrator returns for a ray, and the state it leaves: the
/// path-tracing recurrence `emission + attenuation * recursive`, componentwise
/// clamped into the accumulator range, over the tree traversal `walk` (which
/// threads the sampler state through any media on the way).
#[verifier::opaque]
pub open spec fn color_spec(w: Seq<Primitive>, mats: Seq<Material>,
    nodes: Seq<crate::bvh::BvhNode>, root: crate::bvh::BvhChild, bg: V3i, ray: Ray3,
    bounces: nat, st: u64) -> (V3i, u64)
    decreases bounces,
{
    if bounces == 0 {
        (V3i { x: 0, y: 0, z: 0 }, st)
    } else {
        let hp = walk(nodes, w, root, ray, T_EPS as int, T_LIMIT as int, st);
        match hp.0 {
            None => (clamp_color(bg), hp.1),
            Some(h) => {
                let m = mats[h.mat];
                let e = emit_value(m, h.u, h.v, h.p);
                match scatter_spec(m, ray, h, hp.1) {
                    None => (clamp_color(e), scatter_state(m, hp.1)),
                    Some(sc) => {
                        let st2 = scatter_state(m, hp.1);
                        let rec = color_spec(w, mats, nodes, root, bg,
                            mk_ray(sc.origin, sc.dir, sc.time), (bounces - 1) as nat, st2);
                        (clamp_color(v3_add(e, v3_mul(sc.attenuation, rec.0))), rec.1)
                    },
                }
            },
        }
    }
}

impl Camera {
    /// One jittered primary ray for pixel (i, j).
    pub fn get_ray(&self, i: u32, j: u32, rng: &mut Prng) -> (r: Ray3)
        requires
            camera_wf(*self),
            i < self.img_w,
            j < self.img_h,
        ensures
            r == get_ray_of(*self, i as int, j as int, old(rng).state),
            final(rng).state == get_ray_state(*self, old(rng).state),
            ray_wf(r),
    {
        let offx = rng.half_offset();
        let offy = rng.half_offset();
        let ki = Fx { raw: (i as i64) * crate::fx::SCALE + offx.raw };
        let kj = Fx { raw: (j as i64) * crate::fx::SCALE + offy.raw };
        proof {
            bound_scale(self.px_delta_u@, ki.v(), SCALE as int, 0x4001_0000);
            bound_scale(self.px_delta_v@, kj.v(), SCALE as int, 0x4001_0000);
        }
        let px_sample = self.px00.add(self.px_delta_u.scale(ki)).add(
            self.px_delta_v.scale(kj));
        let origin = if self.defocus_disk_radius.raw <= 0 {
            self.pose.lookfrom
        } else {
            let p = crate::rng::rand_in_unit_disc(rng);
            proof {
                bound_scale(self.defocus_disk_u@, p@.x, 0x8000_0000, SCALE as int);
                bound_scale(self.defocus_disk_v@, p@.y, 0x8000_0000, SCALE as int);
            }
            self.pose.lookfrom.add(self.defocus_disk_u.scale(p.x)).add(
                self.defocus_disk_v.scale(p.y)).clamp_comps(RAY_LIMIT)
        };
        let dir = px_sample.sub(origin).norm();
        let time = rng.unit();
        let r = Ray3 { origin, dir, time };
        proof {
            assert(r == get_ray_of(*self, i as int, j as int, old(rng).state));
        }
        r
    }

    /// The radiance arriving along a ray: background on a miss, emission
    /// plus attenuated recursion on a hit, black when the bounce budget is
    /// spent. The result and the sampler state are the exact recurrence
    /// `color_spec`, for every scene — media included.
    #[verifier::rlimit(100)]
    #[verifier::spinoff_prover]
    pub fn color_ray(&self, ray: &Ray3, world: &World, tree: &Bvh, bounces_left: u32,
        rng: &mut Prng) -> (r: Color)
        requires
            camera_wf(*self),
            world_wf(*world),
            bvh_wf(*tree, world.prims@),
            ray_wf(*ray),
        ensures
            color_ok(r@),
            (r@, final(rng).state) == color_spec(world.prims@, world.mats@, tree.nodes@,
                tree.root, self.background@, *ray, bounces_left as nat, old(rng).state),
        decreases bounces_left,
    {
        let ghost st0 = rng.state;
        let ghost args = (world.prims@, world.mats@, tree.nodes@, tree.root, self.background@);
        if bounces_left == 0 {
            let r = Vec3::zero();
            proof {
                assert((r@, rng.state) == color_spec(args.0, args.1, args.2, args.3, args.4,
                    *ray, 0nat, st0)) by {
                    reveal(color_spec);
                }
            }
            return r;
        }
        let t_range = Interval { min: Fx { raw: T_EPS }, max: Fx { raw: T_LIMIT } };
        let hit = match tree.hit(world, ray, t_range, rng) {
            None => {
                let r = clamp_color_exec(self.background);
                proof {
                    assert((r@, rng.state) == color_spec(args.0, args.1, args.2, args.3,
                        args.4, *ray, bounces_left as nat, st0)) by {
                        reveal(color_spec);
                    }
                }
                return r;
            },
            Some(h) => h,
        };
        proof {
            assert(prims_mats_ok(world.prims@, world.mats@.len() as int));
        }
        let ghost st1 = rng.state;
        let m = &world.mats[hit.mat];
        let emission = m.emit(hit.uv, &hit.p);
        match m.scatter(ray, &hit, rng) {
            None => {
                let r = clamp_color_exec(emission);
                proof {
                    assert((r@, rng.state) == color_spec(args.0, args.1, args.2, args.3,
                        args.4, *ray, bounces_left as nat, st0)) by {
                        reveal(color_spec);
                    }
                }
                r
            },
            Some(sc) => {
                let ghost st2 = rng.state;
                let rec = self.color_ray(&sc.scattered_ray, world, tree, bounces_left - 1,
                    rng);
                proof {
                    lemma_fx_mul_le(sc.attenuation@.x, rec@.x,
                        crate::texture::COLOR_LIMIT as int, COLOR_CEIL as int);
                    lemma_fx_mul_le(sc.attenuation@.y, rec@.y,
                        crate::texture::COLOR_LIMIT as int, COLOR_CEIL as int);
                    lemma_fx_mul_le(sc.attenuation@.z, rec@.z,
                        crate::texture::COLOR_LIMIT as int, COLOR_CEIL as int);
                }
                let r = clamp_color_exec(emission.add(sc.attenuation.mul_comp(rec)));
                proof {
                    assert(sc.scattered_ray == mk_ray(sc@.origin, sc@.dir, sc@.time));
                    assert((r@, rng.state) == color_spec(args.0, args.1, args.2, args.3,
                        args.4, *ray, bounces_left as nat, st0)) by {
                        reveal(color_spec);
                    }
                }
                r
            },
        }
    }

    /// Render one row of pixels: `3 * img_w` bytes, red, green and blue per
    /// pixel, an exact function of scene, camera, row and seed.
    pub fn render_row(&self, world: &World, tree: &Bvh, j: u32, seed: u64) -> (r: Vec<u8>)
        requires
            camera_wf(*self),
            world_wf(*world),
            bvh_wf(*tree, world.prims@),
            j < self.img_h,
        ensures
            r@.len() == 3 * self.img_w,
            r@ == row_of(world.prims@, world.mats@, tree.nodes@, tree.root, *self, j as int,
                seed),
    {
        proof {
            reveal(row_from);
        }
        let mut rng = Prng::from_seed(seed);
        let mut out: Vec<u8> = Vec::new();
        let mut i: u32 = 0;
        while i < self.img_w
            invariant
                camera_wf(*self),
                world_wf(*world),
                bvh_wf(*tree, world.prims@),
                j < self.img_h,
                i <= self.img_w,
                out@.len() == 3 * i,
                row_of(world.prims@, world.mats@, tree.nodes@, tree.root, *self, j as int,
                    seed) == out@ + row_from(world.prims@, world.mats@, tree.nodes@, tree.root,
                    *self, i as int, j as int, rng.state).0,
            decreases self.img_w - i,
        {
            let (bytes, _t) = self.pixel_at(world, tree, i, j, &mut rng);
            out.push(bytes.0);
            out.push(bytes.1);
            out.push(bytes.2);
            proof {
                reveal(row_from);
                assert(row_of(world.prims@, world.mats@, tree.nodes@, tree.root, *self,
                    j as int, seed) =~= out@ + row_from(world.prims@, world.mats@,
                    tree.nodes@, tree.root, *self, i as int + 1, j as int, rng.state).0);
            }
            i = i + 1;
        }
        proof {
            assert(row_of(world.prims@, world.mats@, tree.nodes@, tree.root, *self,
                j as int, seed) =~= out@);
        }
        out
    }

    /// One finished pixel: the mean of `rays_per_pixel` samples, gamma
    /// mapped into output bytes.
    fn pixel_at(&self, world: &World, tree: &Bvh, i: u32, j: u32, rng: &mut Prng)
        -> (r: ((u8, u8, u8), Ghost<int>))
        requires
            camera_wf(*self),
            world_wf(*world),
            bvh_wf(*tree, world.prims@),
            i < self.img_w,
            j < self.img_h,
        ensures
            ({
                let px = pixel_of(world.prims@, world.mats@, tree.nodes@, tree.root, *self,
                    i as int, j as int, old(rng).state);
                (r.0.0 as int, r.0.1 as int, r.0.2 as int) == px.0
                    && final(rng).state == px.1
            }),
    {
        proof {
            reveal(sample_sum);
        }
        let mut sum = Vec3::zero();
        let mut k: u32 = 0;
        let n = self.rays_per_pixel;
        while k < n
            invariant
                camera_wf(*self),
                world_wf(*world),
                bvh_wf(*tree, world.prims@),
                i < self.img_w,
                j < self.img_h,
                n == self.rays_per_pixel,
                k <= n,
                v3_bounded(sum@, k as int * COLOR_CEIL as int),
                sum@.x >= 0 && sum@.y >= 0 && sum@.z >= 0,
                sample_sum(world.prims@, world.mats@, tree.nodes@, tree.root, *self, i as int,
                    j as int, n as nat, old(rng).state) == {
                    let rest = sample_sum(world.prims@, world.mats@, tree.nodes@, tree.root,
                        *self, i as int, j as int, (n - k) as nat, rng.state);
                    (v3_add(sum@, rest.0), rest.1)
                },
            decreases n - k,
        {
            let ray = self.get_ray(i, j, rng);
            let c = self.color_ray(&ray, world, tree, self.max_bounces, rng);
            proof {
                reveal(sample_sum);
                lemma_mul_bound(k as int + 1, COLOR_CEIL as int, 0x2000, COLOR_CEIL as int);
                lemma_mul_bound(k as int, COLOR_CEIL as int, 0x2000, COLOR_CEIL as int);
                assert((k as int + 1) * COLOR_CEIL as int == k as int * COLOR_CEIL as int
                    + COLOR_CEIL as int) by (nonlinear_arith);
            }
            sum = sum.add(c);
            k = k + 1;
        }
        proof {
            lemma_mul_bound(n as int, COLOR_CEIL as int, 0x2000, COLOR_CEIL as int);
            lemma_mul_bound(sum@.x, SCALE as int, 0x20_0000_0000, SCALE as int);
            lemma_mul_bound(sum@.y, SCALE as int, 0x20_0000_0000, SCALE as int);
            lemma_mul_bound(sum@.z, SCALE as int, 0x20_0000_0000, SCALE as int);
            lemma_tdiv_bound(sum@.x * SCALE as int, n as int * SCALE as int);
            lemma_tdiv_bound(sum@.y * SCALE as int, n as int * SCALE as int);
            lemma_tdiv_bound(sum@.z * SCALE as int, n as int * SCALE as int);
            assert(iabs(sum@.x * SCALE as int) / iabs(n as int * SCALE as int)
                <= 0x100_0000_0000 && iabs(sum@.y * SCALE as int) / iabs(n as int
                * SCALE as int) <= 0x100_0000_0000 && iabs(sum@.z * SCALE as int) / iabs(
                n as int * SCALE as int) <= 0x100_0000_0000) by (nonlinear_arith)
                requires
                    iabs(sum@.x * SCALE as int) <= 0x20_0000_0000_0000,
                    iabs(sum@.y * SCALE as int) <= 0x20_0000_0000_0000,
                    iabs(sum@.z * SCALE as int) <= 0x20_0000_0000_0000,
                    iabs(n as int * SCALE as int) >= 0x1_0000,
            ;
        }
        let n_fx = Fx { raw: (n as i64) * crate::fx::SCALE };
        let avg = sum.div_k(n_fx);
        let bytes = (byte_of(avg.x), byte_of(avg.y), byte_of(avg.z));
        (bytes, Ghost(0))
    }
}

/// Map one averaged component to its output byte: gamma, then the display
/// range, then the whole-unit part.
fn byte_of(v: Fx) -> (r: u8)
    requires
        iabs(v.v()) <= 0x100_0000_0000,
    ensures
        r as int == byte_spec(v.v()),
{
    rgb_byte(map_rgb(linear_to_gamma(v)))
}

pub open spec fn byte_spec(v: int) -> int {
    map_rgb_of(gamma_of(v)) / SCALE as int
}

/// Clamp a color into the accumulator range.
fn clamp_color_exec(c: Color) -> (r: Color)
    ensures
        r@ == clamp_color(c@),
        color_ok(r@),
{
    Vec3 {
        x: clamp01(c.x),
        y: clamp01(c.y),
        z: clamp01(c.z),
    }
}

fn clamp01(x: Fx) -> (r: Fx)
    ensures
        r.v() == clamp_to(0, COLOR_CEIL as int, x.v()),
        0 <= r.v() <= COLOR_CEIL as int,
{
    if x.raw > COLOR_CEIL {
        Fx { raw: COLOR_CEIL }
    } else if x.raw < 0 {
        Fx::zero()
    } else {
        x
    }
}

/// The sum of `k` radiance samples for pixel (i, j), with the state left
/// behind.
#[verifier::opaque]
pub open spec fn sample_sum(w: Seq<Primitive>, mats: Seq<Material>,
    nodes: Seq<crate::bvh::BvhNode>, root: crate::bvh::BvhChild, cam: Camera, i: int, j: int,
    k: nat, st: u64) -> (V3i, u64)
    decreases k,
{
    if k == 0 {
        (V3i { x: 0, y: 0, z: 0 }, st)
    } else {
        let ray = get_ray_of(cam, i, j, st);
        let st1 = get_ray_state(cam, st);
        let c = color_spec(w, mats, nodes, root, cam.background@, ray,
            cam.max_bounces as nat, st1);
        let rest = sample_sum(w, mats, nodes, root, cam, i, j, (k - 1) as nat, c.1);
        (v3_add(c.0, rest.0), rest.1)
    }
}

/// One finished pixel: averaged samples, gamma corrected, mapped to bytes.
pub open spec fn pixel_of(w: Seq<Primitive>, mats: Seq<Material>,
    nodes: Seq<crate::bvh::BvhNode>, root: crate::bvh::BvhChild, cam: Camera, i: int, j: int,
    st: u64) -> ((int, int, int), u64) {
    let s = sample_sum(w, mats, nodes, root, cam, i, j, cam.rays_per_pixel as nat, st);
    let avg = v3_div_k(s.0, cam.rays_per_pixel as int * SCALE as int);
    ((byte_spec(avg.x), byte_spec(avg.y), byte_spec(avg.z)), s.1)
}

/// The bytes of a row from pixel `i` rightward.
#[verifier::opaque]
pub open spec fn row_from(w: Seq<Primitive>, mats: Seq<Material>,
    nodes: Seq<crate::bvh::BvhNode>, root: crate::bvh::BvhChild, cam: Camera, i: int, j: int,
    st: u64) -> (Seq<u8>, u64)
    decreases cam.img_w as int - i
        when 0 <= i && i <= cam.img_w as int
{
    if i >= cam.img_w as int {
        (Seq::empty(), st)
    } else {
        let px = pixel_of(w, mats, nodes, root, cam, i, j, st);
        let rest = row_from(w, mats, nodes, root, cam, i + 1, j, px.1);
        (seq![px.0.0 as u8, px.0.1 as u8, px.0.2 as u8] + rest.0, rest.1)
    }
}

/// One whole row of output bytes as a function of scene, camera, row index
/// and seed: reproducible rendering is this function, so pixel values cannot
/// depend on which worker computed them.
pub open spec fn row_of(w: Seq<Primitive>, mats: Seq<Material>,
    nodes: Seq<crate::bvh::BvhNode>, root: crate::bvh::BvhChild, cam: Camera, j: int,
    seed: u64) -> Seq<u8> {
    row_from(w, mats, nodes, root, cam, 0, j, seed).0
}

/// A ray whose closest hit is an emitter comes back with exactly the
/// emitter's texture value (emitters never scatter), whatever the sampler
/// holds and however many bounces remain.
pub proof fn lemma_emissive_hit(w: Seq<Primitive>, mats: Seq<Material>,
    nodes: Seq<crate::bvh::BvhNode>, root: crate::bvh::BvhChild, bg: V3i, ray: Ray3,
    bounces: nat, st: u64, h: HitView)
    requires
        bounces >= 1,
        walk(nodes, w, root, ray, T_EPS as int, T_LIMIT as int, st).0 == Some(h),
        0 <= h.mat < mats.len(),
        mats[h.mat] is Emit,
    ensures
        color_spec(w, mats, nodes, root, bg, ray, bounces, st) == (clamp_color(emit_value(
            mats[h.mat], h.u, h.v, h.p)), walk(nodes, w, root, ray, T_EPS as int,
            T_LIMIT as int, st).1),
{
    reveal(color_spec);
}

impl Camera {
    /// A camera whose render draws fresh (non-reproducing) seeds.
    pub fn new_default_rng(intrinsics: CameraIntrinsics, pose: CameraPose) -> (r: Camera)
        requires
            intrinsics_wf(intrinsics),
            pose_wf(pose),
        ensures
            camera_wf(r),
            r.rng_base_seed is None,
    {
        Camera::new(intrinsics, pose, None)
    }

    /// A camera whose render derives every row's sampler from `seed`, for
    /// reproducible images.
    pub fn new_seeded_rng(intrinsics: CameraIntrinsics, pose: CameraPose, seed: u64)
        -> (r: Camera)
        requires
            intrinsics_wf(intrinsics),
            pose_wf(pose),
        ensures
            camera_wf(r),
            r.rng_base_seed == Some(seed),
    {
        Camera::new(intrinsics, pose, Some(seed))
    }

    /// A sampler following the camera's seed policy: the base seed when one
    /// was configured, fresh entropy otherwise.
    pub fn get_rng(&self) -> (r: Prng)
        ensures
            match self.rng_base_seed {
                Some(b) => r.state == b,
                None => true,
            },
    {
        match self.rng_base_seed {
            Some(b) => Prng::from_seed(b),
            None => Prng::from_seed(crate::rng::entropy_seed()),
        }
    }

    /// Render the whole image sequentially. Row `y` is sampled from seed
    /// `base + y`, so with a configured base seed the framebuffer is pinned
    /// completely; workers rendering disjoint row bands compute exactly
    /// these rows.
    pub fn render(&self, world: &World, tree: &Bvh) -> (r: Vec<Vec<u8>>)
        requires
            camera_wf(*self),
            world_wf(*world),
            bvh_wf(*tree, world.prims@),
        ensures
            r@.len() == self.img_h,
            forall|y: int| 0 <= y < r@.len() ==> (#[trigger] r@[y])@.len() == 3 * self.img_w,
            match self.rng_base_seed {
                Some(b) => forall|y: int| 0 <= y < r@.len() ==> (#[trigger] r@[y])@ == row_of(
                    world.prims@, world.mats@, tree.nodes@, tree.root, *self, y,
                    crate::rng::add64(b, y as u64)),
                None => true,
            },
    {
        let base: u64 = match self.rng_base_seed {
            Some(b) => b,
            None => crate::rng::entropy_seed(),
        };
        let mut rows: Vec<Vec<u8>> = Vec::new();
        let mut y: u32 = 0;
        while y < self.img_h
            invariant
                camera_wf(*self),
                world_wf(*world),
                bvh_wf(*tree, world.prims@),
                y <= self.img_h,
                rows@.len() == y,
                match self.rng_base_seed {
                    Some(b) => base == b,
                    None => true,
                },
                forall|k: int| 0 <= k < rows@.len()
                    ==> (#[trigger] rows@[k])@.len() == 3 * self.img_w,
                forall|k: int| 0 <= k < rows@.len() ==> (#[trigger] rows@[k])@ == row_of(
                    world.prims@, world.mats@, tree.nodes@, tree.root, *self, k,
                    crate::rng::add64(base, k as u64)),
            decreases self.img_h - y,
        {
            let row = self.render_row(world, tree, y, base.wrapping_add(y as u64));
            rows.push(row);
            y = y + 1;
        }
        rows
    }
}

/// Some band carries row `y`.
pub open spec fn covers(bands: Seq<(usize, Vec<u8>)>, y: int) -> bool {
    exists|k: int| 0 <= k < bands.len() && (#[trigger] bands[k]).0 == y
}

impl Default for Camera {
    /// The default configuration with a fixed base seed, so that two default
    /// cameras render the same image.
    fn default() -> (r: Camera)
        ensures
            camera_wf(r),
            r.rng_base_seed == Some(316u64),
    {
        Camera::new_seeded_rng(CameraIntrinsics::default(), CameraPose::default(), 316u64)
    }
}

/// Place worker-produced rows by their row index. Succeeds exactly when
/// every index is in range and no index repeats; the result then holds each
/// band's row at its index, and every returned row was supplied, so the
/// assembled image cannot depend on which worker finished first.
pub fn assemble_rows(bands: Vec<(usize, Vec<u8>)>, h: usize) -> (r: Option<Vec<Vec<u8>>>)
    ensures
        match r {
            Some(rows) => {
                &&& rows@.len() == h
                &&& forall|k: int| 0 <= k < bands@.len() ==> (#[trigger] bands@[k]).0 < h
                    && rows@[bands@[k].0 as int]@ == bands@[k].1@
                &&& forall|y: int| 0 <= y < h ==> #[trigger] covers(bands@, y)
            },
            None => true,
        },
{
    let mut rows: Vec<Vec<u8>> = Vec::new();
    let mut filled: Vec<bool> = Vec::new();
    let mut y: usize = 0;
    while y < h
        invariant
            rows@.len() == y <= h,
            filled@.len() == y,
            forall|j: int| 0 <= j < y ==> !(#[trigger] filled@[j]),
        decreases h - y,
    {
        rows.push(Vec::new());
        filled.push(false);
        y = y + 1;
    }
    let mut rem = bands;
    let ghost all = rem@;
    proof {
        assert(rem@ =~= all.subrange(0, rem@.len() as int));
    }
    while rem.len() > 0
        invariant
            rows@.len() == h,
            filled@.len() == h,
            all == bands@,
            rem@.len() <= all.len(),
            rem@ == all.subrange(0, rem@.len() as int),
            forall|k: int| rem@.len() <= k < all.len() ==> (#[trigger] all[k]).0 < h
                && filled@[all[k].0 as int] && rows@[all[k].0 as int]@ == all[k].1@,
            forall|j: int| 0 <= j < h && #[trigger] filled@[j] ==> covers(all, j),
        decreases rem@.len(),
    {
        let (idx, row) = match rem.pop() {
            Some(b) => b,
            None => {
                return None;
            },
        };
        proof {
            assert(rem@ =~= all.subrange(0, rem@.len() as int));
            assert(all[rem@.len() as int].0 == idx && all[rem@.len() as int].1 == row);
        }
        if idx >= h {
            return None;
        }
        if filled[idx] {
            return None;
        }
        let ghost filled_pre = filled@;
        rows.set(idx, row);
        filled.set(idx, true);
        proof {
            assert forall|k: int| rem@.len() <= k < all.len() implies (#[trigger] all[k]).0 < h
                && filled@[all[k].0 as int] && rows@[all[k].0 as int]@ == all[k].1@ by {
                if k > rem@.len() {
                    assert(all[k].0 < h && filled_pre[all[k].0 as int]);
                    assert(all[k].0 != idx);
                }
            }
        }
    }
    let mut y2: usize = 0;
    while y2 < h
        invariant
            all == bands@,
            rows@.len() == h,
            filled@.len() == h,
            y2 <= h,
            forall|k: int| 0 <= k < all.len() ==> (#[trigger] all[k]).0 < h
                && rows@[all[k].0 as int]@ == all[k].1@,
            forall|j: int| 0 <= j < h && #[trigger] filled@[j] ==> covers(all, j),
            forall|j: int| 0 <= j < y2 ==> #[trigger] filled@[j],
        decreases h - y2,
    {
        if !filled[y2] {
            return None;
        }
        y2 = y2 + 1;
    }
    proof {
        assert forall|yy: int| 0 <= yy < h implies covers(bands@, yy) by {
            assert(filled@[yy]);
        }
    }
    Some(rows)
}

/// Splitting a render across workers cannot change the image: two full sets
/// of rows that each satisfy the per-row seeding rule are the same rows.
pub proof fn lemma_banding_irrelevant(rows1: Seq<Seq<u8>>, rows2: Seq<Seq<u8>>,
    w: Seq<Primitive>, mats: Seq<Material>, nodes: Seq<crate::bvh::BvhNode>,
    root: crate::bvh::BvhChild, cam: Camera, base: u64)
    requires
        rows1.len() == cam.img_h,
        rows2.len() == cam.img_h,
        forall|y: int| 0 <= y < rows1.len() ==> #[trigger] rows1[y] == row_of(w, mats, nodes,
            root, cam, y, crate::rng::add64(base, y as u64)),
        forall|y: int| 0 <= y < rows2.len() ==> #[trigger] rows2[y] == row_of(w, mats, nodes,
            root, cam, y, crate::rng::add64(base, y as u64)),
    ensures
        rows1 == rows2,
{
    assert(rows1 =~= rows2);
}

impl Fx {
    /// Clamp into a symmetric range (a camera-internal cap).
    pub fn clamp_sym(self, m: i64) -> (r: Fx)
        requires
            0 < m,
        ensures
            r.v() == clamp_to(-(m as int), m as int, self.v()),
            iabs(r.v()) <= m as int,
    {
        if self.raw > m {
            Fx { raw: m }
        } else if self.raw < -m {
            Fx { raw: -m }
        } else {
            self
        }
    }

    /// Multiply, clamping the result into the vector-arithmetic range (used
    /// where legitimate values are far below the cap).
    pub fn mul_wide_clamped(self, o: Fx) -> (r: Fx)
        requires
            crate::fx::ok64(fx_mul(self.v(), o.v())),
        ensures
            r.v() == clamp_to(-(VEC_LIMIT as int), VEC_LIMIT as int, fx_mul(self.v(), o.v())),
    {
        self.mul(o).clamp_sym(VEC_LIMIT)
    }
}

} // verus!
