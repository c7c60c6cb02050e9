//! Renderer-level checks: hierarchy equivalence, materials, reproducibility.

use raytrace::fx::{Fx, SCALE};
use raytrace::vec::Vec3;
use raytrace::interval::Interval;
use raytrace::ray::Ray3;
use raytrace::rng::Prng;
use raytrace::sphere::Sphere;
use raytrace::quad::Quad;
use raytrace::world::{World, Hittables, Primitive};
use raytrace::bvh::Bvh;
use raytrace::material::{Material, Lambertian, Metal, Dielectric, Emitter, Isotropic};
use raytrace::texture::{Texture, SolidTex, CheckerTex, StripeTex, UVTex, ImageTex,
    Orientation};
use raytrace::camera::{Camera, CameraIntrinsics, CameraPose, assemble_rows};
use raytrace::transform::{Axis, Translate, Rotate};
use raytrace::volumetric::ConstantMedium;

fn fxu(i: i32) -> Fx {
    Fx::from_units(i)
}

fn v3u(x: i32, y: i32, z: i32) -> Vec3 {
    Vec3::new(fxu(x), fxu(y), fxu(z))
}

fn full_range() -> Interval {
    Interval::new(Fx::new(66), Fx::new(raytrace::fx::T_LIMIT))
}

fn same_hit(a: Option<raytrace::ray::Hit>, b: Option<raytrace::ray::Hit>) -> bool {
    match (a, b) {
        (None, None) => true,
        (Some(x), Some(y)) => {
            x.t.raw == y.t.raw && x.p.x.raw == y.p.x.raw && x.p.y.raw == y.p.y.raw
                && x.p.z.raw == y.p.z.raw && x.normal.x.raw == y.normal.x.raw
                && x.normal.y.raw == y.normal.y.raw && x.normal.z.raw == y.normal.z.raw
                && x.front_face == y.front_face && x.mat == y.mat
        },
        _ => false,
    }
}

/// A reproducible scene of `n` spheres plus a couple of quads.
fn random_scene(n: u64, seed: u64) -> (World, Hittables) {
    let mut w = World::new();
    let mat = w.add_mat(Material::Lamb(Lambertian::new(Texture::Solid(SolidTex::new(
        Vec3::splat(Fx::new(SCALE / 2)),
    )))));
    let mut hs = Hittables::new();
    let mut rng = Prng::from_seed(seed);
    let mut k: u64 = 0;
    while k < n {
        let cx = (rng.next_u64() % 64) as i32 - 32;
        let cy = (rng.next_u64() % 64) as i32 - 32;
        let cz = (rng.next_u64() % 64) as i32 - 32;
        let rad = 1 + (rng.next_u64() % 3) as i32;
        if k % 5 == 4 {
            let q = Quad::new(v3u(cx, cy, cz), v3u(0, rad, 0), v3u(rad, 0, 0), mat);
            let idx = w.add_prim(Primitive::Qd(q));
            hs.add(&w, idx);
        } else {
            let s = Sphere::new(fxu(rad), v3u(cx, cy, cz), mat);
            let idx = w.add_prim(Primitive::Sph(s));
            hs.add(&w, idx);
        }
        k += 1;
    }
    (w, hs)
}

#[test]
fn hierarchy_matches_linear_scan() {
    // the hierarchy must report exactly the hit a brute-force walk over the
    // same primitives reports, across scene sizes and many rays
    for n in [1u64, 2, 3, 120] {
        let (w, hs) = random_scene(n, 1000 + n);
        let mut build_rng = Prng::from_seed(7);
        let tree = Bvh::from_hittables(&w, &hs, &mut build_rng);
        let mut ray_rng = Prng::from_seed(99 + n);
        let mut shots: u32 = 0;
        while shots < 200 {
            let ox = (ray_rng.next_u64() % 120) as i32 - 60;
            let oy = (ray_rng.next_u64() % 120) as i32 - 60;
            let oz = (ray_rng.next_u64() % 120) as i32 - 60;
            let dx = (ray_rng.next_u64() % 9) as i32 - 4;
            let dy = (ray_rng.next_u64() % 9) as i32 - 4;
            let dz = (ray_rng.next_u64() % 9) as i32 - 4;
            let ray = Ray3::without_time(v3u(ox, oy, oz), v3u(dx, dy, dz));
            let mut r1 = Prng::from_seed(0);
            let mut r2 = Prng::from_seed(0);
            let lin = hs.hit(&w, &ray, full_range(), &mut r1);
            let fast = tree.hit(&w, &ray, full_range(), &mut r2);
            assert!(same_hit(lin, fast), "hierarchy and scan disagree");
            shots += 1;
        }
    }
}

#[test]
fn translate_shifts_the_hit_point() {
    let mut w = World::new();
    let mat = w.add_mat(Material::Lamb(Lambertian::new(Texture::Solid(SolidTex::new(
        Vec3::splat(Fx::new(SCALE / 2)),
    )))));
    let s = Sphere::new(fxu(1), v3u(0, 0, 0), mat);
    let inner = w.add_prim(Primitive::Sph(s));
    let tr = Translate::new(&w, inner, v3u(0, 3, 0));
    let idx = w.add_prim(Primitive::Trans(tr));
    let ray = Ray3::without_time(v3u(4, 3, 0), v3u(-1, 0, 0));
    let mut rng = Prng::from_seed(0);
    let h = raytrace::world::prim_hit(&w.prims, idx, &ray, full_range(), &mut rng)
        .expect("the shifted sphere must be hit");
    assert_eq!(h.t.raw, 3 * SCALE);
    assert_eq!(h.p.y.raw, 3 * SCALE);
}

#[test]
fn rotate_quarter_turn_moves_the_target() {
    let mut w = World::new();
    let mat = w.add_mat(Material::Lamb(Lambertian::new(Texture::Solid(SolidTex::new(
        Vec3::splat(Fx::new(SCALE / 2)),
    )))));
    let s = Sphere::new(fxu(1), v3u(4, 0, 0), mat);
    let inner = w.add_prim(Primitive::Sph(s));
    // a quarter turn about y carries the sphere from +x to the z axis
    let ro = Rotate::new(&w, inner, Fx::new(0), Fx::new(SCALE), Axis::Y);
    let idx = w.add_prim(Primitive::Rot(ro));
    let mut rng = Prng::from_seed(0);
    let along_x = Ray3::without_time(v3u(8, 0, 0), v3u(-1, 0, 0));
    assert!(raytrace::world::prim_hit(&w.prims, idx, &along_x, full_range(), &mut rng)
        .is_none());
    let along_z = Ray3::without_time(v3u(0, 0, -8), v3u(0, 0, 1));
    assert!(raytrace::world::prim_hit(&w.prims, idx, &along_z, full_range(), &mut rng)
        .is_some());
}

#[test]
fn medium_scatters_inside_its_boundary() {
    let mut w = World::new();
    let gray = w.add_mat(Material::Lamb(Lambertian::new(Texture::Solid(SolidTex::new(
        Vec3::splat(Fx::new(SCALE / 2)),
    )))));
    let phase = w.add_mat(Material::Iso(Isotropic::new(Texture::Solid(SolidTex::new(
        Vec3::splat(Fx::new(SCALE / 2)),
    )))));
    let s = Sphere::new(fxu(4), v3u(0, 0, 0), gray);
    let boundary = w.add_prim(Primitive::Sph(s));
    let m = ConstantMedium::new(boundary, fxu(4), phase, &w);
    let idx = w.add_prim(Primitive::Med(m));
    let ray = Ray3::without_time(v3u(10, 0, 0), v3u(-1, 0, 0));
    let mut rng = Prng::from_seed(5);
    let mut interactions: u32 = 0;
    let mut shots: u32 = 0;
    while shots < 64 {
        if let Some(h) = raytrace::world::prim_hit(&w.prims, idx, &ray, full_range(),
            &mut rng) {
            // any interaction happens strictly inside the boundary's span
            assert!(h.t.raw > 6 * SCALE - 66 && h.t.raw < 14 * SCALE + 66);
            assert_eq!(h.mat, phase);
            interactions += 1;
        }
        shots += 1;
    }
    assert!(interactions > 0, "a dense medium must scatter sometimes");
}

#[test]
fn dielectric_reflectance_at_normal_incidence() {
    // for an index of 1.5 the Schlick base term is about 0.04, with no
    // grazing contribution at cosine one
    let n = Fx::new(3 * SCALE / 2);
    let r = Dielectric::reflectance(n, Fx::new(SCALE));
    assert_eq!(r.raw, 2621);
}

#[test]
fn metal_reflects_about_the_normal() {
    let mut w = World::new();
    let mat = w.add_mat(Material::Met(Metal::new(
        Texture::Solid(SolidTex::new(Vec3::splat(Fx::new(SCALE / 2)))),
        Fx::new(0),
    )));
    let q = Quad::new(v3u(-2, -2, 0), v3u(0, 4, 0), v3u(4, 0, 0), mat);
    let idx = w.add_prim(Primitive::Qd(q));
    let ray = Ray3::without_time(v3u(0, 0, 4), v3u(0, 0, -1));
    let mut rng = Prng::from_seed(1);
    let h = raytrace::world::prim_hit(&w.prims, idx, &ray, full_range(), &mut rng).unwrap();
    let sc = w.mats[h.mat].scatter(&ray, &h, &mut rng).expect("metal scatters");
    // straight-on incidence reflects straight back (fuzz zero)
    assert!(sc.scattered_ray.dir.z.raw > 0);
    assert_eq!(sc.scattered_ray.dir.x.raw, 0);
    assert_eq!(sc.attenuation.x.raw, SCALE / 2);
}

#[test]
fn emitter_never_scatters() {
    let mut w = World::new();
    let mat = w.add_mat(Material::Emit(Emitter::new(Texture::Solid(SolidTex::new(
        Vec3::white(),
    )))));
    let q = Quad::new(v3u(-2, -2, 0), v3u(0, 4, 0), v3u(4, 0, 0), mat);
    let idx = w.add_prim(Primitive::Qd(q));
    let ray = Ray3::without_time(v3u(0, 0, 4), v3u(0, 0, -1));
    let mut rng = Prng::from_seed(1);
    let h = raytrace::world::prim_hit(&w.prims, idx, &ray, full_range(), &mut rng).unwrap();
    assert!(w.mats[h.mat].scatter(&ray, &h, &mut rng).is_none());
    let e = w.mats[h.mat].emit(h.uv, &h.p);
    assert_eq!(e.x.raw, SCALE);
    assert_eq!(e.y.raw, SCALE);
    assert_eq!(e.z.raw, SCALE);
}

fn emissive_scene() -> (World, Hittables) {
    let mut w = World::new();
    let mat = w.add_mat(Material::Emit(Emitter::new(Texture::Solid(SolidTex::new(
        Vec3::white(),
    )))));
    // a large glowing wall in front of the camera
    let q = Quad::new(v3u(-64, -64, -2), v3u(0, 127, 0), v3u(127, 0, 0), mat);
    let mut hs = Hittables::new();
    let idx = w.add_prim(Primitive::Qd(q));
    hs.add(&w, idx);
    (w, hs)
}

fn small_camera(seed: u64) -> Camera {
    let it = CameraIntrinsics {
        img_w: 4,
        ar_num: 1,
        ar_den: 1,
        rays_per_pixel: 2,
        max_bounces: 3,
        tan_half_vfov: Fx::new(SCALE),
        tan_half_defocus: Fx::new(0),
        focus_distance: Fx::new(SCALE),
        background: Vec3::zero(),
    };
    Camera::new_seeded_rng(it, CameraPose::default(), seed)
}

#[test]
fn emissive_wall_renders_at_full_brightness() {
    // every camera ray meets the glowing wall, so every pixel is saturated
    // white regardless of the sampling noise
    let (w, hs) = emissive_scene();
    let mut build_rng = Prng::from_seed(3);
    let tree = Bvh::from_hittables(&w, &hs, &mut build_rng);
    let cam = small_camera(11);
    let frame = cam.render(&w, &tree);
    assert_eq!(frame.len(), 4);
    for row in &frame {
        assert_eq!(row.len(), 12);
        for b in row {
            assert_eq!(*b, 255);
        }
    }
}

#[test]
fn empty_scene_renders_the_background() {
    let mut w = World::new();
    let mat = w.add_mat(Material::Lamb(Lambertian::new(Texture::Solid(SolidTex::new(
        Vec3::splat(Fx::new(SCALE / 2)),
    )))));
    // one sphere far behind the camera
    let s = Sphere::new(fxu(1), v3u(0, 0, 500), mat);
    let mut hs = Hittables::new();
    let idx = w.add_prim(Primitive::Sph(s));
    hs.add(&w, idx);
    let mut build_rng = Prng::from_seed(3);
    let tree = Bvh::from_hittables(&w, &hs, &mut build_rng);
    let it = CameraIntrinsics {
        background: Vec3::new(Fx::new(27761), Fx::new(42666), Fx::new(49606)),
        ..CameraIntrinsics::default()
    };
    let it = CameraIntrinsics { img_w: 2, ar_num: 1, ar_den: 1, rays_per_pixel: 1,
        max_bounces: 2, ..it };
    let cam = Camera::new_seeded_rng(it, CameraPose::default(), 4);
    let frame = cam.render(&w, &tree);
    for row in &frame {
        for px in row.chunks(3) {
            assert_eq!(px, &[166, 206, 222]);
        }
    }
}

#[test]
fn render_is_reproducible_and_band_order_free() {
    let (w, hs) = emissive_scene();
    let mut build_rng = Prng::from_seed(3);
    let tree = Bvh::from_hittables(&w, &hs, &mut build_rng);
    let cam = small_camera(42);
    let sequential = cam.render(&w, &tree);
    let again = cam.render(&w, &tree);
    assert_eq!(sequential, again);
    // rows computed out of order, as racing workers would hand them in
    let mut bands: Vec<(usize, Vec<u8>)> = Vec::new();
    for y in [3u32, 1, 0, 2] {
        bands.push((y as usize, cam.render_row(&w, &tree, y, 42u64.wrapping_add(y as u64))));
    }
    let assembled = assemble_rows(bands, 4).expect("all rows present");
    assert_eq!(assembled, sequential);
}

#[test]
fn medium_scene_renders_reproducibly() {
    // pixels are a function of the seed even with a participating medium in
    // the scene: the free-flight draws follow the traversal, which is itself
    // pinned, so worker banding still cannot change the image
    let mut w = World::new();
    let light = w.add_mat(Material::Emit(Emitter::new(Texture::Solid(SolidTex::new(
        Vec3::white(),
    )))));
    let phase = w.add_mat(Material::Iso(Isotropic::new(Texture::Solid(SolidTex::new(
        Vec3::splat(Fx::new(SCALE / 2)),
    )))));
    let mut hs = Hittables::new();
    let wall = w.add_prim(Primitive::Qd(Quad::new(v3u(-64, -64, -6), v3u(0, 127, 0),
        v3u(127, 0, 0), light)));
    hs.add(&w, wall);
    let s = Sphere::new(fxu(1), v3u(0, 0, -3), phase);
    let boundary = w.add_prim(Primitive::Sph(s));
    let fog = w.add_prim(Primitive::Med(ConstantMedium::new(boundary, fxu(2), phase, &w)));
    hs.add(&w, fog);
    let mut build_rng = Prng::from_seed(3);
    let tree = Bvh::from_hittables(&w, &hs, &mut build_rng);
    let cam = small_camera(77);
    let first = cam.render(&w, &tree);
    let again = cam.render(&w, &tree);
    assert_eq!(first, again);
    let mut bands: Vec<(usize, Vec<u8>)> = Vec::new();
    for y in [2u32, 0, 3, 1] {
        bands.push((y as usize, cam.render_row(&w, &tree, y, 77u64.wrapping_add(y as u64))));
    }
    assert_eq!(assemble_rows(bands, 4).expect("all rows present"), first);
}

#[test]
fn assembly_rejects_duplicates_and_gaps() {
    let row = vec![0u8, 0, 0];
    assert!(assemble_rows(vec![(0, row.clone()), (0, row.clone())], 2).is_none());
    assert!(assemble_rows(vec![(0, row.clone())], 2).is_none());
    assert!(assemble_rows(vec![(5, row.clone())], 2).is_none());
    let ok = assemble_rows(vec![(1, vec![1u8]), (0, vec![2u8])], 2).unwrap();
    assert_eq!(ok, vec![vec![2u8], vec![1u8]]);
}

#[test]
fn samplers_stay_in_their_ranges() {
    let mut rng = Prng::from_seed(77);
    for _ in 0..16 {
        let off = Vec3::rand_unit_square_offset(&mut rng);
        assert!(-SCALE / 2 <= off.x.raw && off.x.raw < SCALE / 2);
        assert!(-SCALE / 2 <= off.y.raw && off.y.raw < SCALE / 2);
        let v = Vec3::rand(&mut rng);
        assert!(0 <= v.x.raw && v.x.raw < SCALE);
        let rr = Vec3::rand_range(&mut rng, fxu(-2), fxu(2));
        assert!(-2 * SCALE <= rr.x.raw && rr.x.raw < 2 * SCALE);
        let up = Vec3::new(Fx::new(0), Fx::new(SCALE), Fx::new(0));
        let hemi = Vec3::rand_unit_sphere_vec_on_hemisphere(&mut rng, &up);
        assert!(hemi.y.raw >= 0);
    }
}

#[test]
fn sampler_is_deterministic() {
    let mut a = Prng::from_seed(12345);
    let mut b = Prng::from_seed(12345);
    for _ in 0..32 {
        assert_eq!(a.next_u64(), b.next_u64());
    }
    let mut c = Prng::from_seed(12345);
    for _ in 0..32 {
        let u = c.unit();
        assert!(0 <= u.raw && u.raw < SCALE);
    }
}

#[test]
fn texture_lookups() {
    let p = Vec3::zero();
    let red = Texture::Solid(SolidTex::red());
    assert_eq!(red.value((Fx::new(0), Fx::new(0)), &p).x.raw, SCALE);
    let checker = Texture::Checker(CheckerTex::new(Vec3::white(), Vec3::zero(), fxu(2)));
    let a = checker.value((Fx::new(0), Fx::new(0)), &p);
    let b = checker.value((Fx::new(SCALE / 2), Fx::new(0)), &p);
    assert_eq!(a.x.raw, SCALE);
    assert_eq!(b.x.raw, 0);
    let stripes = Texture::Stripe(StripeTex::new(Vec3::white(), Vec3::zero(), fxu(2),
        Orientation::Vertical));
    assert_eq!(stripes.value((Fx::new(0), Fx::new(0)), &p).x.raw, SCALE);
    assert_eq!(stripes.value((Fx::new(SCALE / 2), Fx::new(0)), &p).x.raw, 0);
    let uv = Texture::Uv(UVTex::new());
    let c = uv.value((Fx::new(SCALE / 2), Fx::new(SCALE / 4)), &p);
    assert_eq!(c.x.raw, SCALE / 2);
    assert_eq!(c.y.raw, SCALE / 4);
}

#[test]
fn raster_texture_checks_its_dimensions() {
    // two pixels: red then blue, one row
    let data = vec![255u8, 0, 0, 0, 0, 255];
    let img = ImageTex::new(2, 1, data.clone()).expect("dimensions match");
    let tex = Texture::Img(img);
    let left = tex.value((Fx::new(0), Fx::new(SCALE)), &Vec3::zero());
    assert_eq!(left.x.raw, 255 * SCALE / 255);
    assert_eq!(left.z.raw, 0);
    let right = tex.value((Fx::new(SCALE), Fx::new(SCALE)), &Vec3::zero());
    assert_eq!(right.x.raw, 0);
    assert!(right.z.raw > 0);
    assert!(ImageTex::new(2, 2, data).is_err());
    assert!(ImageTex::new(0, 1, vec![]).is_err());
}

#[test]
fn spawn_box_registers_six_faces() {
    let mut w = World::new();
    let mat = w.add_mat(Material::Lamb(Lambertian::new(Texture::Solid(SolidTex::new(
        Vec3::splat(Fx::new(SCALE / 2)),
    )))));
    let hs = Quad::spawn_box(v3u(0, 0, 0), v3u(2, 2, 2), mat, &mut w);
    assert_eq!(hs.objects.len(), 6);
    assert_eq!(w.prims.len(), 6);
    // a ray from outside meets the near face of the box
    let ray = Ray3::without_time(v3u(1, 1, 5), v3u(0, 0, -1));
    let mut rng = Prng::from_seed(0);
    let h = hs.hit(&w, &ray, full_range(), &mut rng).expect("the box must be hit");
    assert_eq!(h.t.raw, 3 * SCALE);
}
