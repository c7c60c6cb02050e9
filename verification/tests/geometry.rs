//! Geometry-level checks: scalars, boxes, primitives.

use raytrace::fx::{Fx, SCALE};
use raytrace::vec::Vec3;
use raytrace::interval::Interval;
use raytrace::ray::Ray3;
use raytrace::aabb::AABB;
use raytrace::sphere::Sphere;
use raytrace::quad::Quad;
use raytrace::triangle::Triangle;
use raytrace::world::World;
use raytrace::material::{Material, Lambertian};
use raytrace::texture::{Texture, SolidTex};

fn fxu(i: i32) -> Fx {
    Fx::from_units(i)
}

fn v3(x: i64, y: i64, z: i64) -> Vec3 {
    Vec3::new(Fx::new(x), Fx::new(y), Fx::new(z))
}

fn v3u(x: i32, y: i32, z: i32) -> Vec3 {
    Vec3::new(fxu(x), fxu(y), fxu(z))
}

fn gray_world() -> (World, usize) {
    let mut w = World::new();
    let mat = w.add_mat(Material::Lamb(Lambertian::new(Texture::Solid(SolidTex::new(
        Vec3::splat(Fx::new(SCALE / 2)),
    )))));
    (w, mat)
}

#[test]
fn scalar_arithmetic_is_exact() {
    assert_eq!(fxu(3).add(fxu(4)).raw, 7 * SCALE);
    assert_eq!(fxu(3).mul(fxu(4)).raw, 12 * SCALE);
    assert_eq!(fxu(12).div(fxu(4)).raw, 3 * SCALE);
    assert_eq!(fxu(4).sqrt().raw, 2 * SCALE);
    assert_eq!(fxu(-5).abs().raw, 5 * SCALE);
    assert_eq!(fxu(7).sub(fxu(9)).raw, -2 * SCALE);
}

#[test]
fn interval_operations() {
    let i = Interval::new(fxu(1), fxu(3));
    assert!(i.contains(fxu(1)));
    assert!(i.contains(fxu(3)));
    assert!(!i.surrounds(fxu(3)));
    assert!(i.surrounds(fxu(2)));
    assert_eq!(i.clamp(fxu(5)).raw, 3 * SCALE);
    assert_eq!(i.clamp(fxu(0)).raw, SCALE);
    assert_eq!(i.size().raw, 2 * SCALE);
    let u = Interval::union(&Interval::new(fxu(0), fxu(1)), &Interval::new(fxu(2), fxu(5)));
    assert_eq!(u.min.raw, 0);
    assert_eq!(u.max.raw, 5 * SCALE);
}

#[test]
fn aabb_hit_through_and_miss() {
    let b = AABB::new(
        Interval::new(fxu(-1), fxu(1)),
        Interval::new(fxu(-1), fxu(1)),
        Interval::new(fxu(-1), fxu(1)),
    );
    let through = Ray3::without_time(v3u(0, 0, 5), v3u(0, 0, -1));
    assert!(b.hit(&through, Interval::new(Fx::new(1), fxu(100))));
    let miss = Ray3::without_time(v3u(5, 5, 5), v3u(0, 0, -1));
    assert!(!b.hit(&miss, Interval::new(Fx::new(1), fxu(100))));
}

#[test]
fn aabb_zero_direction_axis_does_not_reject() {
    // the ray never moves along x, but its origin is inside the box's x
    // slab, so the x axis alone must not reject the box
    let b = AABB::new(
        Interval::new(fxu(-1), fxu(1)),
        Interval::new(fxu(-1), fxu(1)),
        Interval::new(fxu(-1), fxu(1)),
    );
    let r = Ray3::without_time(v3u(0, 0, 5), v3u(0, 0, -1));
    assert!(b.hit(&r, Interval::new(Fx::new(1), fxu(100))));
}

#[test]
fn aabb_hit_symmetric_under_direction_flip() {
    let b = AABB::new(
        Interval::new(fxu(-1), fxu(2)),
        Interval::new(fxu(-1), fxu(1)),
        Interval::new(fxu(-1), fxu(1)),
    );
    let cases = [
        (v3u(0, 0, 5), v3u(0, 0, -1), 1i64, 100 * SCALE),
        (v3u(5, 5, 5), v3u(-1, -1, -1), 1i64, 100 * SCALE),
        (v3u(3, 0, 0), v3u(-1, 0, 0), 1i64, 10 * SCALE),
    ];
    for (o, d, lo, hi) in cases {
        let fwd = Ray3::without_time(o, d);
        let bwd = Ray3::without_time(o, d.neg());
        let a = b.hit(&fwd, Interval::new(Fx::new(lo), Fx::new(hi)));
        let c = b.hit(&bwd, Interval::new(Fx::new(-hi), Fx::new(-lo)));
        assert_eq!(a, c);
    }
}

#[test]
fn sphere_axis_hit_at_distance_minus_radius() {
    // a ray from four units out, aimed at a unit sphere at the origin,
    // meets it exactly at parameter three
    let (_world, mat) = gray_world();
    let s = Sphere::new(fxu(1), v3u(0, 0, 0), mat);
    let ray = Ray3::without_time(v3u(4, 0, 0), v3u(-1, 0, 0));
    let h = s
        .hit(&ray, &Interval::new(Fx::new(66), fxu(1000)))
        .expect("the axis ray must hit");
    assert_eq!(h.t.raw, 3 * SCALE);
    assert_eq!(h.p.x.raw, SCALE);
    assert_eq!(h.p.y.raw, 0);
    assert_eq!(h.p.z.raw, 0);
    assert!(h.front_face);
    assert_eq!(h.normal.x.raw, SCALE);
    // the azimuth is shifted by a half turn before normalizing, so the
    // point facing the ray sits half way around the texture
    assert_eq!(h.uv.0.raw, SCALE / 2 - 1);
}

#[test]
fn sphere_miss_and_inside_hit() {
    let (_, mat) = gray_world();
    let s = Sphere::new(fxu(1), v3u(0, 0, 0), mat);
    let miss = Ray3::without_time(v3u(4, 3, 0), v3u(-1, 0, 0));
    assert!(s.hit(&miss, &Interval::new(Fx::new(66), fxu(1000))).is_none());
    // from the center the first surface crossing is the far root, a back face
    let inside = Ray3::without_time(v3u(0, 0, 0), v3u(-1, 0, 0));
    let h = s
        .hit(&inside, &Interval::new(Fx::new(66), fxu(1000)))
        .expect("a ray from the center must exit");
    assert_eq!(h.t.raw, SCALE);
    assert!(!h.front_face);
}

#[test]
fn quad_planar_coordinates_at_center() {
    let (_, mat) = gray_world();
    let q = Quad::new(v3u(0, 0, 0), v3u(0, 1, 0), v3u(1, 0, 0), mat);
    let ray = Ray3::without_time(v3(SCALE / 2, SCALE / 2, SCALE), v3u(0, 0, -1));
    let h = q
        .hit(&ray, &Interval::new(Fx::new(66), fxu(1000)))
        .expect("the centered ray must hit");
    assert_eq!(h.uv.0.raw, SCALE / 2);
    assert_eq!(h.uv.1.raw, SCALE / 2);
    assert_eq!(h.t.raw, SCALE);
    assert!(h.front_face);
}

#[test]
fn quad_rejects_outside_footprint() {
    let (_, mat) = gray_world();
    let q = Quad::new(v3u(0, 0, 0), v3u(0, 1, 0), v3u(1, 0, 0), mat);
    let ray = Ray3::without_time(v3(3 * SCALE / 2, SCALE / 2, SCALE), v3u(0, 0, -1));
    assert!(q.hit(&ray, &Interval::new(Fx::new(66), fxu(1000))).is_none());
}

#[test]
fn triangle_barycentric_containment() {
    let (_, mat) = gray_world();
    let t = Triangle::new(v3u(0, 0, 0), v3u(0, 1, 0), v3u(1, 0, 0), mat);
    let inside = Ray3::without_time(v3(SCALE / 4, SCALE / 4, SCALE), v3u(0, 0, -1));
    assert!(t.hit(&inside, &Interval::new(Fx::new(66), fxu(1000))).is_some());
    // alpha + beta beyond one: inside the quad, outside the triangle
    let outside = Ray3::without_time(
        v3(9 * SCALE / 10, 9 * SCALE / 10, SCALE),
        v3u(0, 0, -1),
    );
    assert!(t.hit(&outside, &Interval::new(Fx::new(66), fxu(1000))).is_none());
}

#[test]
fn sphere_motion_moves_the_hit() {
    let (_, mat) = gray_world();
    let s = Sphere::new(fxu(1), v3u(0, 0, 0), mat).add_movement(v3u(0, 4, 0));
    let at_start = Ray3::with_time(v3u(4, 0, 0), v3u(-1, 0, 0), Fx::new(0));
    assert!(s.hit(&at_start, &Interval::new(Fx::new(66), fxu(1000))).is_some());
    let at_end = Ray3::with_time(v3u(4, 0, 0), v3u(-1, 0, 0), Fx::new(SCALE));
    assert!(s.hit(&at_end, &Interval::new(Fx::new(66), fxu(1000))).is_none());
    let chasing = Ray3::with_time(v3u(4, 4, 0), v3u(-1, 0, 0), Fx::new(SCALE));
    assert!(s.hit(&chasing, &Interval::new(Fx::new(66), fxu(1000))).is_some());
}

#[test]
fn compute_height_follows_aspect_ratio() {
    assert_eq!(raytrace::image::Image::compute_height(1600, 16, 9), 900);
    assert_eq!(raytrace::image::Image::compute_height(100, 200, 1), 1);
    assert_eq!(raytrace::image::Image::compute_height(256, 1, 1), 256);
}

#[test]
fn image_grid_dimensions_are_checked() {
    let rows = vec![vec![Vec3::zero(), Vec3::zero()], vec![Vec3::zero(), Vec3::zero()]];
    assert!(raytrace::image::Image::new(2, 2, rows).is_ok());
    let bad = vec![vec![Vec3::zero()], vec![Vec3::zero(), Vec3::zero()]];
    assert!(raytrace::image::Image::new(2, 2, bad).is_err());
}
