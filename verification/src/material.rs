//! Material models: how a surface responds to an incident ray.
//!
//! Each scatter result is pinned down exactly: as a function of the incident
//! ray, the hit and the sampler state, so a whole render is a mathematical
//! function of its seed.

use vstd::prelude::*;
use crate::fx::{Fx, fx_mul, fx_div, fx_sqrt, iabs, SCALE, lemma_tdiv_bound, lemma_mul_bound,
    lemma_isqrt_bound};
use crate::vec::{Vec3, V3i, v3_bounded, v3_add, v3_neg, v3_scale, v3_dot, v3_norm,
    v3_near_zero, v3_reflect, v3_refract, UNIT_LIMIT, bound_dot, bound_scale, lemma_fx_mul_le};
use crate::ray::{Ray3, ray_wf, Hit, HitView, Scatter, POINT_LIMIT};
use crate::rng::{Prng, unit_of, step64, unit_sphere_of, unit_sphere_state, SPHERE_TRIES,
    rand_unit_sphere_vec};
use crate::texture::{Texture, tex_wf, tex_value, COLOR_LIMIT};

verus! {

#[derive(Clone, PartialEq, Eq, Debug)]
pub struct Lambertian {
    pub tex: Texture,
}

impl Lambertian {
    pub fn new(tex: Texture) -> (r: Lambertian)
        ensures
            r.tex == tex,
    {
        Lambertian { tex }
    }
}

#[derive(Clone, PartialEq, Eq, Debug)]
pub struct Metal {
    pub tex: Texture,
    pub fuzz: Fx,
}

impl Metal {
    pub fn new(tex: Texture, fuzz: Fx) -> (r: Metal)
        ensures
            r.tex == tex,
            r.fuzz == fuzz,
    {
        Metal { tex, fuzz }
    }
}

#[derive(Clone, Copy, PartialEq, Eq, Structural, Debug)]
pub struct Dielectric {
    pub refractive_index: Fx,
}

impl Dielectric {
    pub fn new(refractive_index: Fx) -> (r: Dielectric)
        ensures
            r.refractive_index == refractive_index,
    {
        Dielectric { refractive_index }
    }

    /// Schlick's approximation of Fresnel reflectance: the probability of
    /// reflection for a given refraction ratio and incidence cosine.
    pub fn reflectance(refraction_index: Fx, cos_theta: Fx) -> (r: Fx)
        requires
            0 <= refraction_index.v() <= 4 * SCALE as int,
            -(64 * SCALE as int) <= cos_theta.v() <= SCALE as int,
        ensures
            r.v() == schlick(refraction_index.v(), cos_theta.v()),
    {
        let num: Ghost<int> = Ghost((SCALE as int - refraction_index.v()) * SCALE as int);
        let den: Ghost<int> = Ghost(SCALE as int + refraction_index.v());
        proof {
            lemma_mul_bound(SCALE as int - refraction_index.v(), SCALE as int, 3 * SCALE as int,
                SCALE as int);
            lemma_tdiv_bound(num@, den@);
            assert(iabs(num@) / iabs(den@) <= 0x3_0000) by (nonlinear_arith)
                requires
                    iabs(num@) <= 0x3_0000_0000,
                    iabs(den@) >= 0x1_0000,
            ;
        }
        let r0q = Fx::one().sub(refraction_index).div(Fx::one().add(refraction_index));
        proof {
            lemma_fx_mul_le(r0q.v(), r0q.v(), 0x3_0000, 0x3_0000);
        }
        let r0 = r0q.mul(r0q);
        let x = Fx::one().sub(cos_theta);
        proof {
            lemma_fx_mul_le(x.v(), x.v(), 0x80_0000, 0x80_0000);
            lemma_fx_mul_le(fx_mul(x.v(), x.v()), fx_mul(x.v(), x.v()), 0x4000_0000,
                0x4000_0000);
            lemma_fx_mul_le(fx_mul(fx_mul(x.v(), x.v()), fx_mul(x.v(), x.v())), x.v(),
                0x1000_0000_0000, 0x80_0000);
            lemma_fx_mul_le(SCALE as int - r0.v(),
                fx_mul(fx_mul(fx_mul(x.v(), x.v()), fx_mul(x.v(), x.v())), x.v()),
                0x10_0000, 0x8_0000_0000_0000);
        }
        let x2 = x.mul(x);
        let x4 = x2.mul(x2);
        let x5 = x4.mul(x);
        r0.add(Fx::one().sub(r0).mul(x5))
    }
}

#[derive(Clone, PartialEq, Eq, Debug)]
pub struct Emitter {
    pub tex: Texture,
}

impl Emitter {
    pub fn new(tex: Texture) -> (r: Emitter)
        ensures
            r.tex == tex,
    {
        Emitter { tex }
    }
}

#[derive(Clone, PartialEq, Eq, Debug)]
pub struct Isotropic {
    pub tex: Texture,
}

impl Isotropic {
    pub fn new(tex: Texture) -> (r: Isotropic)
        ensures
            r.tex == tex,
    {
        Isotropic { tex }
    }
}

/// The material capability: a closed set of surface responses.
#[derive(Clone, PartialEq, Eq, Debug)]
pub enum Material {
    Lamb(Lambertian),
    Met(Metal),
    Diel(Dielectric),
    Emit(Emitter),
    Iso(Isotropic),
}

pub open spec fn mat_wf(m: Material) -> bool {
    match m {
        Material::Lamb(l) => tex_wf(l.tex),
        Material::Met(me) => tex_wf(me.tex) && 0 <= me.fuzz.v() <= SCALE as int,
        Material::Diel(d) => SCALE as int <= d.refractive_index.v() <= 4 * SCALE as int,
        Material::Emit(e) => tex_wf(e.tex),
        Material::Iso(i) => tex_wf(i.tex),
    }
}

/// A hit record within the bounds every material relies on.
pub open spec fn hit_wf(h: HitView) -> bool {
    &&& v3_bounded(h.p, POINT_LIMIT as int)
    &&& v3_bounded(h.normal, UNIT_LIMIT as int)
    &&& 0 <= h.u <= SCALE as int
    &&& 0 <= h.v <= SCALE as int
}

/// Mathematical view of a scatter result.
pub ghost struct ScatterView {
    pub attenuation: V3i,
    pub origin: V3i,
    pub dir: V3i,
    pub time: int,
}

impl View for Scatter {
    type V = ScatterView;

    open spec fn view(&self) -> ScatterView {
        ScatterView {
            attenuation: self.attenuation@,
            origin: self.scattered_ray.origin@,
            dir: self.scattered_ray.dir@,
            time: self.scattered_ray.time.v(),
        }
    }
}

pub open spec fn opt_scatter_view(r: Option<Scatter>) -> Option<ScatterView> {
    match r {
        Some(s) => Some(s@),
        None => None,
    }
}

/// Fifth power on the fixed-point grid, associated as square, fourth, fifth.
pub open spec fn pow5(x: int) -> int {
    fx_mul(fx_mul(fx_mul(x, x), fx_mul(x, x)), x)
}

/// Schlick's reflectance: `r0 + (1 - r0)(1 - cos)^5` with
/// `r0 = ((1 - n)/(1 + n))^2`, all on the fixed-point grid.
pub open spec fn schlick(ri: int, cos: int) -> int {
    let r0q = fx_div(SCALE as int - ri, SCALE as int + ri);
    let r0 = fx_mul(r0q, r0q);
    r0 + fx_mul(SCALE as int - r0, pow5(SCALE as int - cos))
}

/// What `scatter` returns, as a function of material, incident ray, hit and
/// sampler state.
pub open spec fn scatter_spec(m: Material, ray: Ray3, h: HitView, st: u64)
    -> Option<ScatterView> {
    match m {
        Material::Lamb(l) => {
            let sv = unit_sphere_of(st, SPHERE_TRIES as nat);
            let dir0 = v3_add(h.normal, sv);
            let dir = if v3_near_zero(dir0) { h.normal } else { dir0 };
            Some(ScatterView {
                attenuation: tex_value(l.tex, h.u, h.v, h.p),
                origin: h.p,
                dir,
                time: ray.time.v(),
            })
        },
        Material::Met(me) => {
            let sv = unit_sphere_of(st, SPHERE_TRIES as nat);
            let refl = v3_reflect(v3_norm(ray.dir@), h.normal);
            Some(ScatterView {
                attenuation: tex_value(me.tex, h.u, h.v, h.p),
                origin: h.p,
                dir: v3_add(refl, v3_scale(sv, me.fuzz.v())),
                time: ray.time.v(),
            })
        },
        Material::Diel(d) => {
            let ri = d.refractive_index.v();
            let ratio = if h.front_face { fx_div(SCALE as int, ri) } else { ri };
            let unit_dir = v3_norm(ray.dir@);
            let dt = v3_dot(v3_neg(unit_dir), h.normal);
            let cos = if dt <= SCALE as int { dt } else { SCALE as int };
            let sin = fx_sqrt(iabs(SCALE as int - fx_mul(cos, cos)));
            let u = unit_of(st);
            let dir = if fx_mul(ratio, sin) > SCALE as int || schlick(ratio, cos) > u {
                v3_reflect(unit_dir, h.normal)
            } else {
                v3_refract(unit_dir, h.normal, ratio)
            };
            Some(ScatterView {
                attenuation: V3i { x: SCALE as int, y: SCALE as int, z: SCALE as int },
                origin: h.p,
                dir,
                time: ray.time.v(),
            })
        },
        Material::Emit(_) => None,
        Material::Iso(i) => Some(ScatterView {
            attenuation: tex_value(i.tex, h.u, h.v, h.p),
            origin: h.p,
            dir: unit_sphere_of(st, SPHERE_TRIES as nat),
            time: ray.time.v(),
        }),
    }
}

/// The sampler state `scatter` leaves behind.
pub open spec fn scatter_state(m: Material, st: u64) -> u64 {
    match m {
        Material::Lamb(_) => unit_sphere_state(st, SPHERE_TRIES as nat),
        Material::Met(_) => unit_sphere_state(st, SPHERE_TRIES as nat),
        Material::Diel(_) => step64(st),
        Material::Emit(_) => st,
        Material::Iso(_) => unit_sphere_state(st, SPHERE_TRIES as nat),
    }
}

/// What `emit` returns: emitters shine their texture, everything else is
/// black.
pub open spec fn emit_value(m: Material, u: int, v: int, p: V3i) -> V3i {
    match m {
        Material::Emit(e) => tex_value(e.tex, u, v, p),
        _ => V3i { x: 0, y: 0, z: 0 },
    }
}

/// At normal incidence (cosine one) the grazing term of Schlick's
/// approximation vanishes exactly: the reflectance is
/// `r0 = ((1 - n)/(1 + n))^2` alone.
pub proof fn lemma_reflectance_normal_incidence(ri: int)
    ensures
        schlick(ri, SCALE as int) == fx_mul(fx_div(SCALE as int - ri, SCALE as int + ri),
            fx_div(SCALE as int - ri, SCALE as int + ri)),
{
    let r0q = fx_div(SCALE as int - ri, SCALE as int + ri);
    let r0 = fx_mul(r0q, r0q);
    assert(pow5(0) == 0) by {
        assert(0 * 0 == 0) by (nonlinear_arith);
        assert(fx_mul(0, 0) == 0);
    }
    assert(fx_mul(SCALE as int - r0, 0) == 0) by {
        assert((SCALE as int - r0) * 0 == 0) by (nonlinear_arith);
    }
}

impl Material {
    /// Respond to a hit: either a scattered ray with an attenuation, or
    /// `None` for full absorption (emitters never scatter).
    pub fn scatter(&self, incident_ray: &Ray3, hit: &Hit, rng: &mut Prng) -> (r: Option<Scatter>)
        requires
            mat_wf(*self),
            ray_wf(*incident_ray),
            hit_wf(hit@),
        ensures
            opt_scatter_view(r) == scatter_spec(*self, *incident_ray, hit@, old(rng).state),
            final(rng).state == scatter_state(*self, old(rng).state),
            match r {
                Some(sc) => ray_wf(sc.scattered_ray)
                    && v3_bounded(sc.attenuation@, COLOR_LIMIT as int),
                None => true,
            },
    {
        match self {
            Material::Lamb(l) => {
                let sv = rand_unit_sphere_vec(rng);
                let sum = hit.normal.add(sv);
                let dir = if sum.near_zero() { hit.normal } else { sum };
                Some(Scatter {
                    attenuation: l.tex.value(hit.uv, &hit.p),
                    scattered_ray: Ray3 { origin: hit.p, dir, time: incident_ray.time },
                })
            },
            Material::Met(me) => {
                let sv = rand_unit_sphere_vec(rng);
                let refl = incident_ray.dir.norm().reflect(hit.normal);
                proof {
                    bound_scale(sv@, me.fuzz.v(), UNIT_LIMIT as int, SCALE as int);
                }
                let dir = refl.add(sv.scale(me.fuzz));
                Some(Scatter {
                    attenuation: me.tex.value(hit.uv, &hit.p),
                    scattered_ray: Ray3 { origin: hit.p, dir, time: incident_ray.time },
                })
            },
            Material::Diel(d) => {
                let ratio = if hit.front_face {
                    proof {
                        lemma_tdiv_bound(SCALE as int * SCALE as int, d.refractive_index.v());
                        assert(iabs(SCALE as int * SCALE as int) / iabs(d.refractive_index.v())
                            <= SCALE as int) by (nonlinear_arith)
                            requires
                                iabs(d.refractive_index.v()) >= SCALE as int,
                        ;
                    }
                    Fx::one().div(d.refractive_index)
                } else {
                    d.refractive_index
                };
                let unit_dir = incident_ray.dir.norm();
                proof {
                    bound_dot(v3_neg(unit_dir@), hit.normal@, UNIT_LIMIT as int,
                        UNIT_LIMIT as int);
                }
                let cos_theta = unit_dir.neg().dot(hit.normal).min(Fx::one());
                proof {
                    lemma_fx_mul_le(cos_theta.v(), cos_theta.v(), 0x30_0000, 0x30_0000);
                }
                let sin_theta = Fx::one().sub(cos_theta.mul(cos_theta)).abs().sqrt();
                proof {
                    lemma_isqrt_bound(
                        iabs(SCALE as int - fx_mul(cos_theta.v(), cos_theta.v()))
                            * SCALE as int,
                        sin_theta.v(),
                        0x4000_0000,
                    );
                    lemma_fx_mul_le(ratio.v(), sin_theta.v(), 4 * SCALE as int, 0x4000_0000);
                }
                let u = rng.unit();
                let reflectance = Dielectric::reflectance(ratio, cos_theta);
                let dir = if ratio.mul(sin_theta).raw > SCALE || reflectance.raw > u.raw {
                    unit_dir.reflect(hit.normal)
                } else {
                    unit_dir.refract(hit.normal, ratio)
                };
                Some(Scatter {
                    attenuation: Vec3::white(),
                    scattered_ray: Ray3 { origin: hit.p, dir, time: incident_ray.time },
                })
            },
            Material::Emit(_) => None,
            Material::Iso(i) => {
                let dir = rand_unit_sphere_vec(rng);
                Some(Scatter {
                    attenuation: i.tex.value(hit.uv, &hit.p),
                    scattered_ray: Ray3 { origin: hit.p, dir, time: incident_ray.time },
                })
            },
        }
    }

    /// Directly visible light: the emitter's texture, black for every other
    /// material.
    pub fn emit(&self, uv: (Fx, Fx), p: &crate::vec::Point) -> (r: crate::vec::Color)
        requires
            mat_wf(*self),
            0 <= uv.0.v() <= SCALE as int,
            0 <= uv.1.v() <= SCALE as int,
        ensures
            r@ == emit_value(*self, uv.0.v(), uv.1.v(), p@),
            v3_bounded(r@, COLOR_LIMIT as int),
    {
        match self {
            Material::Emit(e) => e.tex.value(uv, p),
            _ => Vec3::zero(),
        }
    }
}

} // verus!
