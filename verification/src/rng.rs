//! Sources of uniform randomness.
//!
//! The renderer threads one `Prng` per worker through the whole sampling
//! chain. Its update rule is ordinary verified integer code, so every draw is
//! a spec function of the seed: reproducible renders are a theorem, not a
//! convention. Fresh (non-reproducing) seeds come from the `rand` crate
//! through a single trusted wrapper.

use vstd::prelude::*;
use crate::fx::{Fx, SCALE};
use crate::vec::{Vec3, V3i, v3_bounded, v3_dot, v3_norm, UNIT_LIMIT};

verus! {

/// One splitmix-style mixing step as a mathematical function.
#[verifier::opaque]
pub open spec fn mix64(s: u64) -> u64 {
    let z0 = add64(s, 0x9E3779B97F4A7C15);
    let z1 = mul64(z0 ^ (z0 >> 30), 0xBF58476D1CE4E5B9);
    let z2 = mul64(z1 ^ (z1 >> 27), 0x94D049BB133111EB);
    z2 ^ (z2 >> 31)
}

/// The state after one draw.
pub open spec fn step64(s: u64) -> u64 {
    add64(s, 0x9E3779B97F4A7C15)
}

pub open spec fn add64(a: u64, b: u64) -> u64 {
    ((a as int + b as int) % 0x1_0000_0000_0000_0000) as u64
}

pub open spec fn mul64(a: u64, b: u64) -> u64 {
    ((a as int * b as int) % 0x1_0000_0000_0000_0000) as u64
}

/// A splitmix-style pseudo-random generator. Each worker owns exactly one;
/// they are never shared.
#[derive(Clone, Copy, PartialEq, Eq, Structural, Debug)]
pub struct Prng {
    pub state: u64,
}

impl Prng {
    pub fn from_seed(seed: u64) -> (r: Prng)
        ensures
            r.state == seed,
    {
        Prng { state: seed }
    }

    /// Draw 64 uniform bits; the result and the new state are functions of
    /// the old state alone.
    pub fn next_u64(&mut self) -> (r: u64)
        ensures
            r == mix64(old(self).state),
            final(self).state == step64(old(self).state),
    {
        proof {
            reveal(mix64);
        }
        self.state = self.state.wrapping_add(0x9E3779B97F4A7C15);
        let z0 = self.state;
        let z1 = (z0 ^ (z0 >> 30)).wrapping_mul(0xBF58476D1CE4E5B9);
        let z2 = (z1 ^ (z1 >> 27)).wrapping_mul(0x94D049BB133111EB);
        z2 ^ (z2 >> 31)
    }

    /// Uniform fixed-point draw in [0, 1).
    pub fn unit(&mut self) -> (r: Fx)
        ensures
            r.v() == unit_of(old(self).state) && 0 <= r.v() < SCALE as int,
            final(self).state == step64(old(self).state),
    {
        let bits = self.next_u64();
        proof {
            let b = bits;
            assert((b & 0xFFFF) < 0x1_0000 && (b & 0xFFFF) == b % 0x1_0000) by (bit_vector);
        }
        Fx { raw: (bits & 0xFFFF) as i64 }
    }

    /// Uniform fixed-point draw in [-1/2, 1/2).
    pub fn half_offset(&mut self) -> (r: Fx)
        ensures
            r.v() == unit_of(old(self).state) - (SCALE as int) / 2,
            -(SCALE as int) / 2 <= r.v() < (SCALE as int) / 2,
            final(self).state == step64(old(self).state),
    {
        let u = self.unit();
        Fx { raw: u.raw - SCALE / 2 }
    }

    /// Uniform fixed-point draw in [-1, 1).
    pub fn symmetric(&mut self) -> (r: Fx)
        ensures
            r.v() == 2 * unit_of(old(self).state) - SCALE as int,
            -(SCALE as int) <= r.v() < SCALE as int,
            final(self).state == step64(old(self).state),
    {
        let u = self.unit();
        Fx { raw: 2 * u.raw - SCALE }
    }

    /// Uniform draw from {0, 1, 2}, used for picking a split axis.
    pub fn axis(&mut self) -> (r: usize)
        ensures
            r == mix64(old(self).state) as int % 3,
            r < 3,
            final(self).state == step64(old(self).state),
    {
        let bits = self.next_u64();
        (bits % 3) as usize
    }
}

/// The unit draw produced from a given state.
pub open spec fn unit_of(s: u64) -> int {
    mix64(s) as int % 0x1_0000
}

/// A vector of three symmetric draws, as the sampling loop sees it.
pub open spec fn sym_vec_of(s: u64) -> V3i {
    let s1 = step64(s);
    let s2 = step64(s1);
    V3i {
        x: 2 * unit_of(s) - SCALE as int,
        y: 2 * unit_of(s1) - SCALE as int,
        z: 2 * unit_of(s2) - SCALE as int,
    }
}

/// The state after one rejection round (three draws).
pub open spec fn step3(s: u64) -> u64 {
    step64(step64(step64(s)))
}

/// Result of the bounded rejection loop for a point in the unit sphere,
/// normalized to (roughly) unit length: the first of at most `tries` draws
/// whose length is at most one, or the x axis when all are rejected.
pub open spec fn unit_sphere_of(s: u64, tries: nat) -> V3i
    decreases tries,
{
    if tries == 0 {
        V3i { x: SCALE as int, y: 0, z: 0 }
    } else {
        let v = sym_vec_of(s);
        if 0 < v3_dot(v, v) <= SCALE as int {
            v3_norm(v)
        } else {
            unit_sphere_of(step3(s), (tries - 1) as nat)
        }
    }
}

/// State left behind by `unit_sphere_of`.
pub open spec fn unit_sphere_state(s: u64, tries: nat) -> u64
    decreases tries,
{
    if tries == 0 {
        s
    } else {
        let v = sym_vec_of(s);
        if 0 < v3_dot(v, v) <= SCALE as int {
            step3(s)
        } else {
            unit_sphere_state(step3(s), (tries - 1) as nat)
        }
    }
}

/// How many rejection rounds the sampler will try before falling back to a
/// fixed axis (the chance of ever needing the fallback is about 2^-64).
pub const SPHERE_TRIES: u64 = 48;

/// A (roughly) unit-length direction drawn uniformly over the sphere by
/// rejection sampling, in at most `SPHERE_TRIES` rounds.
pub fn rand_unit_sphere_vec(rng: &mut Prng) -> (r: Vec3)
    ensures
        r@ == unit_sphere_of(old(rng).state, SPHERE_TRIES as nat),
        final(rng).state == unit_sphere_state(old(rng).state, SPHERE_TRIES as nat),
        v3_bounded(r@, UNIT_LIMIT as int),
{
    sample_sphere(rng, SPHERE_TRIES)
}

fn sample_sphere(rng: &mut Prng, tries: u64) -> (r: Vec3)
    ensures
        r@ == unit_sphere_of(old(rng).state, tries as nat),
        final(rng).state == unit_sphere_state(old(rng).state, tries as nat),
        v3_bounded(r@, UNIT_LIMIT as int),
    decreases tries,
{
    if tries == 0 {
        Vec3 { x: Fx::one(), y: Fx::zero(), z: Fx::zero() }
    } else {
        let sx = rng.symmetric();
        let sy = rng.symmetric();
        let sz = rng.symmetric();
        let v = Vec3 { x: sx, y: sy, z: sz };
        proof {
            assert(v@ == sym_vec_of(old(rng).state));
        }
        let q = v.len_sqr();
        if 0 < q.raw && q.raw <= SCALE {
            v.norm()
        } else {
            sample_sphere(rng, tries - 1)
        }
    }
}

/// A pair of symmetric draws as a point of the plane.
pub open spec fn disk_vec_of(s: u64) -> V3i {
    V3i { x: 2 * unit_of(s) - SCALE as int, y: 2 * unit_of(step64(s)) - SCALE as int, z: 0 }
}

/// The state after one disk rejection round (two draws).
pub open spec fn step2(s: u64) -> u64 {
    step64(step64(s))
}

/// Result of the bounded rejection loop for a point in the unit disk: the
/// first of at most `tries` draws within unit length, or the center.
pub open spec fn unit_disk_of(s: u64, tries: nat) -> V3i
    decreases tries,
{
    if tries == 0 {
        V3i { x: 0, y: 0, z: 0 }
    } else {
        let v = disk_vec_of(s);
        if v3_dot(v, v) <= SCALE as int {
            v
        } else {
            unit_disk_of(step2(s), (tries - 1) as nat)
        }
    }
}

pub open spec fn unit_disk_state(s: u64, tries: nat) -> u64
    decreases tries,
{
    if tries == 0 {
        s
    } else {
        let v = disk_vec_of(s);
        if v3_dot(v, v) <= SCALE as int {
            step2(s)
        } else {
            unit_disk_state(step2(s), (tries - 1) as nat)
        }
    }
}

/// A point drawn uniformly from the unit disk by rejection sampling, in at
/// most `SPHERE_TRIES` rounds.
pub fn rand_in_unit_disc(rng: &mut Prng) -> (r: Vec3)
    ensures
        r@ == unit_disk_of(old(rng).state, SPHERE_TRIES as nat),
        final(rng).state == unit_disk_state(old(rng).state, SPHERE_TRIES as nat),
        v3_bounded(r@, SCALE as int),
{
    sample_disk(rng, SPHERE_TRIES)
}

fn sample_disk(rng: &mut Prng, tries: u64) -> (r: Vec3)
    ensures
        r@ == unit_disk_of(old(rng).state, tries as nat),
        final(rng).state == unit_disk_state(old(rng).state, tries as nat),
        v3_bounded(r@, SCALE as int),
    decreases tries,
{
    if tries == 0 {
        Vec3::zero()
    } else {
        let sx = rng.symmetric();
        let sy = rng.symmetric();
        let v = Vec3 { x: sx, y: sy, z: Fx::zero() };
        proof {
            assert(v@ == disk_vec_of(old(rng).state));
        }
        let q = v.len_sqr();
        if q.raw <= SCALE {
            proof {
                lemma_disk_comp_bound(v@);
            }
            v
        } else {
            sample_disk(rng, tries - 1)
        }
    }
}

/// A point within the unit disk has components within the unit.
proof fn lemma_disk_comp_bound(v: V3i)
    requires
        v.z == 0,
        -(SCALE as int) <= v.x < SCALE as int,
        -(SCALE as int) <= v.y < SCALE as int,
        v3_dot(v, v) <= SCALE as int,
    ensures
        v3_bounded(v, SCALE as int),
{
}

/// A jitter offset within one pixel's footprint.
pub open spec fn square_offset_of(s: u64) -> V3i {
    V3i {
        x: unit_of(s) - (SCALE as int) / 2,
        y: unit_of(step64(s)) - (SCALE as int) / 2,
        z: 0,
    }
}

/// The hemisphere sample: the sphere sample, flipped to the normal's side
/// when it points away.
pub open spec fn hemisphere_of(s: u64, tries: nat, normal: V3i) -> V3i {
    let v = unit_sphere_of(s, tries);
    if v3_dot(v, normal) > 0 {
        v
    } else {
        crate::vec::v3_neg(v)
    }
}

impl Vec3 {
    /// A jitter offset within one pixel's footprint.
    pub fn rand_unit_square_offset(rng: &mut Prng) -> (r: Vec3)
        ensures
            r@ == square_offset_of(old(rng).state),
            final(rng).state == step2(old(rng).state),
    {
        let x = rng.half_offset();
        let y = rng.half_offset();
        Vec3 { x, y, z: Fx::zero() }
    }

    /// A vector of three uniform draws in [0, 1).
    pub fn rand(rng: &mut Prng) -> (r: Vec3)
        ensures
            r@.x == unit_of(old(rng).state),
            r@.y == unit_of(step64(old(rng).state)),
            r@.z == unit_of(step2(old(rng).state)),
            final(rng).state == step3(old(rng).state),
            v3_bounded(r@, SCALE as int),
    {
        let x = rng.unit();
        let y = rng.unit();
        let z = rng.unit();
        Vec3 { x, y, z }
    }

    /// A vector of three uniform draws in [min, max).
    pub fn rand_range(rng: &mut Prng, min: Fx, max: Fx) -> (r: Vec3)
        requires
            crate::fx::iabs(min.v()) <= 0x8000_0000,
            crate::fx::iabs(max.v()) <= 0x8000_0000,
            min.v() <= max.v(),
        ensures
            r@.x == min.v() + crate::fx::fx_mul(max.v() - min.v(), unit_of(old(rng).state)),
            r@.y == min.v() + crate::fx::fx_mul(max.v() - min.v(),
                unit_of(step64(old(rng).state))),
            r@.z == min.v() + crate::fx::fx_mul(max.v() - min.v(),
                unit_of(step2(old(rng).state))),
            final(rng).state == step3(old(rng).state),
    {
        let span = max.sub(min);
        let ux = rng.unit();
        let uy = rng.unit();
        let uz = rng.unit();
        proof {
            crate::vec::lemma_fx_mul_le(span.v(), ux.v(), 0x1_0000_0000, SCALE as int);
            crate::vec::lemma_fx_mul_le(span.v(), uy.v(), 0x1_0000_0000, SCALE as int);
            crate::vec::lemma_fx_mul_le(span.v(), uz.v(), 0x1_0000_0000, SCALE as int);
        }
        Vec3 { x: min.add(span.mul(ux)), y: min.add(span.mul(uy)), z: min.add(span.mul(uz)) }
    }

    /// A unit sphere sample flipped onto the side of the given normal.
    pub fn rand_unit_sphere_vec_on_hemisphere(rng: &mut Prng, normal: &Vec3) -> (r: Vec3)
        requires
            v3_bounded(normal@, UNIT_LIMIT as int),
        ensures
            r@ == hemisphere_of(old(rng).state, SPHERE_TRIES as nat, normal@),
            final(rng).state == unit_sphere_state(old(rng).state, SPHERE_TRIES as nat),
            v3_bounded(r@, UNIT_LIMIT as int),
    {
        let v = rand_unit_sphere_vec(rng);
        proof {
            crate::vec::bound_dot(v@, normal@, UNIT_LIMIT as int, UNIT_LIMIT as int);
        }
        if v.dot(*normal).raw > 0 {
            v
        } else {
            v.neg()
        }
    }
}

/// Relies on `rand::random`: a fresh, uniformly random 64-bit seed drawn
/// from the thread-local generator, used when no reproducible seed is asked
/// for. Nothing can be promised of a random value.
#[verifier::external_body]
pub fn entropy_seed() -> u64 {
    rand::random()
}

} // verus!
