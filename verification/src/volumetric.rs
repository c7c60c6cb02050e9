//! A homogeneous participating medium bounded by a wrapped primitive, plus
//! the fixed-point logarithm its free-flight sampling uses.

use vstd::prelude::*;
use crate::fx::{Fx, fx_mul, fx_div, iabs, tdiv, SCALE, lemma_tdiv_bound, lemma_mul_bound};
use crate::vec::lemma_fx_mul_le;
use crate::aabb::{AABB, aabb_bounded, BOX_LIMIT};

verus! {

/// A constant-density medium: rays may scatter anywhere inside `boundary`
/// (an index into the world's primitive arena, before this wrapper), with
/// free-flight distances scaled by `neg_inv_density`.
#[derive(Clone, Copy, PartialEq, Eq, Structural, Debug)]
pub struct ConstantMedium {
    pub boundary: usize,
    pub neg_inv_density: Fx,
    pub phase_function: usize,
    pub bbox: AABB,
}

pub open spec fn medium_wf(m: ConstantMedium) -> bool {
    &&& -0x1000_0000 <= m.neg_inv_density.v() < 0
    &&& aabb_bounded(m.bbox, BOX_LIMIT as int)
}

impl ConstantMedium {
    /// A medium filling an earlier primitive, with the given density; denser
    /// media scatter sooner.
    pub fn new(boundary: usize, density: Fx, phase_function: usize,
        world: &crate::world::World) -> (r: ConstantMedium)
        requires
            boundary < world.prims@.len(),
            16 <= density.v() <= 0x1_0000_0000,
            aabb_bounded(crate::world::prim_bbox(world.prims@[boundary as int]),
                0x2_0000_0000),
        ensures
            r.boundary == boundary,
            r.phase_function == phase_function,
            r.neg_inv_density.v() == fx_div(-(SCALE as int), density.v()),
            r.bbox == crate::world::prim_bbox(world.prims@[boundary as int]),
            medium_wf(r),
    {
        proof {
            lemma_mul_bound(-(SCALE as int), SCALE as int, SCALE as int, SCALE as int);
            lemma_tdiv_bound(-(SCALE as int) * SCALE as int, density.v());
            assert(iabs(-(SCALE as int) * SCALE as int) / iabs(density.v()) <= 0x1000_0000
                && tdiv(-(SCALE as int) * SCALE as int, density.v()) < 0)
                by (nonlinear_arith)
                requires
                    16 <= density.v() <= 0x1_0000_0000,
                    iabs(-(SCALE as int) * SCALE as int) == SCALE as int * SCALE as int,
                    SCALE as int == 65536,
            ;
        }
        let neg_inv_density = Fx::one().neg().div(density);
        let bbox = crate::world::prim_bbox_exec(&world.prims[boundary]);
        ConstantMedium { boundary, neg_inv_density, phase_function, bbox }
    }
}

/// Natural logarithm of 2 on the raw grid.
pub const LN2: i64 = 45426;

/// Series part of the logarithm for an argument in (1/2, 1]:
/// `ln(m) = -2 (y + y^3/3 + y^5/5)` with `y = (1 - m)/(1 + m)`.
pub open spec fn fx_ln_frac(m: int) -> int {
    let y = fx_div(SCALE as int - m, SCALE as int + m);
    let y2 = fx_mul(y, y);
    let y3 = fx_mul(y2, y);
    let y5 = fx_mul(y3, y2);
    -2 * (y + y3 / 3 + y5 / 5)
}

/// Natural logarithm of `u / SCALE` for `u` in [1, SCALE]: repeatedly double
/// into (1/2, 1], subtracting ln 2 for each doubling.
pub open spec fn fx_ln_unit(u: int) -> int
    decreases SCALE as int - u
        when 1 <= u && u <= SCALE as int
{
    if u > SCALE as int / 2 {
        fx_ln_frac(u)
    } else {
        let w = fx_ln_unit(2 * u) - LN2 as int;
        if w < -(30 * SCALE as int) { -(30 * SCALE as int) } else { w }
    }
}

/// Exec twin of `fx_ln_frac`.
fn fx_ln_frac_exec(m: Fx) -> (r: Fx)
    requires
        SCALE as int / 2 < m.v() <= SCALE as int,
    ensures
        r.v() == fx_ln_frac(m.v()),
        -(2 * SCALE as int) <= r.v() <= 0,
{
    proof {
        lemma_mul_bound(SCALE as int - m.v(), SCALE as int, SCALE as int, SCALE as int);
        lemma_tdiv_bound((SCALE as int - m.v()) * SCALE as int, SCALE as int + m.v());
        assert(iabs((SCALE as int - m.v()) * SCALE as int) / iabs(SCALE as int + m.v())
            <= 0x8000) by (nonlinear_arith)
            requires
                0 <= (SCALE as int - m.v()) * SCALE as int <= 0x8000_0000,
                iabs(SCALE as int + m.v()) >= 0x1_8000,
        ;
    }
    let y = Fx::one().sub(m).div(Fx::one().add(m));
    proof {
        lemma_fx_mul_le(y.v(), y.v(), 0x8000, 0x8000);
        lemma_fx_mul_le(fx_mul(y.v(), y.v()), y.v(), 0x4000, 0x8000);
        lemma_fx_mul_le(fx_mul(fx_mul(y.v(), y.v()), y.v()), fx_mul(y.v(), y.v()), 0x2000,
            0x4000);
        assert(0 <= y.v()) by {
            assert(0 <= tdiv((SCALE as int - m.v()) * SCALE as int, SCALE as int + m.v()))
                by (nonlinear_arith)
                requires
                    0 <= (SCALE as int - m.v()) * SCALE as int,
                    0 < SCALE as int + m.v(),
            ;
        }
    }
    let y2 = y.mul(y);
    let y3 = y2.mul(y);
    let y5 = y3.mul(y2);
    proof {
        assert(0 <= fx_mul(y.v(), y.v())) by {
            crate::vec::lemma_fx_square_nonneg(y.v());
        }
        assert(0 <= y3.v() && 0 <= y5.v()) by (nonlinear_arith)
            requires
                y3.v() == tdiv(y2.v() * y.v(), SCALE as int),
                y5.v() == tdiv(y3.v() * y2.v(), SCALE as int),
                0 <= y.v(),
                0 <= y2.v(),
        ;
    }
    proof {
        assert((y3.raw as u64) / 3 <= y3.raw as u64 && (y5.raw as u64) / 5 <= y5.raw as u64)
            by (nonlinear_arith)
            requires
                y3.raw >= 0,
                y5.raw >= 0,
        ;
    }
    let t3 = Fx { raw: ((y3.raw as u64) / 3) as i64 };
    let t5 = Fx { raw: ((y5.raw as u64) / 5) as i64 };
    let sum = y.add(t3).add(t5);
    proof {
        assert(0 <= sum.v() <= 0x2_0000);
    }
    Fx { raw: -(sum.raw + sum.raw) }
}

/// Exec twin of `fx_ln_unit`.
pub fn fx_ln_unit_exec(u: Fx) -> (r: Fx)
    requires
        1 <= u.v() <= SCALE as int,
    ensures
        r.v() == fx_ln_unit(u.v()),
        -(30 * SCALE as int) <= r.v() <= 0,
    decreases SCALE as int - u.v(),
{
    if u.raw > SCALE / 2 {
        fx_ln_frac_exec(u)
    } else {
        let inner = fx_ln_unit_exec(Fx { raw: 2 * u.raw });
        let w = inner.raw - LN2;
        if w < -(30 * SCALE) {
            Fx { raw: -(30 * SCALE) }
        } else {
            Fx { raw: w }
        }
    }
}

} // verus!
