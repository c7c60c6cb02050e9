//! Small display-mapping helpers.

use vstd::prelude::*;
use crate::fx::{Fx, fx_mul, fx_sqrt, iabs, SCALE};
use crate::vec::lemma_fx_mul_le;
use crate::interval::clamp_to;

verus! {

/// Top of the output range: 255.99 intensity steps on the raw grid.
pub const RGB_TOP: i64 = 16776561;

/// Linear interpolation `(1 - t) * start + t * end` on the fixed-point grid.
pub fn lerp(start: Fx, end: Fx, t: Fx) -> (r: Fx)
    requires
        iabs(start.v()) <= 0x1_0000_0000,
        iabs(end.v()) <= 0x1_0000_0000,
        0 <= t.v() <= SCALE as int,
    ensures
        r.v() == fx_mul(SCALE as int - t.v(), start.v()) + fx_mul(end.v(), t.v()),
{
    proof {
        lemma_fx_mul_le(SCALE as int - t.v(), start.v(), SCALE as int, 0x1_0000_0000);
        lemma_fx_mul_le(end.v(), t.v(), 0x1_0000_0000, SCALE as int);
    }
    Fx::one().sub(t).mul(start).add(end.mul(t))
}

/// Gamma correction with the square-root response; negative input is black.
pub fn linear_to_gamma(val: Fx) -> (r: Fx)
    ensures
        r.v() == gamma_of(val.v()),
        0 <= r.v(),
        val.v() <= 0x100_0000_0000 ==> r.v() <= 0x2000_0000,
{
    if val.raw <= 0 {
        Fx::zero()
    } else {
        let r = val.sqrt();
        proof {
            if val.v() <= 0x100_0000_0000 {
                crate::fx::lemma_isqrt_bound(val.v() * crate::fx::SCALE as int, r.v(),
                    0x2000_0000);
            }
        }
        r
    }
}

pub open spec fn gamma_of(v: int) -> int {
    if v <= 0 {
        0
    } else {
        fx_sqrt(v)
    }
}

/// Map an intensity in [0, 1] into the output range, clamping.
pub fn map_rgb(val: Fx) -> (r: Fx)
    requires
        iabs(val.v()) <= 0x1000_0000_0000,
    ensures
        r.v() == map_rgb_of(val.v()),
        0 <= r.v() <= RGB_TOP as int,
{
    proof {
        lemma_fx_mul_le(val.v(), RGB_TOP as int, 0x1000_0000_0000, RGB_TOP as int);
    }
    let scaled = val.mul(Fx { raw: RGB_TOP });
    let capped = scaled.min(Fx { raw: RGB_TOP });
    capped.max(Fx::zero())
}

pub open spec fn map_rgb_of(v: int) -> int {
    clamp_to(0, RGB_TOP as int, fx_mul(v, RGB_TOP as int))
}

/// The output byte of a mapped intensity: its whole-unit part.
pub fn rgb_byte(val: Fx) -> (r: u8)
    requires
        0 <= val.v() <= RGB_TOP as int,
    ensures
        r as int == val.v() / SCALE as int,
{
    proof {
        assert(val.v() / SCALE as int <= RGB_TOP as int / SCALE as int) by (nonlinear_arith)
            requires
                0 <= val.v() <= RGB_TOP as int,
        ;
    }
    ((val.raw as u64) / 65536) as u8
}

} // verus!
