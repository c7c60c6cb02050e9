//! Closed scalar ranges used for ray-parameter windows and box extents.

use vstd::prelude::*;
use crate::fx::{Fx, ok64, T_LIMIT};

verus! {

#[derive(Clone, Copy, PartialEq, Eq, Structural, Debug)]
pub struct Interval {
    pub min: Fx,
    pub max: Fx,
}

impl Interval {
    pub fn new(min: Fx, max: Fx) -> (r: Interval)
        ensures
            r.min == min,
            r.max == max,
    {
        Interval { min, max }
    }

    /// The empty range, the identity for `union`.
    pub fn empty() -> (r: Interval)
        ensures
            r.min.v() == T_LIMIT as int,
            r.max.v() == -(T_LIMIT as int),
    {
        Interval { min: Fx { raw: T_LIMIT }, max: Fx { raw: -T_LIMIT } }
    }

    pub fn unit() -> (r: Interval)
        ensures
            r.min.v() == 0,
            r.max.v() == crate::fx::SCALE as int,
    {
        Interval { min: Fx::zero(), max: Fx::one() }
    }

    /// The widest range any ray query uses; `T_LIMIT` stands in for infinity.
    pub fn universe() -> (r: Interval)
        ensures
            r.min.v() == -(T_LIMIT as int),
            r.max.v() == T_LIMIT as int,
    {
        Interval { min: Fx { raw: -T_LIMIT }, max: Fx { raw: T_LIMIT } }
    }

    /// Widen by half of `delta` on each side.
    pub fn expand(self, delta: Fx) -> (r: Interval)
        requires
            0 <= delta.v(),
            ok64(self.min.v() - delta.v()),
            ok64(self.max.v() + delta.v()),
        ensures
            r.min.v() == self.min.v() - delta.v() / 2,
            r.max.v() == self.max.v() + delta.v() / 2,
    {
        let padding = Fx { raw: (delta.raw as u64 / 2) as i64 };
        Interval { min: self.min.sub(padding), max: self.max.add(padding) }
    }

    /// Smallest range containing both arguments.
    pub fn union(a: &Interval, b: &Interval) -> (r: Interval)
        ensures
            r.min.v() == if a.min.v() <= b.min.v() { a.min.v() } else { b.min.v() },
            r.max.v() == if a.max.v() >= b.max.v() { a.max.v() } else { b.max.v() },
    {
        Interval { min: a.min.min(b.min), max: a.max.max(b.max) }
    }

    pub fn size(&self) -> (r: Fx)
        requires
            ok64(self.max.v() - self.min.v()),
        ensures
            r.v() == self.max.v() - self.min.v(),
    {
        self.max.sub(self.min)
    }

    pub fn contains(&self, x: Fx) -> (r: bool)
        ensures
            r == (self.min.v() <= x.v() <= self.max.v()),
    {
        self.min.le(x) && x.le(self.max)
    }

    pub fn surrounds(&self, x: Fx) -> (r: bool)
        ensures
            r == (self.min.v() < x.v() < self.max.v()),
    {
        self.min.lt(x) && x.lt(self.max)
    }

    pub fn clamp(&self, x: Fx) -> (r: Fx)
        ensures
            r.v() == clamp_to(self.min.v(), self.max.v(), x.v()),
    {
        x.min(self.max).max(self.min)
    }

    /// Translate both endpoints.
    pub fn shift(self, d: Fx) -> (r: Interval)
        requires
            ok64(self.min.v() + d.v()),
            ok64(self.max.v() + d.v()),
        ensures
            r.min.v() == self.min.v() + d.v(),
            r.max.v() == self.max.v() + d.v(),
    {
        Interval { min: self.min.add(d), max: self.max.add(d) }
    }
}

/// `x` moved to the nearest value of `[min, max]` (with `max` taking
/// precedence, as the clamp is applied upper bound first).
pub open spec fn clamp_to(min: int, max: int, x: int) -> int {
    let capped = if x <= max { x } else { max };
    if capped >= min { capped } else { min }
}

} // verus!
