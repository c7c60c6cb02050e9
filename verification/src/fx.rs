//! Fixed-point scalar arithmetic.
//!
//! A scalar holds `raw` sixty-fourths-of-a-world-unit... more precisely,
//! `raw / SCALE` world units, with `SCALE = 2^16`. Every operation states its
//! exact integer result, so all geometry built on top of it is deterministic
//! and its contracts can pin results down to the unit in the last place.

use vstd::prelude::*;

verus! {

/// Raw units per world unit.
pub const SCALE: i64 = 65536;

/// Largest raw magnitude a scene coordinate may have (2^31 raw units,
/// i.e. 32768 world units). Keeping coordinates inside this bound lets every
/// intermediate product of the intersection routines fit in 128 bits.
pub const COORD_LIMIT: i64 = 0x8000_0000;

/// Raw value standing in for "plus infinity" in ray-parameter ranges.
pub const T_LIMIT: i64 = 0x4000_0000_0000_0000;

/// Magnitude of an integer.
pub open spec fn iabs(x: int) -> int {
    if x < 0 { -x } else { x }
}

/// Quotient of `n / d` truncated toward zero, the rounding used by all
/// fixed-point operations.
pub open spec fn tdiv(n: int, d: int) -> int
    recommends d != 0,
{
    let q = iabs(n) / iabs(d);
    if (n >= 0) == (d >= 0) { q } else { -q }
}

/// Exact raw result of a fixed-point multiplication.
pub open spec fn fx_mul(a: int, b: int) -> int {
    tdiv(a * b, SCALE as int)
}

/// Exact raw result of a fixed-point division.
pub open spec fn fx_div(a: int, b: int) -> int
    recommends b != 0,
{
    tdiv(a * (SCALE as int), b)
}

/// The value fits in an `i64`.
pub open spec fn ok64(x: int) -> bool {
    i64::MIN <= x <= i64::MAX
}

/// `r` is the integer square root of `n`.
pub open spec fn is_isqrt(n: int, r: int) -> bool {
    0 <= r && r * r <= n && n < (r + 1) * (r + 1)
}

/// The integer square root as a function.
pub open spec fn isqrt_s(n: int) -> int {
    choose|r: int| is_isqrt(n, r)
}

/// Raw result of a fixed-point square root.
pub open spec fn fx_sqrt(x: int) -> int {
    isqrt_s(x * SCALE as int)
}

/// An integer square root of a number below `m * m` is below `m`.
pub proof fn lemma_isqrt_bound(n: int, r: int, m: int)
    requires
        is_isqrt(n, r),
        0 <= m,
        n < m * m,
    ensures
        r < m,
{
    assert(r < m) by (nonlinear_arith)
        requires
            is_isqrt(n, r),
            0 <= m,
            n < m * m,
    ;
}

/// Integer square roots are unique, so a witness pins down `isqrt_s`.
pub proof fn lemma_isqrt_unique(n: int, r: int)
    requires
        is_isqrt(n, r),
    ensures
        isqrt_s(n) == r,
{
    let r2 = isqrt_s(n);
    assert(is_isqrt(n, r2));
    assert(r == r2) by (nonlinear_arith)
        requires
            is_isqrt(n, r),
            is_isqrt(n, r2),
    ;
}

pub proof fn lemma_mul_bound(a: int, b: int, m: int, n: int)
    requires
        -m <= a <= m,
        -n <= b <= n,
    ensures
        -(m * n) <= a * b <= m * n,
{
    assert(-(m * n) <= a * b <= m * n) by (nonlinear_arith)
        requires
            -m <= a <= m,
            -n <= b <= n,
    ;
}

/// Truncated division shrinks magnitudes: `|n / d| <= |n|` for `d != 0`.
pub proof fn lemma_tdiv_bound(n: int, d: int)
    requires
        d != 0,
    ensures
        iabs(tdiv(n, d)) <= iabs(n),
        iabs(d) > 1 ==> iabs(tdiv(n, d)) <= iabs(n) / iabs(d),
{
    let nn = iabs(n);
    let dd = iabs(d);
    assert(nn / dd <= nn && (dd > 1 ==> nn / dd <= nn / dd)) by (nonlinear_arith)
        requires
            nn >= 0,
            dd >= 1,
    ;
}

/// Truncated division is exact to within one divisor: `tdiv(n, d) * d` is
/// strictly within `d` of `n`.
pub proof fn lemma_tdiv_close(n: int, d: int)
    requires
        d > 0,
    ensures
        tdiv(n, d) * d - d < n < tdiv(n, d) * d + d,
{
    let a = iabs(n);
    let qq = a / d;
    let rem = a % d;
    vstd::arithmetic::div_mod::lemma_fundamental_div_mod(a, d);
    assert(0 <= rem < d) by (nonlinear_arith)
        requires
            a >= 0,
            d > 0,
            rem == a % d,
    ;
    if n >= 0 {
        assert(tdiv(n, d) * d - d < n < tdiv(n, d) * d + d) by (nonlinear_arith)
            requires
                tdiv(n, d) == qq,
                n == d * qq + rem,
                0 <= rem < d,
        ;
    } else {
        assert(tdiv(n, d) * d - d < n < tdiv(n, d) * d + d) by (nonlinear_arith)
            requires
                tdiv(n, d) == -qq,
                -n == d * qq + rem,
                0 <= rem < d,
        ;
    }
}

/// Division is exact on multiples of the divisor.
pub proof fn lemma_tdiv_exact(k: int, d: int)
    requires
        d > 0,
    ensures
        tdiv(k * d, d) == k,
{
    if k >= 0 {
        assert(iabs(k * d) == k * d && (k * d) / d == k) by (nonlinear_arith)
            requires
                d > 0,
                k >= 0,
        ;
    } else {
        assert(iabs(k * d) == -(k * d) && (-(k * d)) / d == -k) by (nonlinear_arith)
            requires
                d > 0,
                k < 0,
        ;
    }
}

/// A fixed-point scalar.
#[derive(Clone, Copy, PartialEq, Eq, Structural, Debug)]
pub struct Fx {
    pub raw: i64,
}

impl Fx {
    /// Mathematical raw value, the unit of every contract in the crate.
    pub open spec fn v(self) -> int {
        self.raw as int
    }

    pub fn new(raw: i64) -> (r: Fx)
        ensures
            r.v() == raw as int,
    {
        Fx { raw }
    }

    pub fn zero() -> (r: Fx)
        ensures
            r.v() == 0,
    {
        Fx { raw: 0 }
    }

    pub fn one() -> (r: Fx)
        ensures
            r.v() == SCALE as int,
    {
        Fx { raw: SCALE }
    }

    /// A whole number of world units.
    pub fn from_units(i: i32) -> (r: Fx)
        ensures
            r.v() == i as int * SCALE as int,
    {
        proof {
            lemma_mul_bound(i as int, SCALE as int, 0x8000_0000, SCALE as int);
        }
        Fx { raw: i as i64 * SCALE }
    }

    pub fn add(self, o: Fx) -> (r: Fx)
        requires
            ok64(self.v() + o.v()),
        ensures
            r.v() == self.v() + o.v(),
    {
        Fx { raw: self.raw + o.raw }
    }

    pub fn sub(self, o: Fx) -> (r: Fx)
        requires
            ok64(self.v() - o.v()),
        ensures
            r.v() == self.v() - o.v(),
    {
        Fx { raw: self.raw - o.raw }
    }

    pub fn neg(self) -> (r: Fx)
        requires
            self.v() != i64::MIN as int,
        ensures
            r.v() == -self.v(),
    {
        Fx { raw: -self.raw }
    }

    pub fn abs(self) -> (r: Fx)
        requires
            self.v() != i64::MIN as int,
        ensures
            r.v() == iabs(self.v()),
    {
        if self.raw < 0 { Fx { raw: -self.raw } } else { self }
    }

    pub fn min(self, o: Fx) -> (r: Fx)
        ensures
            r.v() == if self.v() <= o.v() { self.v() } else { o.v() },
    {
        if self.raw <= o.raw { self } else { o }
    }

    pub fn max(self, o: Fx) -> (r: Fx)
        ensures
            r.v() == if self.v() >= o.v() { self.v() } else { o.v() },
    {
        if self.raw >= o.raw { self } else { o }
    }

    pub fn lt(self, o: Fx) -> (r: bool)
        ensures
            r == (self.v() < o.v()),
    {
        self.raw < o.raw
    }

    pub fn le(self, o: Fx) -> (r: bool)
        ensures
            r == (self.v() <= o.v()),
    {
        self.raw <= o.raw
    }

    pub fn mul(self, o: Fx) -> (r: Fx)
        requires
            ok64(fx_mul(self.v(), o.v())),
        ensures
            r.v() == fx_mul(self.v(), o.v()),
    {
        proof {
            lemma_mul_bound(self.v(), o.v(), 0x8000_0000_0000_0000, 0x8000_0000_0000_0000);
        }
        let p: i128 = (self.raw as i128) * (o.raw as i128);
        let q = tdiv128(p, SCALE as i128);
        proof {
            lemma_tdiv_bound(p as int, SCALE as int);
        }
        Fx { raw: q as i64 }
    }

    pub fn div(self, o: Fx) -> (r: Fx)
        requires
            o.v() != 0,
            ok64(fx_div(self.v(), o.v())),
        ensures
            r.v() == fx_div(self.v(), o.v()),
    {
        proof {
            lemma_mul_bound(self.v(), SCALE as int, 0x8000_0000_0000_0000, SCALE as int);
        }
        let p: i128 = (self.raw as i128) * (SCALE as i128);
        let q = tdiv128(p, o.raw as i128);
        proof {
            lemma_tdiv_bound(p as int, o.v());
        }
        Fx { raw: q as i64 }
    }

    /// Square root, truncated to the raw grid: the result is the integer
    /// square root of `raw * SCALE`, so perfect squares of whole scalars are
    /// exact.
    pub fn sqrt(self) -> (r: Fx)
        requires
            0 <= self.v(),
        ensures
            is_isqrt(self.v() * SCALE as int, r.v()),
            r.v() == fx_sqrt(self.v()),
    {
        proof {
            lemma_mul_bound(self.raw as int, SCALE as int, 0x8000_0000_0000_0000, 0x1_0000);
        }
        let n: u128 = (self.raw as u128) * (SCALE as u128);
        let r = isqrt128(n);
        proof {
            lemma_isqrt_unique(n as int, r as int);
        }
        Fx { raw: r as i64 }
    }
}

/// Multiplying both sides of an inequality by a positive factor keeps it.
pub proof fn lemma_mul_mono(a: int, b: int, d: int)
    requires
        a <= b,
        d >= 0,
    ensures
        d * a <= d * b,
{
    assert(d * a <= d * b) by (nonlinear_arith)
        requires
            a <= b,
            d >= 0,
    ;
}

/// Division rounding down, with the bounds that characterise it.
pub fn floor_div128(n: i128, d: i128) -> (r: i128)
    requires
        d > 0,
        -0x4000_0000_0000_0000_0000_0000_0000_0000 < n
            < 0x4000_0000_0000_0000_0000_0000_0000_0000,
        d < 0x4000_0000_0000_0000_0000_0000_0000_0000,
    ensures
        d * r <= n < d * (r + 1),
        iabs(r as int) <= iabs(n as int) + 1,
{
    if n >= 0 {
        let q: u128 = (n as u128) / (d as u128);
        proof {
            assert((n as int) / (d as int) <= n as int) by (nonlinear_arith)
                requires
                    n >= 0,
                    d > 0,
            ;
        }
        proof {
            vstd::arithmetic::div_mod::lemma_fundamental_div_mod(n as int, d as int);
            assert(d * ((n as int) / (d as int)) <= n < d * ((n as int) / (d as int) + 1))
                by (nonlinear_arith)
                requires
                    d > 0,
                    n >= 0,
                    n as int == d * ((n as int) / (d as int)) + (n as int) % (d as int),
                    0 <= (n as int) % (d as int) < d,
            ;
        }
        q as i128
    } else {
        let m: u128 = (-n) as u128;
        let q: u128 = m / (d as u128);
        let rem: u128 = m % (d as u128);
        proof {
            vstd::arithmetic::div_mod::lemma_fundamental_div_mod(m as int, d as int);
            assert(m as int == d * (m as int / d as int) + (m as int) % (d as int));
            assert((m as int) / (d as int) <= m as int) by (nonlinear_arith)
                requires
                    m >= 0,
                    d > 0,
            ;
        }
        if rem == 0 {
            let r = -(q as i128);
            proof {
                assert(d * r <= n < d * (r + 1)) by (nonlinear_arith)
                    requires
                        d > 0,
                        n < 0,
                        m == -n,
                        m as int == d * (q as int),
                        r == -(q as int),
                ;
            }
            r
        } else {
            let r = -(q as i128) - 1;
            proof {
                assert(d * r <= n < d * (r + 1)) by (nonlinear_arith)
                    requires
                        d > 0,
                        n < 0,
                        m == -n,
                        m as int == d * (q as int) + (rem as int),
                        0 < rem < d,
                        r == -(q as int) - 1,
                ;
            }
            r
        }
    }
}

/// Division rounding up.
pub fn ceil_div128(n: i128, d: i128) -> (r: i128)
    requires
        d > 0,
        -0x4000_0000_0000_0000_0000_0000_0000_0000 < n
            < 0x4000_0000_0000_0000_0000_0000_0000_0000,
        d < 0x4000_0000_0000_0000_0000_0000_0000_0000,
    ensures
        d * (r - 1) < n <= d * r,
        iabs(r as int) <= iabs(n as int) + 1,
{
    let f = floor_div128(-n, d);
    proof {
        assert(d * (-f - 1) < n <= d * (-f)) by (nonlinear_arith)
            requires
                d * f <= -n < d * (f + 1),
        ;
    }
    -f
}

/// Truncated 128-bit signed division.
pub fn tdiv128(n: i128, d: i128) -> (r: i128)
    requires
        d != 0,
        n != i128::MIN as int,
        d != i128::MIN as int,
    ensures
        r as int == tdiv(n as int, d as int),
        iabs(r as int) <= iabs(n as int),
{
    let nm: u128 = if n < 0 { (-n) as u128 } else { n as u128 };
    let dm: u128 = if d < 0 { (-d) as u128 } else { d as u128 };
    let q: u128 = nm / dm;
    proof {
        lemma_tdiv_bound(n as int, d as int);
        assert(q as int == iabs(n as int) / iabs(d as int));
    }
    if (n < 0) == (d < 0) {
        q as i128
    } else {
        -(q as i128)
    }
}

/// Raw fixed-point product kept at 128 bits, for callers that must test the
/// result against a range before narrowing it.
pub fn mul_then_tdiv(a: i64, b: i64) -> (r: i128)
    ensures
        r as int == fx_mul(a as int, b as int),
        iabs(r as int) <= iabs((a as int) * (b as int)),
{
    proof {
        lemma_mul_bound(a as int, b as int, 0x8000_0000_0000_0000, 0x8000_0000_0000_0000);
    }
    let p: i128 = (a as i128) * (b as i128);
    let r = tdiv128(p, SCALE as i128);
    proof {
        lemma_tdiv_bound(p as int, SCALE as int);
    }
    r
}

/// Integer square root by bisection.
pub fn isqrt128(n: u128) -> (r: u64)
    requires
        n < 0x100_0000_0000_0000_0000_0000_0000_0000,
    ensures
        is_isqrt(n as int, r as int),
        r < 0x1000_0000_0000_0000,
{
    let mut lo: u128 = 0;
    let mut hi: u128 = 0x1000_0000_0000_0000;
    proof {
        assert((0x1000_0000_0000_0000 as int) * (0x1000_0000_0000_0000 as int)
            == 0x100_0000_0000_0000_0000_0000_0000_0000);
    }
    while hi - lo > 1
        invariant
            0 <= lo < hi <= 0x1000_0000_0000_0000,
            lo * lo <= n,
            n < hi * hi,
        decreases hi - lo,
    {
        let mid = lo + (hi - lo) / 2;
        proof {
            assert(lo < mid < hi);
            lemma_mul_bound(mid as int, mid as int, 0x1000_0000_0000_0000, 0x1000_0000_0000_0000);
        }
        if mid * mid <= n {
            lo = mid;
        } else {
            hi = mid;
        }
    }
    proof {
        assert(hi == lo + 1);
    }
    lo as u64
}

} // verus!
