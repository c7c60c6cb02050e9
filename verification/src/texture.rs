//! Texture lookup: maps a hit's surface coordinate (and point) to a color.

use vstd::prelude::*;
use crate::fx::{Fx, fx_mul, iabs, SCALE};
use crate::vec::{Vec3, Color, Point, V3i, v3_bounded, v3_add, v3_scale, lemma_fx_mul_le};

verus! {

/// Largest component a color or albedo may have (four units of intensity).
pub const COLOR_LIMIT: i64 = 0x4_0000;

#[derive(Clone, Copy, PartialEq, Eq, Structural, Debug)]
pub struct SolidTex {
    pub albedo: Color,
}

impl SolidTex {
    pub fn new(color: Color) -> (r: SolidTex)
        ensures
            r.albedo == color,
    {
        SolidTex { albedo: color }
    }

    pub fn red() -> (r: SolidTex)
        ensures
            r.albedo@ == (V3i { x: SCALE as int, y: 0, z: 0 }),
    {
        SolidTex { albedo: Vec3::red() }
    }

    pub fn green() -> (r: SolidTex)
        ensures
            r.albedo@ == (V3i { x: 0, y: SCALE as int, z: 0 }),
    {
        SolidTex { albedo: Vec3::green() }
    }

    pub fn blue() -> (r: SolidTex)
        ensures
            r.albedo@ == (V3i { x: 0, y: 0, z: SCALE as int }),
    {
        SolidTex { albedo: Vec3::blue() }
    }

    pub fn white() -> (r: SolidTex)
        ensures
            r.albedo@ == (V3i { x: SCALE as int, y: SCALE as int, z: SCALE as int }),
    {
        SolidTex { albedo: Vec3::white() }
    }
}

#[derive(Clone, Copy, PartialEq, Eq, Structural, Debug)]
pub struct CheckerTex {
    pub even: SolidTex,
    pub odd: SolidTex,
    pub scale: Fx,
}

impl CheckerTex {
    pub fn new(c1: Color, c2: Color, scale: Fx) -> (r: CheckerTex)
        ensures
            r.even.albedo == c1,
            r.odd.albedo == c2,
            r.scale == scale,
    {
        CheckerTex { even: SolidTex::new(c1), odd: SolidTex::new(c2), scale }
    }
}

#[derive(Clone, Copy, PartialEq, Eq, Structural, Debug)]
pub enum Orientation {
    Vertical,
    Horizontal,
}

#[derive(Clone, Copy, PartialEq, Eq, Structural, Debug)]
pub struct StripeTex {
    pub even: SolidTex,
    pub odd: SolidTex,
    pub scale: Fx,
    pub orientation: Orientation,
}

impl StripeTex {
    pub fn new(c1: Color, c2: Color, scale: Fx, orientation: Orientation) -> (r: StripeTex)
        ensures
            r.even.albedo == c1,
            r.odd.albedo == c2,
            r.scale == scale,
            r.orientation == orientation,
    {
        StripeTex { even: SolidTex::new(c1), odd: SolidTex::new(c2), scale, orientation }
    }
}

#[derive(Clone, Copy, PartialEq, Eq, Structural, Debug)]
pub struct UVTex {
    pub color_u: SolidTex,
    pub color_v: SolidTex,
}

impl UVTex {
    pub fn new() -> (r: UVTex)
        ensures
            r.color_u.albedo@ == (V3i { x: SCALE as int, y: 0, z: 0 }),
            r.color_v.albedo@ == (V3i { x: 0, y: SCALE as int, z: 0 }),
    {
        UVTex { color_u: SolidTex::red(), color_v: SolidTex::green() }
    }
}

/// A raster texture: `width * height` pixels of red, green and blue bytes in
/// row-major order, sampled by nearest lookup with the v axis flipped.
#[derive(Clone, PartialEq, Eq, Debug)]
pub struct ImageTex {
    pub width: u32,
    pub height: u32,
    pub data: Vec<u8>,
}

/// Why a raster texture was rejected.
#[derive(Clone, Copy, PartialEq, Eq, Structural, Debug)]
pub enum TexError {
    BadDimensions,
}

/// Raster dimensions the lookup accepts.
pub open spec fn img_dims_ok(width: int, height: int, len: int) -> bool {
    1 <= width <= 4096 && 1 <= height <= 4096 && len == 3 * width * height
}

impl ImageTex {
    /// Wrap decoded pixel bytes. Accepts exactly the grids whose byte count
    /// matches their dimensions (three bytes per pixel), within the supported
    /// size; decoding a file into such bytes is the caller's business.
    pub fn new(width: u32, height: u32, data: Vec<u8>) -> (r: Result<ImageTex, TexError>)
        ensures
            match r {
                Ok(t) => img_dims_ok(width as int, height as int, data@.len() as int)
                    && t.width == width && t.height == height && t.data@ == data@,
                Err(e) => !img_dims_ok(width as int, height as int, data@.len() as int)
                    && e == TexError::BadDimensions,
            },
    {
        if width >= 1 && width <= 4096 && height >= 1 && height <= 4096 {
            proof {
                assert(0 <= 3 * (width as int) * (height as int) <= 0x300_0000)
                    by (nonlinear_arith)
                    requires
                        1 <= width <= 4096,
                        1 <= height <= 4096,
                ;
            }
            if data.len() == 3 * (width as usize) * (height as usize) {
                Ok(ImageTex { width, height, data })
            } else {
                Err(TexError::BadDimensions)
            }
        } else {
            Err(TexError::BadDimensions)
        }
    }
}

/// The texture capability: a closed set of procedural and raster lookups.
#[derive(Clone, PartialEq, Eq, Debug)]
pub enum Texture {
    Solid(SolidTex),
    Checker(CheckerTex),
    Stripe(StripeTex),
    Uv(UVTex),
    Img(ImageTex),
}

/// Bounds every lookup relies on: colors within `COLOR_LIMIT`, a
/// non-negative, modest pattern scale, a plausible raster.
pub open spec fn tex_wf(t: Texture) -> bool {
    match t {
        Texture::Solid(s) => v3_bounded(s.albedo@, COLOR_LIMIT as int),
        Texture::Checker(c) => v3_bounded(c.even.albedo@, COLOR_LIMIT as int)
            && v3_bounded(c.odd.albedo@, COLOR_LIMIT as int)
            && 0 <= c.scale.v() <= 0x1000_0000,
        Texture::Stripe(s) => v3_bounded(s.even.albedo@, COLOR_LIMIT as int)
            && v3_bounded(s.odd.albedo@, COLOR_LIMIT as int)
            && 0 <= s.scale.v() <= 0x1000_0000,
        Texture::Uv(u) => v3_bounded(u.color_u.albedo@, 0x2_0000)
            && v3_bounded(u.color_v.albedo@, 0x2_0000),
        Texture::Img(i) => img_dims_ok(i.width as int, i.height as int, i.data@.len() as int),
    }
}

/// Which square of the checker pattern the coordinate falls in.
pub open spec fn pat_index(u: int, sc: int) -> int {
    fx_mul(u, sc) / SCALE as int
}

/// One byte channel mapped into fixed-point intensity.
pub open spec fn byte_to_fx(b: int) -> int {
    b * SCALE as int / 255
}

/// Nearest-pixel index for a coordinate in [0, 1] over `n` texels.
pub open spec fn tex_index(u: int, n: int) -> int {
    u * (n - 1) / SCALE as int
}

/// The color `value` returns, as a function of the texture, the surface
/// coordinate and the hit point.
pub open spec fn tex_value(t: Texture, u: int, v: int, p: V3i) -> V3i {
    match t {
        Texture::Solid(s) => s.albedo@,
        Texture::Checker(c) => if (pat_index(u, c.scale.v()) + pat_index(v, c.scale.v())) % 2
            == 0 {
            c.even.albedo@
        } else {
            c.odd.albedo@
        },
        Texture::Stripe(s) => {
            let k = match s.orientation {
                Orientation::Vertical => pat_index(u, s.scale.v()),
                Orientation::Horizontal => pat_index(v, s.scale.v()),
            };
            if k % 2 == 0 {
                s.even.albedo@
            } else {
                s.odd.albedo@
            }
        },
        Texture::Uv(t) => v3_add(v3_scale(t.color_u.albedo@, u), v3_scale(t.color_v.albedo@, v)),
        Texture::Img(i) => {
            let col = tex_index(u, i.width as int);
            let row = tex_index(SCALE as int - v, i.height as int);
            let base = 3 * (row * i.width as int + col);
            V3i {
                x: byte_to_fx(i.data@[base] as int),
                y: byte_to_fx(i.data@[base + 1] as int),
                z: byte_to_fx(i.data@[base + 2] as int),
            }
        },
    }
}

impl Texture {
    /// Look the texture up at a surface coordinate in [0, 1] x [0, 1].
    pub fn value(&self, uv: (Fx, Fx), p: &Point) -> (r: Color)
        requires
            tex_wf(*self),
            0 <= uv.0.v() <= SCALE as int,
            0 <= uv.1.v() <= SCALE as int,
        ensures
            r@ == tex_value(*self, uv.0.v(), uv.1.v(), p@),
            v3_bounded(r@, COLOR_LIMIT as int),
    {
        match self {
            Texture::Solid(s) => s.albedo,
            Texture::Checker(c) => {
                let su = pat_index_exec(uv.0, c.scale);
                let sv = pat_index_exec(uv.1, c.scale);
                if (su + sv) % 2 == 0 {
                    c.even.albedo
                } else {
                    c.odd.albedo
                }
            },
            Texture::Stripe(s) => {
                let k = match s.orientation {
                    Orientation::Vertical => pat_index_exec(uv.0, s.scale),
                    Orientation::Horizontal => pat_index_exec(uv.1, s.scale),
                };
                if k % 2 == 0 {
                    s.even.albedo
                } else {
                    s.odd.albedo
                }
            },
            Texture::Uv(t) => {
                proof {
                    lemma_fx_mul_le(t.color_u.albedo@.x, uv.0.v(), 0x2_0000, SCALE as int);
                    lemma_fx_mul_le(t.color_u.albedo@.y, uv.0.v(), 0x2_0000, SCALE as int);
                    lemma_fx_mul_le(t.color_u.albedo@.z, uv.0.v(), 0x2_0000, SCALE as int);
                    lemma_fx_mul_le(t.color_v.albedo@.x, uv.1.v(), 0x2_0000, SCALE as int);
                    lemma_fx_mul_le(t.color_v.albedo@.y, uv.1.v(), 0x2_0000, SCALE as int);
                    lemma_fx_mul_le(t.color_v.albedo@.z, uv.1.v(), 0x2_0000, SCALE as int);
                }
                t.color_u.albedo.scale(uv.0).add(t.color_v.albedo.scale(uv.1))
            },
            Texture::Img(i) => {
                let col = tex_index_exec(uv.0, i.width);
                let flip = Fx { raw: SCALE - uv.1.raw };
                let row = tex_index_exec(flip, i.height);
                proof {
                    assert(row as int * i.width as int + col as int
                        <= (i.height as int - 1) * i.width as int + (i.width as int - 1))
                        by (nonlinear_arith)
                        requires
                            row as int <= i.height as int - 1,
                            col as int <= i.width as int - 1,
                            i.width >= 1,
                    ;
                    assert((i.height as int - 1) * i.width as int + (i.width as int - 1)
                        < i.height as int * i.width as int) by (nonlinear_arith)
                        requires
                            i.width >= 1,
                            i.height >= 1,
                    ;
                    assert(3 * (i.height as int * i.width as int)
                        == 3 * i.width as int * i.height as int) by (nonlinear_arith);
                    assert(0 <= row as int * i.width as int <= 4095 * 4096)
                        by (nonlinear_arith)
                        requires
                            0 <= row as int <= 4095,
                            1 <= i.width <= 4096,
                    ;
                }
                let base = 3 * ((row as usize) * (i.width as usize) + (col as usize));
                Vec3 {
                    x: byte_to_fx_exec(i.data[base]),
                    y: byte_to_fx_exec(i.data[base + 1]),
                    z: byte_to_fx_exec(i.data[base + 2]),
                }
            },
        }
    }
}

/// Which pattern square a coordinate falls in.
fn pat_index_exec(u: Fx, sc: Fx) -> (r: u64)
    requires
        0 <= u.v() <= SCALE as int,
        0 <= sc.v() <= 0x1000_0000,
    ensures
        r as int == pat_index(u.v(), sc.v()),
        r <= 0x1000_0000,
{
    let p: i128 = crate::fx::mul_then_tdiv(u.raw, sc.raw);
    proof {
        assert(0 <= u.v() * sc.v() <= 0x1000_0000 * SCALE as int) by (nonlinear_arith)
            requires
                0 <= u.v() <= SCALE as int,
                0 <= sc.v() <= 0x1000_0000,
        ;
        crate::fx::lemma_tdiv_bound(u.v() * sc.v(), SCALE as int);
        assert(iabs(u.v() * sc.v()) / (SCALE as int) <= 0x1000_0000) by (nonlinear_arith)
            requires
                0 <= u.v() * sc.v() <= 0x1000_0000 * SCALE as int,
        ;
    }
    let q: u128 = (p as u128) / 65536;
    q as u64
}

/// Nearest texel for a coordinate in [0, 1] over `n` texels.
fn tex_index_exec(u: Fx, n: u32) -> (r: u32)
    requires
        0 <= u.v() <= SCALE as int,
        1 <= n <= 4096,
    ensures
        r as int == tex_index(u.v(), n as int),
        r < n,
{
    proof {
        assert(u.v() * (n as int - 1) <= SCALE as int * (n as int - 1)
            && 0 <= u.v() * (n as int - 1) && SCALE as int * (n as int - 1) <= 0x1000_0000)
            by (nonlinear_arith)
            requires
                0 <= u.v() <= SCALE as int,
                1 <= n <= 4096,
        ;
    }
    let p: u64 = (u.raw as u64) * ((n - 1) as u64);
    proof {
        assert(SCALE as int * (n as int - 1) / SCALE as int == n as int - 1);
        assert(u.v() * (n as int - 1) / SCALE as int <= SCALE as int * (n as int - 1)
            / SCALE as int) by (nonlinear_arith)
            requires
                0 <= u.v() * (n as int - 1) <= SCALE as int * (n as int - 1),
        ;
    }
    (p / 65536) as u32
}

/// One byte channel mapped into fixed-point intensity.
fn byte_to_fx_exec(b: u8) -> (r: Fx)
    ensures
        r.v() == byte_to_fx(b as int),
        0 <= r.v() <= SCALE as int,
{
    Fx { raw: ((b as u64) * 65536 / 255) as i64 }
}

} // verus!
