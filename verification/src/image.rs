//! The finished raster: a grid of pixels ready for an encoder.

use vstd::prelude::*;
use crate::fx::{Fx, iabs};
use crate::vec::Pixel;
use crate::utils::{map_rgb, map_rgb_of, RGB_TOP};
use crate::camera::cam_img_h;
use crate::texture::TexError;

verus! {

/// A height-by-width grid of pixels, row major.
#[derive(Clone, PartialEq, Eq, Debug)]
pub struct Image {
    pub width: u32,
    pub height: u32,
    pub pixels: Vec<Vec<Pixel>>,
}

pub open spec fn image_wf(im: Image) -> bool {
    &&& im.pixels@.len() == im.height
    &&& forall|j: int| 0 <= j < im.pixels@.len()
        ==> (#[trigger] im.pixels@[j])@.len() == im.width
}

impl Image {
    /// Map an intensity into the output range (the display transfer).
    pub fn map_to_rgb_space(val: Fx) -> (r: Fx)
        requires
            iabs(val.v()) <= 0x1000_0000_0000,
        ensures
            r.v() == map_rgb_of(val.v()),
            0 <= r.v() <= RGB_TOP as int,
    {
        map_rgb(val)
    }

    /// Output height for a width and an aspect ratio given as a fraction.
    pub fn compute_height(w: u32, ar_num: u32, ar_den: u32) -> (r: u32)
        requires
            1 <= w <= 16384,
            1 <= ar_num <= 0x10_0000,
            1 <= ar_den <= 0x10_0000,
        ensures
            r as int == cam_img_h(w as int, ar_num as int, ar_den as int),
            1 <= r <= 16384,
    {
        proof {
            crate::fx::lemma_mul_bound(w as int, ar_den as int, 16384, 0x10_0000);
            assert(0 <= w as int * ar_den as int / (ar_num as int)) by (nonlinear_arith)
                requires
                    1 <= w,
                    1 <= ar_den,
                    1 <= ar_num,
            ;
        }
        let h0: u64 = (w as u64) * (ar_den as u64) / (ar_num as u64);
        if h0 < 1 {
            1
        } else if h0 > 16384 {
            16384
        } else {
            h0 as u32
        }
    }

    /// Wrap a pixel grid; rejected when the rows do not match the declared
    /// dimensions.
    pub fn new(width: u32, height: u32, pixels: Vec<Vec<Pixel>>) -> (r: Result<Image, TexError>)
        ensures
            match r {
                Ok(im) => im.width == width && im.height == height && im.pixels@ == pixels@
                    && image_wf(im),
                Err(e) => e == TexError::BadDimensions && (pixels@.len() != height
                    || exists|j: int| 0 <= j < pixels@.len()
                        && (#[trigger] pixels@[j])@.len() != width),
            },
    {
        if pixels.len() != height as usize {
            return Err(TexError::BadDimensions);
        }
        let mut j: usize = 0;
        while j < pixels.len()
            invariant
                j <= pixels@.len(),
                forall|k: int| 0 <= k < j ==> (#[trigger] pixels@[k])@.len() == width,
            decreases pixels@.len() - j,
        {
            if pixels[j].len() != width as usize {
                return Err(TexError::BadDimensions);
            }
            j = j + 1;
        }
        Ok(Image { width, height, pixels })
    }
}

} // verus!
