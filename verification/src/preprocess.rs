//! The region preprocessor: crop the subtitle band from a frame and zero
//! the low-intensity pixels that would otherwise be misread.

use crate::frame::{Frame, Region};
use vstd::arithmetic::div_mod::lemma_div_nonincreasing;
use vstd::prelude::*;

verus! {

/// What thresholding does to one pixel: values above the brightness cutoff
/// pass through, the rest become black.
pub open spec fn threshold_pixel(v: u8, t: u8) -> u8 {
    if v > t {
        v
    } else {
        0
    }
}

/// The height of the cropped band: the frame height times the crop fraction
/// `1 / crop_divisor`, truncated.
pub open spec fn region_height(height: int, crop_divisor: int) -> int {
    height / crop_divisor
}

/// Crop the bottom `1 / crop_divisor` of the frame and apply the brightness
/// threshold: each kept pixel is the frame's pixel if it exceeds `threshold`,
/// else zero. A deterministic, pure transform; the region keeps the frame's
/// index, width and pixel format.
pub fn preprocess(frame: &Frame, crop_divisor: usize, threshold: u8) -> (r: Region)
    requires
        frame.wf(),
        crop_divisor >= 1,
    ensures
        r.wf(),
        r.index == frame.index,
        r.width == frame.width,
        r.pixel_format == frame.pixel_format,
        r.height == region_height(frame.height as int, crop_divisor as int),
        r.pixels@.len() == frame.width * region_height(frame.height as int, crop_divisor as int),
        forall|j: int|
            0 <= j < r.pixels@.len() ==> r.pixels@[j] == threshold_pixel(
                frame.pixels@[(frame.width as int) * (frame.height - r.height as int) + j],
                threshold,
            ),
{
    let band_height: usize = frame.height / crop_divisor;
    let total: usize = frame.pixels.len();
    proof {
        lemma_div_nonincreasing(frame.height as int, crop_divisor as int);
        assert((frame.width as int) * (frame.height - band_height as int) + (frame.width as int)
            * (band_height as int) == (frame.width as int) * (frame.height as int))
            by (nonlinear_arith);
        assert((frame.width as int) * (frame.height - band_height as int) >= 0)
            by (nonlinear_arith)
            requires
                band_height <= frame.height,
        ;
        assert((frame.width as int) * (band_height as int) >= 0) by (nonlinear_arith);
    }
    let offset: usize = frame.width * (frame.height - band_height);
    let count: usize = frame.width * band_height;
    let mut pixels: Vec<u8> = Vec::new();
    let mut j: usize = 0;
    while j < count
        invariant
            offset + count == total,
            total == frame.pixels@.len(),
            j <= count,
            pixels@.len() == j,
            forall|k: int|
                0 <= k < j ==> pixels@[k] == threshold_pixel(
                    frame.pixels@[offset + k],
                    threshold,
                ),
        decreases count - j,
    {
        let v: u8 = frame.pixels[offset + j];
        if v > threshold {
            pixels.push(v);
        } else {
            pixels.push(0);
        }
        j += 1;
    }
    Region {
        index: frame.index,
        width: frame.width,
        height: band_height,
        pixel_format: frame.pixel_format,
        pixels,
    }
}

} // verus!
