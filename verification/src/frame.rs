//! The data carried through the pipeline: frames, cropped regions, and
//! per-frame recognition results.

use vstd::prelude::*;

verus! {

/// The pixel layout of a frame's byte buffer. The core pipeline works on
/// single-byte-per-pixel grayscale frames.
#[derive(Clone, Copy, PartialEq, Eq, Structural)]
pub enum PixelFormat {
    Gray8,
}

/// One decoded, rescaled video image, tagged with its sequence index.
///
/// Frames are produced in strictly increasing index order and never mutated
/// after creation. `pixels` holds the rows top to bottom, one byte per pixel.
pub struct Frame {
    pub index: usize,
    pub width: usize,
    pub height: usize,
    pub pixel_format: PixelFormat,
    pub pixels: Vec<u8>,
}

impl Frame {
    /// The pixel buffer covers the full image exactly.
    pub open spec fn wf(&self) -> bool {
        self.pixels@.len() == self.width * self.height
    }
}

/// The cropped, thresholded sub-image believed to contain subtitle text,
/// still tagged with the index of the frame it came from.
pub struct Region {
    pub index: usize,
    pub width: usize,
    pub height: usize,
    pub pixel_format: PixelFormat,
    pub pixels: Vec<u8>,
}

impl Region {
    /// The pixel buffer covers the cropped band exactly.
    pub open spec fn wf(&self) -> bool {
        self.pixels@.len() == self.width * self.height
    }
}

/// The text recognized for one frame, keyed by that frame's index.
/// Produced once per frame, in arbitrary order across workers.
pub struct RecognitionResult {
    pub index: usize,
    pub text: String,
}

/// The configuration agreed at pipeline setup.
///
/// `crop_divisor` gives the crop fraction as its reciprocal: the band kept
/// for recognition is the bottom `1 / crop_divisor` of each frame.
/// `lang` selects the recognition language by its position in the list the
/// recognition service offers.
#[derive(Clone, Copy)]
pub struct PipelineConfig {
    pub width: usize,
    pub height: usize,
    pub pixel_format: PixelFormat,
    pub crop_divisor: usize,
    pub brightness_threshold: u8,
    pub worker_count: usize,
    pub lang: u32,
    pub total_frames: usize,
}

impl PipelineConfig {
    /// The bounds every stage relies on: at least one worker, a positive
    /// crop divisor, and a frame size whose pixel count fits in memory.
    pub open spec fn wf(&self) -> bool {
        &&& self.worker_count >= 1
        &&& self.crop_divisor >= 1
        &&& self.width * self.height <= usize::MAX
        &&& self.total_frames < usize::MAX
    }
}

} // verus!
