//! Extraction of burned-in subtitles from a decoded video stream.
//!
//! The pipeline samples every decoded frame, crops and thresholds the band
//! where subtitle text appears, fans the regions out to a fixed pool of
//! recognition workers, collects the recognized text back into a dense
//! per-frame buffer, and collapses that buffer into discrete subtitle spans.
//! This crate holds the verified core of that pipeline: the region
//! preprocessor, the round-robin distributor, the order-tolerant aggregator,
//! and the run-segmentation algorithm. Decoding, the recognition service
//! itself, and all I/O live outside, and hand the core plain values.

pub mod aggregate;
pub mod distribute;
pub mod frame;
pub mod preprocess;
pub mod segment;
pub mod similarity;
pub mod text;
