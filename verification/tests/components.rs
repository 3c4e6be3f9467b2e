//! Tests for the preprocessor, distributor, aggregator, similarity test,
//! and text normalization.

use fwocr::aggregate::Aggregator;
use fwocr::distribute::Distributor;
use fwocr::frame::{Frame, PixelFormat};
use fwocr::preprocess::preprocess;
use fwocr::segment::{count_occurrences, representative};
use fwocr::similarity::{is_similar, matched_chars};
use fwocr::text::{is_chinese_char, normalize_text};

#[test]
fn preprocess_crops_bottom_sixth_and_thresholds() {
    let width = 4usize;
    let height = 540usize;
    // All pixels dim (value 100) except one bright pixel (255) at the very
    // start of the bottom band and one at the very end of the frame.
    let band_height = 90usize;
    let offset = width * (height - band_height);
    let mut pixels = vec![100u8; width * height];
    pixels[offset] = 255;
    pixels[width * height - 1] = 255;
    let frame = Frame {
        index: 7,
        width,
        height,
        pixel_format: PixelFormat::Gray8,
        pixels,
    };
    let region = preprocess(&frame, 6, 220);
    assert_eq!(region.index, 7);
    assert_eq!(region.width, 4);
    assert_eq!(region.height, 90);
    assert_eq!(region.pixels.len(), 4 * 90);
    // A value of 255 passes through unchanged; a value of 100 becomes 0.
    assert_eq!(region.pixels[0], 255);
    assert_eq!(region.pixels[1], 0);
    assert_eq!(region.pixels[4 * 90 - 1], 255);
    assert_eq!(region.pixels[4 * 90 - 2], 0);
}

#[test]
fn preprocess_keeps_exactly_threshold_pixels_black() {
    let frame = Frame {
        index: 0,
        width: 3,
        height: 1,
        pixel_format: PixelFormat::Gray8,
        pixels: vec![220u8, 221u8, 0u8],
    };
    // With one row and divisor 1 the band is the whole frame.
    let region = preprocess(&frame, 1, 220);
    // A pixel equal to the threshold is not above it, so it is zeroed.
    assert_eq!(region.pixels, vec![0u8, 221u8, 0u8]);
}

#[test]
fn distributor_routes_round_robin() {
    let mut d = Distributor::new(3);
    let mut workers = Vec::new();
    for _ in 0..7 {
        workers.push(d.assign_next());
    }
    assert_eq!(workers, vec![0, 1, 2, 0, 1, 2, 0]);
    assert_eq!(d.next_index, 7);
    assert_eq!(d.worker_count, 3);
}

#[test]
fn distributor_with_one_worker_sends_everything_to_it() {
    let mut d = Distributor::new(1);
    for _ in 0..5 {
        assert_eq!(d.assign_next(), 0);
    }
}

#[test]
fn aggregator_accepts_results_in_any_order() {
    let mut a = Aggregator::new(3);
    assert!(!a.is_complete());
    assert!(a.record(2, "C"));
    assert!(a.record(0, "A"));
    assert!(!a.is_complete());
    assert!(a.record(1, "B"));
    assert!(a.is_complete());
    let texts = a.finish();
    assert_eq!(texts, vec!["A".to_string(), "B".to_string(), "C".to_string()]);
}

#[test]
fn aggregator_refuses_duplicate_and_out_of_range_results() {
    let mut a = Aggregator::new(2);
    assert!(a.record(0, "first"));
    assert!(!a.record(0, "again"));
    assert!(!a.record(2, "beyond"));
    assert!(!a.is_complete());
    assert!(a.record(1, "second"));
    assert!(a.is_complete());
    let texts = a.finish();
    assert_eq!(texts[0], "first");
    assert_eq!(texts[1], "second");
}

#[test]
fn aggregator_normalizes_before_storing() {
    let mut a = Aggregator::new(1);
    assert!(a.record(0, "HE L LO "));
    let texts = a.finish();
    assert_eq!(texts[0], "HELLO");
}

#[test]
fn aggregator_of_zero_frames_is_complete_at_once() {
    let a = Aggregator::new(0);
    assert!(a.is_complete());
    let texts = a.finish();
    assert!(texts.is_empty());
}

#[test]
fn matched_chars_counts_aligned_positions() {
    assert_eq!(matched_chars("HELLO", "HELL0"), 4);
    assert_eq!(matched_chars("HELLO", "HELLO"), 5);
    assert_eq!(matched_chars("ABC", "XYZ"), 0);
    assert_eq!(matched_chars("", "ANY"), 0);
}

#[test]
fn similarity_is_nonzero_overlap() {
    assert!(is_similar("HELLO", "HELL0"));
    assert!(!is_similar("ABC", "XYZ"));
}

#[test]
fn normalization_removes_every_space() {
    assert_eq!(normalize_text("a b c"), "abc");
    assert_eq!(normalize_text("   "), "");
    assert_eq!(normalize_text("nospace"), "nospace");
}

#[test]
fn chinese_character_block_is_detected() {
    assert!(is_chinese_char('\u{4e00}'));
    assert!(is_chinese_char('\u{9fff}'));
    assert!(!is_chinese_char('A'));
    assert!(!is_chinese_char('\u{4dff}'));
    assert!(!is_chinese_char('\u{ff0c}'));
}

#[test]
fn occurrence_counting_and_representative_match() {
    let buf: Vec<String> = ["B", "A", "A", "B", "B"].iter().map(|t| t.to_string()).collect();
    assert_eq!(count_occurrences(&buf, 0, 4, &"B".to_string()), 3);
    assert_eq!(count_occurrences(&buf, 0, 4, &"A".to_string()), 2);
    assert_eq!(count_occurrences(&buf, 1, 2, &"A".to_string()), 2);
    assert_eq!(representative(&buf, 0, 4), "B");
    assert_eq!(representative(&buf, 1, 3), "A");
}
