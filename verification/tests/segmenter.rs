//! Scenario tests for the run-segmentation algorithm.

use fwocr::segment::segment;

fn buffer(texts: &[&str]) -> Vec<String> {
    texts.iter().map(|t| t.to_string()).collect()
}

#[test]
fn groups_plain_runs_between_gaps() {
    let buf = buffer(&["", "HELLO", "HELLO", "HELLO", "", "BYE", "BYE", ""]);
    let subs = segment(&buf);
    assert_eq!(subs.len(), 2);
    assert_eq!(subs[0].start_frame, 1);
    assert_eq!(subs[0].end_frame, 3);
    assert_eq!(subs[0].text, "HELLO");
    assert_eq!(subs[1].start_frame, 5);
    assert_eq!(subs[1].end_frame, 6);
    assert_eq!(subs[1].text, "BYE");
}

#[test]
fn tolerates_one_misread_inside_a_run() {
    let buf = buffer(&["HELLO", "HELL0", "HELLO"]);
    let subs = segment(&buf);
    assert_eq!(subs.len(), 1);
    assert_eq!(subs[0].start_frame, 0);
    assert_eq!(subs[0].end_frame, 2);
    assert_eq!(subs[0].text, "HELLO");
}

#[test]
fn empty_buffer_yields_no_subtitles() {
    let buf = buffer(&["", "", "", ""]);
    let subs = segment(&buf);
    assert_eq!(subs.len(), 0);
}

#[test]
fn zero_length_buffer_yields_no_subtitles() {
    let buf: Vec<String> = Vec::new();
    let subs = segment(&buf);
    assert_eq!(subs.len(), 0);
}

#[test]
fn run_may_reach_the_end_of_the_buffer() {
    let buf = buffer(&["A", "A"]);
    let subs = segment(&buf);
    assert_eq!(subs.len(), 1);
    assert_eq!(subs[0].start_frame, 0);
    assert_eq!(subs[0].end_frame, 1);
    assert_eq!(subs[0].text, "A");
}

#[test]
fn dissimilar_texts_split_the_run() {
    let buf = buffer(&["ABC", "XYZ"]);
    let subs = segment(&buf);
    assert_eq!(subs.len(), 2);
    assert_eq!(subs[0].start_frame, 0);
    assert_eq!(subs[0].end_frame, 0);
    assert_eq!(subs[0].text, "ABC");
    assert_eq!(subs[1].start_frame, 1);
    assert_eq!(subs[1].end_frame, 1);
    assert_eq!(subs[1].text, "XYZ");
}

#[test]
fn adjacent_runs_with_same_representative_merge() {
    let buf = buffer(&["X", "", "X"]);
    let subs = segment(&buf);
    assert_eq!(subs.len(), 1);
    assert_eq!(subs[0].start_frame, 0);
    assert_eq!(subs[0].end_frame, 2);
    assert_eq!(subs[0].text, "X");
}

#[test]
fn representative_is_most_frequent_variant() {
    let buf = buffer(&["GOOD", "G00D", "GOOD", "GOOD", "G00D"]);
    let subs = segment(&buf);
    assert_eq!(subs.len(), 1);
    assert_eq!(subs[0].text, "GOOD");
}

#[test]
fn representative_tie_goes_to_variant_seen_first() {
    let buf = buffer(&["AB", "AC", "AB", "AC"]);
    let subs = segment(&buf);
    assert_eq!(subs.len(), 1);
    assert_eq!(subs[0].start_frame, 0);
    assert_eq!(subs[0].end_frame, 3);
    assert_eq!(subs[0].text, "AB");
}
