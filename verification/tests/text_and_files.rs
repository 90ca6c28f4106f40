//! Text helpers, output file naming, and the minimum-duration rule.

use tx::format::output_filename;
use tx::meets_minimum_duration;
use tx::text::{join_segments, preview_line, str_starts_with, trim_str};

#[test]
fn minimum_duration_boundary() {
    // Half a second at 16 kHz is 8000 samples: one sample less is
    // rejected, exactly half a second is accepted.
    assert!(!meets_minimum_duration(7999));
    assert!(meets_minimum_duration(8000));
    assert!(meets_minimum_duration(8001));
    assert!(!meets_minimum_duration(0));
}

#[test]
fn join_segments_inserts_spaces_and_trims() {
    let segs = vec![" Hello".to_owned(), "world.".to_owned()];
    assert_eq!(join_segments(&segs), "Hello world.");
}

#[test]
fn join_segments_empty_input() {
    let segs: Vec<String> = Vec::new();
    assert_eq!(join_segments(&segs), "");
}

#[test]
fn join_segments_single_segment() {
    let segs = vec!["  one  ".to_owned()];
    assert_eq!(join_segments(&segs), "one");
}

#[test]
fn trim_strips_both_ends_only() {
    assert_eq!(trim_str("  a b \n"), "a b");
    assert_eq!(trim_str("\t\r\n "), "");
    assert_eq!(trim_str("plain"), "plain");
}

#[test]
fn preview_keeps_short_text() {
    assert_eq!(preview_line("short text"), "short text");
    let exact: String = "x".repeat(60);
    assert_eq!(preview_line(&exact), exact);
}

#[test]
fn preview_cuts_long_text_with_ellipsis() {
    let long: String = "y".repeat(61);
    let shown = preview_line(&long);
    assert_eq!(shown.chars().count(), 63);
    assert_eq!(shown, format!("{}...", "y".repeat(60)));
}

#[test]
fn output_filename_is_zero_padded() {
    assert_eq!(output_filename(2024, 3, 7, 9, 5, 30), "tx-2024-03-07-090530.txt");
    assert_eq!(output_filename(999, 12, 31, 23, 59, 59), "tx-0999-12-31-235959.txt");
}

#[test]
fn starts_with_by_characters() {
    assert!(str_starts_with("a1b2c3d", "a1b"));
    assert!(str_starts_with("a1b2c3d", ""));
    assert!(str_starts_with("a1b2c3d", "a1b2c3d"));
    assert!(!str_starts_with("a1b2c3d", "a1b2c3d0"));
    assert!(!str_starts_with("a1b2c3d", "zz"));
}
