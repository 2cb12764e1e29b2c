use lae_tui::screen::terminal_too_small;
use lae_tui::screen::{centred_message, library_title, mode_badge, pad_right, track_row_label};

#[test]
fn padding_matches_format() {
    for (s, w) in [("abc", 6usize), ("abcdef", 3), ("", 2), ("héllo", 7), ("x", 0)] {
        assert_eq!(pad_right(s, w), format!("{:<width$}", s, width = w));
    }
}

#[test]
fn track_rows() {
    assert_eq!(track_row_label(0, "a.flac"), "[001] a.flac");
    assert_eq!(track_row_label(41, "b.flac"), "[042] b.flac");
    assert_eq!(track_row_label(998, "c"), "[999] c");
    assert_eq!(track_row_label(12344, "d"), "[12345] d");
}

#[test]
fn library_titles() {
    assert_eq!(library_title(0), " LIBRARY [000 Tracks] ");
    assert_eq!(library_title(7), " LIBRARY [007 Tracks] ");
    assert_eq!(library_title(1234), " LIBRARY [1234 Tracks] ");
}

#[test]
fn mode_badges() {
    assert_eq!(mode_badge(false, false), "[--]");
    assert_eq!(mode_badge(true, false), "[S-]");
    assert_eq!(mode_badge(false, true), "[-R]");
    assert_eq!(mode_badge(true, true), "[SR]");
}

#[test]
fn centred_messages() {
    assert_eq!(centred_message("NO .LRC FOUND", 20), "   NO .LRC FOUND    ");
    assert_eq!(centred_message("abc", 3), "abc");
    assert_eq!(centred_message("abcdef", 3), "abcdef");
    assert_eq!(centred_message("", 4), "    ");
}

#[test]
fn small_terminals() {
    assert!(terminal_too_small(59, 40));
    assert!(terminal_too_small(100, 11));
    assert!(!terminal_too_small(60, 12));
}
