use lae_tui::truncate::safe_truncate;

#[test]
fn fits_is_returned_whole() {
    assert_eq!(safe_truncate("Title:  ", "Hello", 20), "Title:  Hello");
}

#[test]
fn exact_width_is_not_cut() {
    assert_eq!(safe_truncate("ab", "cde", 5), "abcde");
}

#[test]
fn long_text_is_cut_with_ellipsis() {
    assert_eq!(safe_truncate("", "abcdefghij", 8), "abcde...");
}

#[test]
fn prefix_counts_toward_width() {
    assert_eq!(safe_truncate("Artist: ", "Someone Famous", 12), "Artist: S...");
    assert_eq!(safe_truncate("Artist: ", "Someone Famous", 13), "Artist: So...");
    assert_eq!(safe_truncate("Artist: ", "Someone Famous", 22), "Artist: Someone Famous");
}

#[test]
fn line_breaks_are_flattened() {
    assert_eq!(safe_truncate("", "ab\ncd\r", 10), "ab cd");
    assert_eq!(safe_truncate("", "line1\r\nline2", 20), "line1 line2");
}

#[test]
fn prefix_line_breaks_are_kept() {
    assert_eq!(safe_truncate("a\n", "b\n", 10), "a\nb ");
}

#[test]
fn narrow_width_gives_bare_ellipsis() {
    assert_eq!(safe_truncate("", "abcdef", 2), "...");
    assert_eq!(safe_truncate("Pre: ", "x", 3), "...");
    assert_eq!(safe_truncate("", "abcdef", 0), "...");
}

#[test]
fn empty_inputs() {
    assert_eq!(safe_truncate("", "", 0), "");
    assert_eq!(safe_truncate("", "", 5), "");
}

#[test]
fn counts_characters_not_bytes() {
    assert_eq!(safe_truncate("", "héllo wörld", 5), "hé...");
    assert_eq!(safe_truncate("", "héllo", 5), "héllo");
}

#[test]
fn result_fits_the_width() {
    for w in 3..30usize {
        let r = safe_truncate("Label: ", "a fairly long value\nwith a break", w);
        assert!(r.chars().count() <= w);
    }
}

#[test]
fn truncating_twice_changes_nothing() {
    for w in 3..40usize {
        let once = safe_truncate("Album:  ", "Some\nalbum title that is long", w);
        assert_eq!(safe_truncate("", &once, w), once);
    }
}
