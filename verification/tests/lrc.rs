use lae_tui::lrc::{parse_lrc_content, LrcTag};

fn triple(t: &LrcTag) -> (String, String, String) {
    (t.minutes.clone(), t.seconds.clone(), t.text.clone())
}

fn tags(content: &str) -> Vec<(String, String, String)> {
    parse_lrc_content(content).iter().map(triple).collect()
}

fn t(m: &str, s: &str, x: &str) -> (String, String, String) {
    (m.to_string(), s.to_string(), x.to_string())
}

#[test]
fn reads_tagged_lines_in_order() {
    let c = "[00:12.34]Hello\n[01:02.00] World \r\nno tag here\n";
    assert_eq!(tags(c), vec![t("00", "12.34", "Hello"), t("01", "02.00", "World")]);
}

#[test]
fn metadata_tags_have_two_fields_too() {
    assert_eq!(tags("[ar:Artist]"), vec![t("ar", "Artist", "")]);
}

#[test]
fn tag_without_text_has_empty_text() {
    assert_eq!(tags("[00:05]"), vec![t("00", "05", "")]);
}

#[test]
fn lines_not_starting_with_bracket_are_skipped() {
    assert_eq!(tags(" [00:01]x\nplain"), vec![]);
}

#[test]
fn wrong_field_counts_are_skipped() {
    assert_eq!(tags("[1:2:3]x\n[abc]y\n[]z"), vec![]);
}

#[test]
fn unclosed_tag_is_skipped() {
    assert_eq!(tags("[00:01 text"), vec![]);
}

#[test]
fn text_stops_at_the_next_bracket() {
    assert_eq!(tags("[00:01]a]b"), vec![t("00", "01", "a")]);
    assert_eq!(tags("[00:01][00:02]both"), vec![t("00", "01", "[00:02")]);
}

#[test]
fn last_line_keeps_a_lone_carriage_return() {
    // str::lines keeps a '\r' at the very end; trimming the text removes it.
    assert_eq!(tags("[00:01]a\r"), vec![t("00", "01", "a")]);
}

#[test]
fn empty_content_has_no_tags() {
    assert_eq!(tags(""), vec![]);
    assert_eq!(tags("\n\n"), vec![]);
}

#[test]
fn unicode_white_space_is_trimmed() {
    assert_eq!(tags("[00:01]\u{3000}word\u{a0}"), vec![t("00", "01", "word")]);
}
