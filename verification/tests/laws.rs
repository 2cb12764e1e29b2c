use lae_tui::truncate::safe_truncate;
use lae_tui::art::art_place_sequence;
use lae_tui::lrc::parse_lrc_content;
use lae_tui::menu::{select_down, select_up};
use lae_tui::playlist::{DirEntry, Playlist};

#[test]
fn added_paths_are_the_flac_files() {
    let mut p = Playlist::new();
    let entries = vec![
        DirEntry { path: "/d/x.flac".into(), file_name: "x.flac".into(), modified: 1 },
        DirEntry { path: "/d/y.mp3".into(), file_name: "y.mp3".into(), modified: 2 },
        DirEntry { path: "/d/z.FLAC".into(), file_name: "z.FLAC".into(), modified: 3 },
    ];
    p.add_dir(entries);
    let mut got = p.paths.clone();
    got.sort();
    assert_eq!(got, vec!["/d/x.flac", "/d/z.FLAC"]);
}

#[test]
fn down_then_up_returns() {
    for len in 2..6usize {
        for sel in 0..len - 1 {
            assert_eq!(select_up(select_down(sel, len)), sel);
        }
    }
}

#[test]
fn numbers_read_back() {
    for (y, x) in [(0u16, 0u16), (8, 99), (998, 12345)] {
        let s = art_place_sequence(y, x, 0, 0);
        let at = s.find("\x1b[").unwrap() + 2;
        let h = s[at..].find('H').unwrap();
        let pos: Vec<u32> = s[at..at + h].split(';').map(|n| n.parse().unwrap()).collect();
        assert_eq!(pos, vec![y as u32 + 1, x as u32 + 1]);
    }
}

#[test]
fn at_most_one_tag_per_line() {
    let c = "[00:01]a\n[00:02]b\nx\n[00:03]c";
    assert!(parse_lrc_content(c).len() <= c.lines().count());
}

#[test]
fn joined_texts_parse_part_by_part() {
    let parts = ["[00:01]a\r", "", "[00:02] b \n[x:y]", "plain\n\n", "[00:03]c]\r", "[0:1\r"];
    let key = |c: &str| -> Vec<(String, String, String)> {
        parse_lrc_content(c).into_iter().map(|t| (t.minutes, t.seconds, t.text)).collect()
    };
    for a in parts {
        for b in parts {
            let joined = format!("{}\n{}", a, b);
            let mut expected = key(a);
            expected.extend(key(b));
            assert_eq!(key(&joined), expected, "a={:?} b={:?}", a, b);
        }
    }
}

#[test]
fn truncating_twice_at_narrow_widths() {
    for w in 0..3usize {
        let once = safe_truncate("P: ", "value", w);
        assert_eq!(once, "...");
        assert_eq!(safe_truncate("", &once, w), once);
    }
}
