use lae_tui::playlist::file_name_of;
use std::path::Path;
use lae_tui::playlist::{index_after_finish, paths_equal, sort_choice, is_flac_file_name, next_index, prev_index, DirEntry, Playlist};

fn entry(path: &str, name: &str, modified: i128) -> DirEntry {
    DirEntry { path: path.to_string(), file_name: name.to_string(), modified }
}

#[test]
fn new_playlist_is_empty() {
    let p = Playlist::new();
    assert!(p.paths.is_empty());
    assert_eq!(p.current_index, 0);
}

#[test]
fn flac_names() {
    assert!(is_flac_file_name("a.flac"));
    assert!(is_flac_file_name("B.FLAC"));
    assert!(is_flac_file_name("c.FlAc"));
    assert!(is_flac_file_name("..flac"));
    assert!(is_flac_file_name("my song.v2.flac"));
    assert!(!is_flac_file_name(".flac"));
    assert!(!is_flac_file_name("flac"));
    assert!(!is_flac_file_name("a.flac.bak"));
    assert!(!is_flac_file_name("a.fla"));
    assert!(!is_flac_file_name("a.flacc"));
    assert!(!is_flac_file_name(""));
    assert!(!is_flac_file_name(".."));
}

#[test]
fn add_dir_keeps_flac_newest_first() {
    let mut p = Playlist::new();
    p.add_dir(vec![
        entry("/d/a.flac", "a.flac", 10),
        entry("/d/b.txt", "b.txt", 50),
        entry("/d/c.FLAC", "c.FLAC", 30),
        entry("/d/d.flac", "d.flac", 10),
        entry("/d/e.flac", "e.flac", -5),
    ]);
    assert_eq!(p.paths, vec!["/d/c.FLAC", "/d/a.flac", "/d/d.flac", "/d/e.flac"]);
    assert_eq!(p.current_index, 0);
}

#[test]
fn add_dir_appends() {
    let mut p = Playlist::new();
    p.add_dir(vec![entry("/x/1.flac", "1.flac", 1)]);
    p.current_index = 0;
    p.add_dir(vec![entry("/y/2.flac", "2.flac", 5), entry("/y/3.flac", "3.flac", 7)]);
    assert_eq!(p.paths, vec!["/x/1.flac", "/y/3.flac", "/y/2.flac"]);
}

#[test]
fn add_dir_with_nothing_to_add() {
    let mut p = Playlist::new();
    p.add_dir(vec![entry("/d/readme.md", "readme.md", 3)]);
    assert!(p.paths.is_empty());
}

#[test]
fn next_and_prev_wrap() {
    assert_eq!(next_index(0, 3), 1);
    assert_eq!(next_index(2, 3), 0);
    assert_eq!(prev_index(0, 3), 2);
    assert_eq!(prev_index(2, 3), 1);
    assert_eq!(next_index(0, 1), 0);
    assert_eq!(prev_index(0, 1), 0);
}

#[test]
fn next_then_prev_returns() {
    for len in 1..6usize {
        for i in 0..len {
            assert_eq!(prev_index(next_index(i, len), len), i);
            assert_eq!(next_index(prev_index(i, len), len), i);
        }
    }
}

#[test]
fn full_cycle_returns() {
    let len = 5;
    let mut i = 3;
    for _ in 0..len {
        i = next_index(i, len);
    }
    assert_eq!(i, 3);
}

#[test]
fn after_finish_modes() {
    assert_eq!(index_after_finish(1, 4, true, true, 3), 1);
    assert_eq!(index_after_finish(1, 4, false, true, 3), 3);
    assert_eq!(index_after_finish(3, 4, false, false, 0), 0);
    assert_eq!(index_after_finish(1, 4, false, false, 0), 2);
}

fn three() -> Playlist {
    let mut p = Playlist::new();
    p.paths = vec!["/m/b.flac".to_string(), "/m/c.flac".to_string(), "/m/a.flac".to_string()];
    p.current_index = 0;
    p
}

#[test]
fn skip_forward_and_back() {
    let mut p = three();
    p.skip_forward(false);
    assert_eq!(p.current_index, 1);
    p.skip_back();
    p.skip_back();
    assert_eq!(p.current_index, 2);
}

#[test]
fn shuffle_draws_inside_playlist() {
    let mut p = three();
    for _ in 0..50 {
        p.skip_forward(true);
        assert!(p.current_index < 3);
    }
    for _ in 0..50 {
        p.advance_after_finish(false, true);
        assert!(p.current_index < 3);
    }
}

#[test]
fn empty_playlist_does_not_move() {
    let mut p = Playlist::new();
    p.skip_forward(true);
    p.skip_back();
    p.advance_after_finish(false, false);
    assert_eq!(p.current_index, 0);
}

#[test]
fn repeat_stays() {
    let mut p = three();
    p.current_index = 2;
    p.advance_after_finish(true, false);
    assert_eq!(p.current_index, 2);
    p.advance_after_finish(false, false);
    assert_eq!(p.current_index, 0);
}

#[test]
fn sort_by_name_follows_loaded_track() {
    let mut p = three();
    let names = vec!["b.flac".to_string(), "c.flac".to_string(), "a.flac".to_string()];
    let r = p.sort_by_name(names.clone(), false, 1);
    assert_eq!(p.paths, vec!["/m/a.flac", "/m/b.flac", "/m/c.flac"]);
    assert_eq!(r, Some(2));
    assert_eq!(p.current_index, 2);
    let names = vec!["a.flac".to_string(), "b.flac".to_string(), "c.flac".to_string()];
    let r = p.sort_by_name(names, true, 2);
    assert_eq!(p.paths, vec!["/m/c.flac", "/m/b.flac", "/m/a.flac"]);
    assert_eq!(r, Some(0));
}

#[test]
fn sort_without_loaded_track_keeps_index() {
    let mut p = three();
    p.current_index = 1;
    let r = p.sort_by_modified(vec![5, 1, 3], false, usize::MAX);
    assert_eq!(p.paths, vec!["/m/c.flac", "/m/a.flac", "/m/b.flac"]);
    assert_eq!(r, None);
    assert_eq!(p.current_index, 1);
}

#[test]
fn sort_by_modified_is_stable() {
    let mut p = three();
    let r = p.sort_by_modified(vec![7, 7, 2], true, 0);
    assert_eq!(p.paths, vec!["/m/b.flac", "/m/c.flac", "/m/a.flac"]);
    assert_eq!(r, Some(0));
    let r = p.sort_by_modified(vec![7, 7, 2], false, 0);
    assert_eq!(p.paths, vec!["/m/a.flac", "/m/b.flac", "/m/c.flac"]);
    assert_eq!(r, Some(1));
}

#[test]
fn sort_names_by_code_point() {
    let mut p = Playlist::new();
    p.paths = vec!["/é".to_string(), "/z".to_string(), "/Z".to_string()];
    let r = p.sort_by_name(vec!["é".to_string(), "z".to_string(), "Z".to_string()], false, 0);
    assert_eq!(p.paths, vec!["/Z", "/z", "/é"]);
    assert_eq!(r, Some(2));
}

#[test]
fn sort_with_duplicate_paths_picks_first() {
    let mut p = Playlist::new();
    p.paths = vec!["/a".to_string(), "/b".to_string(), "/a".to_string()];
    let r = p.sort_by_modified(vec![3, 2, 1], false, 0);
    assert_eq!(p.paths, vec!["/a", "/b", "/a"]);
    assert_eq!(r, Some(0));
}

#[test]
fn position_of_finds_first() {
    let p = three();
    assert_eq!(p.position_of(&"/m/c.flac".to_string()), Some(1));
    assert_eq!(p.position_of(&"/m/zzz.flac".to_string()), None);
}

#[test]
fn file_names_of_paths() {
    for p in ["/m/a.flac", "a.flac", "/m/dir/", "/m//b", "/", "", ".", "./", "a/.", "a/./.", "a/..", "/..", "..", "../x", "x/y/z.FLAC", "é/ü.flac"] {
        let expected = Path::new(p).file_name().unwrap_or_default().to_string_lossy().into_owned();
        assert_eq!(file_name_of(p), expected, "path {:?}", p);
    }
}

#[test]
fn paths_compare_component_by_component() {
    let cases = [
        ("/m//a.flac", "/m/a.flac"),
        ("/m/./a.flac", "/m/a.flac"),
        ("m/a/", "m/a"),
        ("./a", "a"),
        ("./a", "././a"),
        (".", "./"),
        ("/m/a.flac", "m/a.flac"),
        ("/m/../a", "/a"),
        ("", "."),
        ("//a", "/a"),
        ("a/b", "a/c"),
    ];
    for (a, b) in cases {
        assert_eq!(paths_equal(a, b), Path::new(a) == Path::new(b), "{:?} {:?}", a, b);
        assert_eq!(paths_equal(b, a), Path::new(b) == Path::new(a), "{:?} {:?}", b, a);
    }
}

#[test]
fn position_of_matches_differently_written_paths() {
    let mut p = Playlist::new();
    p.paths = vec!["/m/b.flac".to_string(), "/m/a.flac".to_string(), "/m//a.flac".to_string()];
    assert_eq!(p.position_of(&"/m//a.flac".to_string()), Some(1));
    assert_eq!(p.position_of(&"/m/./b.flac".to_string()), Some(0));
}

#[test]
fn sort_keeps_the_first_track_with_the_loaded_path() {
    let mut p = Playlist::new();
    p.paths = vec!["/m//a.flac".to_string(), "/m/z.flac".to_string(), "/m/a.flac".to_string()];
    let r = p.sort_by_modified(vec![3, 1, 2], false, 0);
    assert_eq!(p.paths, vec!["/m/z.flac", "/m/a.flac", "/m//a.flac"]);
    assert_eq!(r, Some(1));
    assert_eq!(p.current_index, 1);
}

#[test]
fn sort_menu_rows() {
    let rows: Vec<(bool, bool)> = (0..4).map(|i| {
        let c = sort_choice(i).unwrap();
        (c.by_name, c.descending)
    }).collect();
    assert_eq!(rows, vec![(false, false), (false, true), (true, false), (true, true)]);
    assert!(sort_choice(4).is_none());
}
