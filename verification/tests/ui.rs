use lae_tui::playlist::Playlist;
use lae_tui::ui::{active_line, Action, Key, Ui, Wheel};

fn playlist(n: usize) -> Playlist {
    let mut p = Playlist::new();
    for i in 0..n {
        p.paths.push(format!("/m/{}.flac", i));
    }
    p
}

fn press(ui: &mut Ui, pl: &mut Playlist, key: Key) -> Action {
    let all: Vec<usize> = (0..pl.paths.len()).collect();
    ui.handle_key(pl, key, &all, 0, 2, 24)
}

#[test]
fn quit_needs_confirmation() {
    let mut ui = Ui::new();
    let mut pl = playlist(2);
    assert!(matches!(press(&mut ui, &mut pl, Key::Char('q')), Action::Nothing));
    assert!(ui.quit_prompt);
    assert!(matches!(press(&mut ui, &mut pl, Key::Char('x')), Action::Nothing));
    assert!(ui.quit_prompt);
    assert!(matches!(press(&mut ui, &mut pl, Key::Char('n')), Action::Nothing));
    assert!(!ui.quit_prompt);
    press(&mut ui, &mut pl, Key::Char('q'));
    assert!(matches!(press(&mut ui, &mut pl, Key::Char('Y')), Action::Quit));
}

#[test]
fn next_and_previous_tracks() {
    let mut ui = Ui::new();
    let mut pl = playlist(3);
    press(&mut ui, &mut pl, Key::Char('n'));
    assert_eq!((pl.current_index, ui.ui_sel), (1, 1));
    press(&mut ui, &mut pl, Key::Char('p'));
    press(&mut ui, &mut pl, Key::Char('p'));
    assert_eq!((pl.current_index, ui.ui_sel), (2, 2));
    press(&mut ui, &mut pl, Key::Char('n'));
    assert_eq!(pl.current_index, 0);
}

#[test]
fn shuffled_next_stays_in_playlist() {
    let mut ui = Ui::new();
    let mut pl = playlist(4);
    press(&mut ui, &mut pl, Key::Char('s'));
    assert!(ui.shuffle);
    for _ in 0..30 {
        press(&mut ui, &mut pl, Key::Char('n'));
        assert!(pl.current_index < 4);
        assert_eq!(ui.ui_sel, pl.current_index);
    }
}

#[test]
fn selection_moves_and_enter_plays() {
    let mut ui = Ui::new();
    let mut pl = playlist(3);
    press(&mut ui, &mut pl, Key::Up);
    assert_eq!(ui.ui_sel, 0);
    press(&mut ui, &mut pl, Key::Down);
    press(&mut ui, &mut pl, Key::Down);
    press(&mut ui, &mut pl, Key::Down);
    assert_eq!(ui.ui_sel, 2);
    press(&mut ui, &mut pl, Key::Enter);
    assert_eq!(pl.current_index, 2);
}

#[test]
fn keys_without_tracks() {
    let mut ui = Ui::new();
    let mut pl = playlist(0);
    assert!(matches!(press(&mut ui, &mut pl, Key::Char(' ')), Action::Nothing));
    assert!(matches!(press(&mut ui, &mut pl, Key::Right), Action::Nothing));
    assert!(matches!(press(&mut ui, &mut pl, Key::Char('+')), Action::VolumeUp));
    press(&mut ui, &mut pl, Key::Char('n'));
    press(&mut ui, &mut pl, Key::Enter);
    assert_eq!(pl.current_index, 0);
}

#[test]
fn playback_keys() {
    let mut ui = Ui::new();
    let mut pl = playlist(1);
    assert!(matches!(press(&mut ui, &mut pl, Key::Char(' ')), Action::PlayPause));
    assert!(matches!(press(&mut ui, &mut pl, Key::Right), Action::SeekForward));
    assert!(matches!(press(&mut ui, &mut pl, Key::Left), Action::SeekBackward));
    assert!(matches!(press(&mut ui, &mut pl, Key::Char('b')), Action::SeekBackward));
    assert!(matches!(press(&mut ui, &mut pl, Key::Char('=')), Action::VolumeUp));
    assert!(matches!(press(&mut ui, &mut pl, Key::Char('-')), Action::VolumeDown));
}

#[test]
fn folder_prompt_collects_path() {
    let mut ui = Ui::new();
    let mut pl = playlist(0);
    press(&mut ui, &mut pl, Key::Char('f'));
    assert!(ui.folder_mode);
    for c in "~/musix".chars() {
        press(&mut ui, &mut pl, Key::Char(c));
    }
    press(&mut ui, &mut pl, Key::Backspace);
    press(&mut ui, &mut pl, Key::Char('c'));
    assert_eq!(ui.folder_text(), "~/music");
    match press(&mut ui, &mut pl, Key::Enter) {
        Action::OpenFolder(p) => assert_eq!(p, "~/music"),
        _ => panic!("expected a folder to open"),
    }
    assert!(!ui.folder_mode);
    assert_eq!(ui.folder_text(), "");
}

#[test]
fn search_enter_plays_selected_match() {
    let mut ui = Ui::new();
    let mut pl = playlist(40);
    press(&mut ui, &mut pl, Key::Char('S'));
    assert!(ui.search_mode);
    press(&mut ui, &mut pl, Key::Char('3'));
    assert_eq!(ui.search_text(), "3");
    let matches = vec![3usize, 13, 23, 30, 31];
    ui.handle_key(&mut pl, Key::Down, &matches, 0, 2, 24);
    ui.handle_key(&mut pl, Key::Down, &matches, 0, 2, 24);
    assert_eq!(ui.filtered_sel, 2);
    ui.handle_key(&mut pl, Key::Enter, &matches, 0, 2, 24);
    assert!(!ui.search_mode);
    assert_eq!(ui.ui_sel, 23);
    assert_eq!(ui.scroll, 11);
    assert_eq!(pl.current_index, 23);
}

#[test]
fn sort_menu_options() {
    let mut ui = Ui::new();
    let mut pl = playlist(2);
    press(&mut ui, &mut pl, Key::Esc);
    assert!(ui.sort_mode);
    for _ in 0..5 {
        press(&mut ui, &mut pl, Key::Down);
    }
    assert_eq!(ui.sort_sel, 3);
    assert!(matches!(press(&mut ui, &mut pl, Key::Enter), Action::SortPlaylist(3)));
    assert!(!ui.sort_mode);
}

#[test]
fn dir_menu_entries() {
    let mut ui = Ui::new();
    let mut pl = playlist(0);
    ui.open_dir_menu();
    let none: Vec<usize> = vec![];
    assert!(matches!(ui.handle_key(&mut pl, Key::Enter, &none, 0, 5, 24), Action::LoadDirectory));
    assert!(!ui.dir_menu_mode);
    ui.open_dir_menu();
    ui.handle_key(&mut pl, Key::Down, &none, 0, 5, 24);
    assert!(matches!(ui.handle_key(&mut pl, Key::Enter, &none, 0, 5, 24), Action::GoUpDirectory));
    for _ in 0..10 {
        ui.handle_key(&mut pl, Key::Down, &none, 0, 5, 24);
    }
    assert_eq!(ui.dir_menu_sel, 4);
    assert!(matches!(ui.handle_key(&mut pl, Key::Enter, &none, 0, 5, 24), Action::EnterDirectory(4)));
    assert!(matches!(ui.handle_key(&mut pl, Key::Esc, &none, 0, 5, 24), Action::Nothing));
    assert!(!ui.dir_menu_mode);
}

#[test]
fn lyrics_scroll_by_hand_when_not_following() {
    let mut ui = Ui::new();
    let mut pl = playlist(3);
    let all = vec![0usize, 1, 2];
    ui.handle_key(&mut pl, Key::Char('i'), &all, 5, 2, 24);
    assert!(!ui.sync_lyrics);
    for _ in 0..9 {
        ui.handle_key(&mut pl, Key::Down, &all, 5, 2, 24);
    }
    assert_eq!(ui.lrc_scroll, 4);
    assert_eq!(ui.ui_sel, 0);
    ui.handle_wheel(Wheel::Up, 3, 3, 5, 2);
    assert_eq!(ui.lrc_scroll, 3);
}

#[test]
fn wheel_moves_track_selection() {
    let mut ui = Ui::new();
    ui.handle_wheel(Wheel::Down, 3, 3, 0, 2);
    ui.handle_wheel(Wheel::Down, 3, 3, 0, 2);
    ui.handle_wheel(Wheel::Down, 3, 3, 0, 2);
    assert_eq!(ui.ui_sel, 2);
    ui.quit_prompt = true;
    ui.handle_wheel(Wheel::Up, 3, 3, 0, 2);
    assert_eq!(ui.ui_sel, 2);
}

#[test]
fn tick_loads_and_advances() {
    let mut ui = Ui::new();
    let mut pl = playlist(3);
    assert!(ui.on_tick(&mut pl, false));
    ui.track_loaded(pl.current_index);
    assert!(!ui.on_tick(&mut pl, false));
    assert!(ui.on_tick(&mut pl, true));
    assert_eq!(pl.current_index, 1);
    ui.track_loaded(1);
    ui.repeat = true;
    assert!(ui.on_tick(&mut pl, true));
    assert_eq!(pl.current_index, 1);
    let mut empty = playlist(0);
    assert!(!ui.on_tick(&mut empty, true));
}

#[test]
fn list_scrolls_to_selection_before_drawing() {
    let mut ui = Ui::new();
    ui.ui_sel = 30;
    ui.before_draw(0, 13);
    assert_eq!(ui.scroll, 21);
    ui.search_mode = true;
    ui.filtered_sel = 9;
    ui.before_draw(4, 13);
    assert_eq!(ui.filtered_sel, 3);
    assert_eq!(ui.filtered_scroll, 0);
}

#[test]
fn active_lyric_line() {
    assert_eq!(active_line(&vec![]), 0);
    assert_eq!(active_line(&vec![false, false]), 0);
    assert_eq!(active_line(&vec![true, true, false, true]), 1);
    assert_eq!(active_line(&vec![true, true, true]), 2);
}

#[test]
fn lyric_window_centres_active_line() {
    let mut ui = Ui::new();
    ui.place_lyrics(10, 30, 6);
    assert_eq!(ui.lrc_scroll, 7);
    ui.place_lyrics(29, 30, 6);
    assert_eq!(ui.lrc_scroll, 24);
    ui.place_lyrics(1, 30, 6);
    assert_eq!(ui.lrc_scroll, 0);
    ui.sync_lyrics = false;
    ui.lrc_scroll = 50;
    ui.place_lyrics(1, 30, 6);
    assert_eq!(ui.lrc_scroll, 24);
}

#[test]
fn appending_to_empty_playlist_selects_first() {
    let mut ui = Ui::new();
    let mut pl = playlist(2);
    ui.ui_sel = 0;
    ui.after_append(&mut pl, 0);
    assert_eq!((pl.current_index, ui.ui_sel), (0, 0));
    pl.current_index = 1;
    ui.after_append(&mut pl, 1);
    assert_eq!(pl.current_index, 1);
}

#[test]
fn sort_result_moves_selection() {
    let mut ui = Ui::new();
    ui.after_sort(Some(4));
    assert_eq!((ui.loaded, ui.ui_sel), (4, 4));
    ui.after_sort(None);
    assert_eq!((ui.loaded, ui.ui_sel), (4, 4));
}

#[test]
fn art_is_sent_once_per_track() {
    let mut ui = Ui::new();
    assert!(!ui.art_to_upload(false, true));
    assert!(!ui.art_to_upload(true, false));
    assert!(!ui.shows_art(true));
    assert!(ui.art_to_upload(true, true));
    assert!(!ui.art_to_upload(true, true));
    assert!(ui.shows_art(true));
    assert!(!ui.shows_art(false));
    ui.track_loaded(0);
    assert!(ui.art_to_upload(true, true));
}

#[test]
fn list_window_rows() {
    let mut ui = Ui::new();
    ui.scroll = 3;
    assert_eq!(ui.list_window(10, 4), (3, 7));
    assert_eq!(ui.list_window(5, 4), (3, 5));
    assert_eq!(ui.list_window(2, 4), (3, 3));
    ui.search_mode = true;
    ui.filtered_scroll = 1;
    assert_eq!(ui.list_window(10, 4), (1, 5));
}

#[test]
fn selected_rows() {
    let mut ui = Ui::new();
    ui.ui_sel = 7;
    assert!(ui.row_selected(0, 7));
    assert!(!ui.row_selected(7, 0));
    ui.search_mode = true;
    ui.filtered_sel = 2;
    assert!(ui.row_selected(2, 9));
    assert!(!ui.row_selected(3, 7));
}

#[test]
fn lyric_rows() {
    let mut ui = Ui::new();
    ui.lrc_scroll = 2;
    assert_eq!(ui.lyric_row(0, 5, 2), Some((2, true)));
    assert_eq!(ui.lyric_row(1, 5, 2), Some((3, false)));
    assert_eq!(ui.lyric_row(3, 5, 2), None);
    ui.sync_lyrics = false;
    assert_eq!(ui.lyric_row(0, 5, 2), Some((2, false)));
}

#[test]
fn repeat_wins_over_shuffle_after_a_track_ends() {
    let mut ui = Ui::new();
    let mut pl = playlist(50);
    pl.current_index = 7;
    ui.track_loaded(7);
    ui.repeat = true;
    ui.shuffle = true;
    for _ in 0..20 {
        assert!(ui.on_tick(&mut pl, true));
        assert_eq!(pl.current_index, 7);
    }
}
