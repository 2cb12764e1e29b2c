use lae_tui::menu::{follow_selection, lowercase_keys_of, matching_indices, populate_dir_menu, select_down, select_up};

fn strings(v: &[&str]) -> Vec<String> {
    v.iter().map(|s| s.to_string()).collect()
}

#[test]
fn dir_menu_has_fixed_entries_first() {
    assert_eq!(populate_dir_menu(vec![]), strings(&["[LOAD ALL FILES HERE]", ".. (Go Up)"]));
}

#[test]
fn dir_menu_sorts_case_insensitively_and_stably() {
    assert_eq!(
        populate_dir_menu(strings(&["b", "A", "c", "a"])),
        strings(&["[LOAD ALL FILES HERE]", ".. (Go Up)", "A", "a", "b", "c"])
    );
    assert_eq!(
        populate_dir_menu(strings(&["Zeta", "alpha", "Beta"])),
        strings(&["[LOAD ALL FILES HERE]", ".. (Go Up)", "alpha", "Beta", "Zeta"])
    );
}

#[test]
fn dir_menu_lowercases_unicode() {
    assert_eq!(
        populate_dir_menu(strings(&["Ébène", "éa", "z"])),
        strings(&["[LOAD ALL FILES HERE]", ".. (Go Up)", "z", "éa", "Ébène"])
    );
}

#[test]
fn selection_moves_stop_at_ends() {
    assert_eq!(select_up(0), 0);
    assert_eq!(select_up(3), 2);
    assert_eq!(select_down(2, 3), 2);
    assert_eq!(select_down(1, 3), 2);
    assert_eq!(select_down(0, 0), 0);
}

#[test]
fn follow_keeps_selection_visible() {
    assert_eq!(follow_selection(5, 0, 10), 0);
    assert_eq!(follow_selection(10, 0, 10), 1);
    assert_eq!(follow_selection(25, 3, 10), 16);
    assert_eq!(follow_selection(2, 8, 10), 2);
    assert_eq!(follow_selection(4, 4, 0), 5);
    for sel in 0..40usize {
        for scroll in 0..40usize {
            let s = follow_selection(sel, scroll, 7);
            assert!(s <= sel && sel < s + 7);
        }
    }
}

#[test]
fn search_matches_case_insensitively() {
    let names = strings(&["Song One.flac", "other.FLAC", "ONE more", "Ünïcode.flac"]);
    assert_eq!(matching_indices(&names, "one", true), vec![0, 2]);
    assert_eq!(matching_indices(&names, "FLAC", true), vec![0, 1, 3]);
    assert_eq!(matching_indices(&names, "ÜNÏ", true), vec![3]);
    assert_eq!(matching_indices(&names, "zzz", true), Vec::<usize>::new());
}

#[test]
fn no_search_lists_everything() {
    let names = strings(&["a", "b", "c"]);
    assert_eq!(matching_indices(&names, "zzz", false), vec![0, 1, 2]);
    assert_eq!(matching_indices(&names, "", true), vec![0, 1, 2]);
}

#[test]
fn folder_keys_are_lower_cased_names() {
    let keys = lowercase_keys_of(&strings(&["Zeta", "ÉCOLE", "a"]));
    let texts: Vec<String> = keys.iter().map(|k| k.iter().collect()).collect();
    assert_eq!(texts, vec!["zeta", "école", "a"]);
}
