//! What the keys do, stated field by field: for each screen, the facts that
//! a key press must bring about (which value moves and by how much, which
//! stays), over all states.

use vstd::prelude::*;
use crate::playlist::after_finish;
use crate::ui::{
    ActionView, Key, UiView, Wheel, active_of, key_step, leading_reached, lyric_top, wheel_step,
};

verus! {

/// No overlay is open: keys go to the main screen.
pub open spec fn on_main_screen(u: UiView) -> bool {
    !u.quit_prompt && !u.dir_menu_mode && !u.sort_mode && !u.folder_mode && !u.search_mode
}

/// The sort menu is in front: it is open and neither the quit prompt nor the
/// directory browser covers it.
pub open spec fn in_sort_menu(u: UiView) -> bool {
    !u.quit_prompt && !u.dir_menu_mode && u.sort_mode
}

/// The directory browser is in front.
pub open spec fn in_dir_menu(u: UiView) -> bool {
    !u.quit_prompt && u.dir_menu_mode
}

/// The folder prompt is in front.
pub open spec fn in_folder_prompt(u: UiView) -> bool {
    !u.quit_prompt && !u.dir_menu_mode && !u.sort_mode && u.folder_mode
}

/// The search is in front.
pub open spec fn in_search(u: UiView) -> bool {
    !u.quit_prompt && !u.dir_menu_mode && !u.sort_mode && !u.folder_mode && u.search_mode
}

/// Esc on the main screen opens the sort menu on its first row.
pub proof fn lemma_esc_opens_sort_menu(u: UiView, current: int, len: int, matches: Seq<usize>, lyrics: int, items: int, rows: int, pick: int)
    requires
        on_main_screen(u),
    ensures
        ({
            let (v, c, a) = key_step(u, Key::Esc, current, len, matches, lyrics, items, rows, pick);
            v.sort_mode && v.sort_sel == 0 && c == current && a == ActionView::Nothing
        }),
{
}

/// Enter in the sort menu closes it and, when there are tracks, asks to sort
/// by exactly the selected row; the menu's row and the current track stay.
pub proof fn lemma_sort_enter_sorts_by_selected_row(u: UiView, current: int, len: int, matches: Seq<usize>, lyrics: int, items: int, rows: int, pick: int)
    requires
        in_sort_menu(u),
    ensures
        ({
            let (v, c, a) = key_step(u, Key::Enter, current, len, matches, lyrics, items, rows, pick);
            &&& !v.sort_mode
            &&& v.sort_sel == u.sort_sel
            &&& c == current
            &&& len > 0 ==> a == ActionView::SortPlaylist(u.sort_sel)
            &&& len <= 0 ==> a == ActionView::Nothing
        }),
{
}

/// Up and Down in the sort menu move one row among its four rows, stopping
/// at the ends, and leave the menu open; Esc closes it.
pub proof fn lemma_sort_menu_moves(u: UiView, current: int, len: int, matches: Seq<usize>, lyrics: int, items: int, rows: int, pick: int)
    requires
        in_sort_menu(u),
    ensures
        ({
            let (v, c, a) = key_step(u, Key::Up, current, len, matches, lyrics, items, rows, pick);
            &&& v.sort_mode && c == current && a == ActionView::Nothing
            &&& u.sort_sel > 0 ==> v.sort_sel == u.sort_sel - 1
            &&& u.sort_sel == 0 ==> v.sort_sel == 0
        }),
        ({
            let (v, c, a) = key_step(u, Key::Down, current, len, matches, lyrics, items, rows, pick);
            &&& v.sort_mode && c == current && a == ActionView::Nothing
            &&& u.sort_sel < 3 ==> v.sort_sel == u.sort_sel + 1
            &&& u.sort_sel >= 3 ==> v.sort_sel == u.sort_sel
        }),
        ({
            let (v, c, a) = key_step(u, Key::Esc, current, len, matches, lyrics, items, rows, pick);
            !v.sort_mode && v.sort_sel == u.sort_sel && c == current && a == ActionView::Nothing
        }),
{
}

/// In the sort menu, Down then Up comes back to the same row, except from
/// the last row.
pub proof fn lemma_sort_menu_down_up(u: UiView, current: int, len: int, matches: Seq<usize>, lyrics: int, items: int, rows: int, pick: int)
    requires
        in_sort_menu(u),
        u.sort_sel < 3,
    ensures
        ({
            let v = key_step(u, Key::Down, current, len, matches, lyrics, items, rows, pick).0;
            key_step(v, Key::Up, current, len, matches, lyrics, items, rows, pick).0.sort_sel
                == u.sort_sel
        }),
{
}

/// A character typed in the search is added at the end of the query, and
/// the selection goes back to the first match; Backspace takes off exactly
/// the last character (nothing from an empty query) and also goes back to
/// the first match. The search stays open and the current track stays.
pub proof fn lemma_search_edits_query(u: UiView, ch: char, current: int, len: int, matches: Seq<usize>, lyrics: int, items: int, rows: int, pick: int)
    requires
        in_search(u),
    ensures
        ({
            let (v, c, a) = key_step(u, Key::Char(ch), current, len, matches, lyrics, items, rows, pick);
            &&& v.search_query.len() == u.search_query.len() + 1
            &&& v.search_query.take(u.search_query.len() as int) == u.search_query
            &&& v.search_query.last() == ch
            &&& v.filtered_sel == 0 && v.search_mode && c == current && a == ActionView::Nothing
        }),
        ({
            let (v, c, a) = key_step(u, Key::Backspace, current, len, matches, lyrics, items, rows, pick);
            &&& u.search_query.len() > 0 ==> v.search_query.push(u.search_query.last())
                == u.search_query
            &&& u.search_query.len() == 0 ==> v.search_query.len() == 0
            &&& v.filtered_sel == 0 && v.search_mode && c == current && a == ActionView::Nothing
        }),
{
    let v = key_step(u, Key::Backspace, current, len, matches, lyrics, items, rows, pick).0;
    if u.search_query.len() > 0 {
        assert(v.search_query.push(u.search_query.last()) == u.search_query);
    }
}

/// Typing a character in the search and erasing it gives back the query.
pub proof fn lemma_search_type_then_erase(u: UiView, ch: char, current: int, len: int, matches: Seq<usize>, lyrics: int, items: int, rows: int, pick: int)
    requires
        in_search(u),
    ensures
        ({
            let v = key_step(u, Key::Char(ch), current, len, matches, lyrics, items, rows, pick).0;
            key_step(v, Key::Backspace, current, len, matches, lyrics, items, rows, pick).0.search_query
                == u.search_query
        }),
{
    let v = key_step(u, Key::Char(ch), current, len, matches, lyrics, items, rows, pick).0;
    assert(v.search_query.drop_last() == u.search_query);
}

/// Up and Down in the search move one match among `matches`, stopping at the
/// first and the last; Esc closes the search and keeps the query.
pub proof fn lemma_search_moves(u: UiView, current: int, len: int, matches: Seq<usize>, lyrics: int, items: int, rows: int, pick: int)
    requires
        in_search(u),
        matches.len() <= usize::MAX,
    ensures
        ({
            let (v, c, a) = key_step(u, Key::Up, current, len, matches, lyrics, items, rows, pick);
            &&& v.search_mode && v.search_query == u.search_query && c == current
            &&& u.filtered_sel > 0 ==> v.filtered_sel == u.filtered_sel - 1
            &&& u.filtered_sel == 0 ==> v.filtered_sel == 0
        }),
        ({
            let (v, c, a) = key_step(u, Key::Down, current, len, matches, lyrics, items, rows, pick);
            &&& v.search_mode && v.search_query == u.search_query && c == current
            &&& u.filtered_sel + 1 < matches.len() ==> v.filtered_sel == u.filtered_sel + 1
            &&& u.filtered_sel + 1 >= matches.len() ==> v.filtered_sel == u.filtered_sel
        }),
        ({
            let (v, c, a) = key_step(u, Key::Esc, current, len, matches, lyrics, items, rows, pick);
            !v.search_mode && v.search_query == u.search_query && c == current
        }),
{
}

/// Enter in the search closes it and, when there are matches and tracks,
/// plays and selects the selected match (the last one if the selection is
/// past it).
pub proof fn lemma_search_enter_plays_match(u: UiView, current: int, len: int, matches: Seq<usize>, lyrics: int, items: int, rows: int, pick: int)
    requires
        in_search(u),
        matches.len() > 0,
        len > 0,
    ensures
        ({
            let (v, c, a) = key_step(u, Key::Enter, current, len, matches, lyrics, items, rows, pick);
            let k = if u.filtered_sel < matches.len() { u.filtered_sel as int } else { matches.len() - 1 };
            &&& !v.search_mode
            &&& c == matches[k] as int
            &&& v.ui_sel == matches[k]
            &&& a == ActionView::Nothing
        }),
{
}

/// A character typed at the folder prompt is added at the end of the path;
/// Backspace takes off exactly its last character; Enter opens the typed
/// path and empties the prompt.
pub proof fn lemma_folder_prompt_edits_path(u: UiView, ch: char, current: int, len: int, matches: Seq<usize>, lyrics: int, items: int, rows: int, pick: int)
    requires
        in_folder_prompt(u),
    ensures
        ({
            let (v, c, a) = key_step(u, Key::Char(ch), current, len, matches, lyrics, items, rows, pick);
            &&& v.folder_query.len() == u.folder_query.len() + 1
            &&& v.folder_query.take(u.folder_query.len() as int) == u.folder_query
            &&& v.folder_query.last() == ch
            &&& v.folder_mode && c == current && a == ActionView::Nothing
        }),
        ({
            let (v, c, a) = key_step(u, Key::Backspace, current, len, matches, lyrics, items, rows, pick);
            &&& u.folder_query.len() > 0 ==> v.folder_query.push(u.folder_query.last())
                == u.folder_query
            &&& u.folder_query.len() == 0 ==> v.folder_query.len() == 0
            &&& v.folder_mode && c == current && a == ActionView::Nothing
        }),
        ({
            let (v, c, a) = key_step(u, Key::Enter, current, len, matches, lyrics, items, rows, pick);
            &&& !v.folder_mode && v.folder_query.len() == 0 && c == current
            &&& a == ActionView::OpenFolder(u.folder_query)
        }),
{
    let v = key_step(u, Key::Backspace, current, len, matches, lyrics, items, rows, pick).0;
    if u.folder_query.len() > 0 {
        assert(v.folder_query.push(u.folder_query.last()) == u.folder_query);
    }
}

/// Up and Down in the directory browser move one entry among its `items`
/// entries, stopping at the first and the last, and keep it open; Esc
/// closes it.
pub proof fn lemma_dir_menu_moves(u: UiView, current: int, len: int, matches: Seq<usize>, lyrics: int, items: int, rows: int, pick: int)
    requires
        in_dir_menu(u),
        items <= usize::MAX,
    ensures
        ({
            let (v, c, a) = key_step(u, Key::Up, current, len, matches, lyrics, items, rows, pick);
            &&& v.dir_menu_mode && c == current && a == ActionView::Nothing
            &&& u.dir_menu_sel > 0 ==> v.dir_menu_sel == u.dir_menu_sel - 1
            &&& u.dir_menu_sel == 0 ==> v.dir_menu_sel == 0
        }),
        ({
            let (v, c, a) = key_step(u, Key::Down, current, len, matches, lyrics, items, rows, pick);
            &&& v.dir_menu_mode && c == current && a == ActionView::Nothing
            &&& u.dir_menu_sel + 1 < items ==> v.dir_menu_sel == u.dir_menu_sel + 1
            &&& u.dir_menu_sel + 1 >= items ==> v.dir_menu_sel == u.dir_menu_sel
        }),
        ({
            let (v, c, a) = key_step(u, Key::Esc, current, len, matches, lyrics, items, rows, pick);
            !v.dir_menu_mode && c == current && a == ActionView::Nothing
        }),
{
}

/// Enter in the directory browser: the first entry loads the directory and
/// closes the browser, the second goes to the parent directory, any other
/// enters the folder of the selected entry.
pub proof fn lemma_dir_menu_enter(u: UiView, current: int, len: int, matches: Seq<usize>, lyrics: int, items: int, rows: int, pick: int)
    requires
        in_dir_menu(u),
    ensures
        ({
            let (v, c, a) = key_step(u, Key::Enter, current, len, matches, lyrics, items, rows, pick);
            &&& c == current && v.dir_menu_sel == u.dir_menu_sel
            &&& u.dir_menu_sel == 0 ==> a == ActionView::LoadDirectory && !v.dir_menu_mode
            &&& u.dir_menu_sel == 1 ==> a == ActionView::GoUpDirectory && v.dir_menu_mode
            &&& u.dir_menu_sel >= 2 ==> a == ActionView::EnterDirectory(u.dir_menu_sel)
                && v.dir_menu_mode
        }),
{
}

/// On the main screen `r` switches repeat and nothing else of the play
/// modes; `s` switches shuffle and nothing else; `i` switches lyric
/// following and nothing else. None of them changes the track.
pub proof fn lemma_mode_keys_switch_one_mode(u: UiView, current: int, len: int, matches: Seq<usize>, lyrics: int, items: int, rows: int, pick: int)
    requires
        on_main_screen(u),
    ensures
        ({
            let (v, c, a) = key_step(u, Key::Char('r'), current, len, matches, lyrics, items, rows, pick);
            v.repeat == !u.repeat && v.shuffle == u.shuffle && v.sync_lyrics == u.sync_lyrics
                && c == current && a == ActionView::Nothing
        }),
        ({
            let (v, c, a) = key_step(u, Key::Char('s'), current, len, matches, lyrics, items, rows, pick);
            v.shuffle == !u.shuffle && v.repeat == u.repeat && v.sync_lyrics == u.sync_lyrics
                && c == current && a == ActionView::Nothing
        }),
        ({
            let (v, c, a) = key_step(u, Key::Char('i'), current, len, matches, lyrics, items, rows, pick);
            v.sync_lyrics == !u.sync_lyrics && v.shuffle == u.shuffle && v.repeat == u.repeat
                && c == current && a == ActionView::Nothing
        }),
{
}

/// On the main screen `n` goes to the next track (wrapping; the drawn `pick`
/// when shuffling) and `p` to the previous one (wrapping), selecting it;
/// with no tracks neither moves.
pub proof fn lemma_next_and_previous(u: UiView, current: int, len: int, matches: Seq<usize>, lyrics: int, items: int, rows: int, pick: int)
    requires
        on_main_screen(u),
        0 <= current < len,
        0 <= pick < len,
        len <= usize::MAX,
    ensures
        ({
            let (v, c, a) = key_step(u, Key::Char('n'), current, len, matches, lyrics, items, rows, pick);
            &&& !u.shuffle && current + 1 < len ==> c == current + 1
            &&& !u.shuffle && current + 1 == len ==> c == 0
            &&& u.shuffle ==> c == pick
            &&& v.ui_sel == c && a == ActionView::Nothing
        }),
        ({
            let (v, c, a) = key_step(u, Key::Char('p'), current, len, matches, lyrics, items, rows, pick);
            &&& current > 0 ==> c == current - 1
            &&& current == 0 ==> c == len - 1
            &&& v.ui_sel == c && a == ActionView::Nothing
        }),
{
    if current + 1 == len {
        assert((current + 1) % len == 0) by (nonlinear_arith)
            requires
                current + 1 == len,
                len > 0,
        ;
    } else {
        assert((current + 1) % len == current + 1) by (nonlinear_arith)
            requires
                0 <= current + 1 < len,
        ;
    }
}

/// On the main screen with the lyrics not following the time and at least
/// one lyric line, Up and Down scroll the lyrics one line (stopping at the
/// first and the last line) and leave the track selection; otherwise they
/// move the track selection one row (stopping at the ends) and leave the
/// lyrics.
pub proof fn lemma_up_down_scroll_lyrics_or_tracks(u: UiView, current: int, len: int, matches: Seq<usize>, lyrics: int, items: int, rows: int, pick: int)
    requires
        on_main_screen(u),
        lyrics <= usize::MAX,
        len <= usize::MAX,
    ensures
        ({
            let (v, c, a) = key_step(u, Key::Up, current, len, matches, lyrics, items, rows, pick);
            &&& c == current && a == ActionView::Nothing && v.sync_lyrics == u.sync_lyrics
            &&& !u.sync_lyrics && lyrics > 0 ==> v.ui_sel == u.ui_sel && (if u.lrc_scroll > 0 {
                v.lrc_scroll == u.lrc_scroll - 1
            } else {
                v.lrc_scroll == 0
            })
            &&& !(!u.sync_lyrics && lyrics > 0) ==> v.lrc_scroll == u.lrc_scroll && (if u.ui_sel > 0 {
                v.ui_sel == u.ui_sel - 1
            } else {
                v.ui_sel == 0
            })
        }),
        ({
            let (v, c, a) = key_step(u, Key::Down, current, len, matches, lyrics, items, rows, pick);
            &&& c == current && a == ActionView::Nothing && v.sync_lyrics == u.sync_lyrics
            &&& !u.sync_lyrics && lyrics > 0 ==> v.ui_sel == u.ui_sel && (if u.lrc_scroll + 1
                < lyrics {
                v.lrc_scroll == u.lrc_scroll + 1
            } else {
                v.lrc_scroll == u.lrc_scroll
            })
            &&& !(!u.sync_lyrics && lyrics > 0) ==> v.lrc_scroll == u.lrc_scroll && (if u.ui_sel + 1
                < len {
                v.ui_sel == u.ui_sel + 1
            } else {
                v.ui_sel == u.ui_sel
            })
        }),
{
}

/// On the main screen Enter plays the selected track, when there are tracks.
pub proof fn lemma_enter_plays_selection(u: UiView, current: int, len: int, matches: Seq<usize>, lyrics: int, items: int, rows: int, pick: int)
    requires
        on_main_screen(u),
        len > 0,
    ensures
        ({
            let (v, c, a) = key_step(u, Key::Enter, current, len, matches, lyrics, items, rows, pick);
            c == u.ui_sel && v.ui_sel == u.ui_sel && a == ActionView::Nothing
        }),
{
}

/// The quit prompt: `y` (either case) quits; `n` (either case) and Esc close
/// the prompt without quitting.
pub proof fn lemma_quit_prompt(u: UiView, current: int, len: int, matches: Seq<usize>, lyrics: int, items: int, rows: int, pick: int)
    requires
        u.quit_prompt,
    ensures
        key_step(u, Key::Char('y'), current, len, matches, lyrics, items, rows, pick).2
            == ActionView::Quit,
        key_step(u, Key::Char('Y'), current, len, matches, lyrics, items, rows, pick).2
            == ActionView::Quit,
        ({
            let (v, c, a) = key_step(u, Key::Char('n'), current, len, matches, lyrics, items, rows, pick);
            !v.quit_prompt && c == current && a == ActionView::Nothing
        }),
        ({
            let (v, c, a) = key_step(u, Key::Esc, current, len, matches, lyrics, items, rows, pick);
            !v.quit_prompt && c == current && a == ActionView::Nothing
        }),
{
}

/// The list in front (browser, search matches, sort menu, lyrics when not
/// following the time, else the track list) is the one the wheel moves: one
/// row up or down, stopping at its ends, the others staying.
pub proof fn lemma_wheel_moves_front_list(u: UiView, len: int, matches: int, lyrics: int, items: int)
    requires
        !u.quit_prompt,
        len <= usize::MAX,
        matches <= usize::MAX,
        lyrics <= usize::MAX,
        items <= usize::MAX,
    ensures
        ({
            let v = wheel_step(u, Wheel::Up, len, matches, lyrics, items);
            let w = wheel_step(u, Wheel::Down, len, matches, lyrics, items);
            &&& u.dir_menu_mode ==> v.dir_menu_sel == (if u.dir_menu_sel > 0 { u.dir_menu_sel - 1 } else { 0 })
                && w.dir_menu_sel == (if u.dir_menu_sel + 1 < items { u.dir_menu_sel + 1 } else { u.dir_menu_sel as int })
                && v.ui_sel == u.ui_sel && w.ui_sel == u.ui_sel
            &&& !u.dir_menu_mode && u.search_mode ==> v.filtered_sel == (if u.filtered_sel > 0 { u.filtered_sel - 1 } else { 0 })
                && w.filtered_sel == (if u.filtered_sel + 1 < matches { u.filtered_sel + 1 } else { u.filtered_sel as int })
                && v.ui_sel == u.ui_sel && w.ui_sel == u.ui_sel
            &&& !u.dir_menu_mode && !u.search_mode && u.sort_mode ==> v.sort_sel == (if u.sort_sel > 0 { u.sort_sel - 1 } else { 0 })
                && w.sort_sel == (if u.sort_sel < 3 { u.sort_sel + 1 } else { u.sort_sel as int })
                && v.ui_sel == u.ui_sel && w.ui_sel == u.ui_sel
            &&& !u.dir_menu_mode && !u.search_mode && !u.sort_mode && !u.sync_lyrics && lyrics > 0
                ==> v.lrc_scroll == (if u.lrc_scroll > 0 { u.lrc_scroll - 1 } else { 0 })
                && w.lrc_scroll == (if u.lrc_scroll + 1 < lyrics { u.lrc_scroll + 1 } else { u.lrc_scroll as int })
                && v.ui_sel == u.ui_sel && w.ui_sel == u.ui_sel
            &&& !u.dir_menu_mode && !u.search_mode && !u.sort_mode && !(!u.sync_lyrics && lyrics > 0)
                ==> v.ui_sel == (if u.ui_sel > 0 { u.ui_sel - 1 } else { 0 })
                && w.ui_sel == (if u.ui_sel + 1 < len { u.ui_sel + 1 } else { u.ui_sel as int })
                && v.lrc_scroll == u.lrc_scroll && w.lrc_scroll == u.lrc_scroll
        }),
{
}

/// The wheel does nothing while the quit prompt is open.
pub proof fn lemma_wheel_ignored_by_quit_prompt(u: UiView, wheel: Wheel, len: int, matches: int, lyrics: int, items: int)
    requires
        u.quit_prompt,
    ensures
        wheel_step(u, wheel, len, matches, lyrics, items) == u,
{
}

/// After a track finishes: in repeat mode it plays again (shuffle or not);
/// else in shuffle mode the drawn track plays; else the next one, the first
/// after the last.
pub proof fn lemma_track_after_finish(current: int, len: int, shuffle: bool, pick: int)
    requires
        0 <= current < len,
    ensures
        after_finish(current, len, true, shuffle, pick) == current,
        after_finish(current, len, false, true, pick) == pick,
        current + 1 < len ==> after_finish(current, len, false, false, pick) == current + 1,
        current + 1 == len ==> after_finish(current, len, false, false, pick) == 0,
{
    if current + 1 == len {
        assert((current + 1) % len == 0) by (nonlinear_arith)
            requires
                current + 1 == len,
                len > 0,
        ;
    } else {
        assert((current + 1) % len == current + 1) by (nonlinear_arith)
            requires
                0 <= current + 1 < len,
        ;
    }
}

/// The lyric window of `height` lines over `lines` lines starts at or after
/// the first line and never runs past the last; while following the time it
/// holds the active line (and puts it half a window down when there is room
/// above and below); else it starts at the scrolled line, if it can.
pub proof fn lemma_lyric_window(scroll: int, sync: bool, active: int, lines: int, height: int)
    requires
        0 <= scroll,
        0 <= active,
        0 <= lines,
        0 <= height,
    ensures
        0 <= lyric_top(scroll, sync, active, lines, height),
        lines >= height ==> lyric_top(scroll, sync, active, lines, height) <= lines - height,
        lines < height ==> lyric_top(scroll, sync, active, lines, height) == 0,
        sync && active < lines && height > 0 ==> lyric_top(scroll, sync, active, lines, height)
            <= active < lyric_top(scroll, sync, active, lines, height) + height,
        sync && active >= height / 2 && active - height / 2 + height <= lines ==> lyric_top(
            scroll,
            sync,
            active,
            lines,
            height,
        ) == active - height / 2,
        !sync && scroll + height <= lines ==> lyric_top(scroll, sync, active, lines, height)
            == scroll,
{
}

/// The highlighted lyric line: with none reached, the first; else the last
/// of the lines reached from the first on, so that every line up to it is
/// reached and the one after it (if any) is not.
pub proof fn lemma_active_line(reached: Seq<bool>)
    requires
        reached.len() > 0,
    ensures
        0 <= active_of(reached) < reached.len(),
        !reached[0] ==> active_of(reached) == 0,
        reached[0] ==> forall|i: int| 0 <= i <= active_of(reached) ==> #[trigger] reached[i],
        reached[0] && active_of(reached) + 1 < reached.len() ==> !reached[active_of(reached) + 1int],
{
    lemma_leading_reached(reached);
}

proof fn lemma_leading_reached(reached: Seq<bool>)
    ensures
        leading_reached(reached) <= reached.len(),
        forall|i: int| 0 <= i < leading_reached(reached) ==> #[trigger] reached[i],
        leading_reached(reached) < reached.len() ==> !reached[leading_reached(reached) as int],
    decreases reached.len(),
{
    if reached.len() > 0 && reached[0] {
        let t = reached.drop_first();
        lemma_leading_reached(t);
        assert forall|i: int| 0 <= i < leading_reached(reached) implies #[trigger] reached[i] by {
            if i > 0 {
                assert(reached[i] == t[i - 1]);
            }
        }
        if leading_reached(reached) < reached.len() {
            assert(reached[leading_reached(reached) as int] == t[leading_reached(t) as int]);
        }
    }
}

} // verus!
