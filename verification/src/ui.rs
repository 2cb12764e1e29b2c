//! The player's screen state and how it answers keys, mouse wheel turns and
//! the passing of time: which overlay is open, what is selected and shown,
//! and what the player must do next.

use vstd::prelude::*;
use crate::menu::{followed, follow_selection};
use crate::playlist::{Playlist, after_finish, next_index, next_of, prev_index, prev_of};
use crate::text::string_of;

verus! {

/// A key, as far as the player tells keys apart.
#[derive(Clone, Copy)]
pub enum Key {
    Char(char),
    Up,
    Down,
    Left,
    Right,
    Enter,
    Esc,
    Backspace,
    Other,
}

/// A turn of the mouse wheel.
#[derive(Clone, Copy)]
pub enum Wheel {
    Up,
    Down,
}

/// What the player must do after an input, beyond the state change.
pub enum Action {
    Nothing,
    Quit,
    PlayPause,
    SeekForward,
    SeekBackward,
    VolumeUp,
    VolumeDown,
    /// Append the directory the browser shows.
    LoadDirectory,
    /// Move the browser to the parent directory.
    GoUpDirectory,
    /// Move the browser into the folder of this entry.
    EnterDirectory(usize),
    /// Sort the playlist by this option of the sort menu.
    SortPlaylist(usize),
    /// Open this typed folder path.
    OpenFolder(String),
}

/// An action with its text as characters.
pub enum ActionView {
    Nothing,
    Quit,
    PlayPause,
    SeekForward,
    SeekBackward,
    VolumeUp,
    VolumeDown,
    LoadDirectory,
    GoUpDirectory,
    EnterDirectory(usize),
    SortPlaylist(usize),
    OpenFolder(Seq<char>),
}

impl View for Action {
    type V = ActionView;

    open spec fn view(&self) -> ActionView {
        match self {
            Action::Nothing => ActionView::Nothing,
            Action::Quit => ActionView::Quit,
            Action::PlayPause => ActionView::PlayPause,
            Action::SeekForward => ActionView::SeekForward,
            Action::SeekBackward => ActionView::SeekBackward,
            Action::VolumeUp => ActionView::VolumeUp,
            Action::VolumeDown => ActionView::VolumeDown,
            Action::LoadDirectory => ActionView::LoadDirectory,
            Action::GoUpDirectory => ActionView::GoUpDirectory,
            Action::EnterDirectory(i) => ActionView::EnterDirectory(*i),
            Action::SortPlaylist(i) => ActionView::SortPlaylist(*i),
            Action::OpenFolder(s) => ActionView::OpenFolder(s@),
        }
    }
}

/// The screen state of the player.
pub struct Ui {
    /// The selected row of the track list.
    pub ui_sel: usize,
    /// The first row shown of the track list.
    pub scroll: usize,
    pub search_mode: bool,
    pub search_query: Vec<char>,
    /// The selected row among the search matches.
    pub filtered_sel: usize,
    pub filtered_scroll: usize,
    pub folder_mode: bool,
    pub folder_query: Vec<char>,
    pub dir_menu_mode: bool,
    pub dir_menu_sel: usize,
    pub dir_menu_scroll: usize,
    pub sort_mode: bool,
    pub sort_sel: usize,
    pub shuffle: bool,
    pub repeat: bool,
    /// The track that is loaded in the engine (`usize::MAX` before the first).
    pub loaded: usize,
    /// The first lyric line shown.
    pub lrc_scroll: usize,
    /// Whether the lyrics follow the playing time.
    pub sync_lyrics: bool,
    pub force_redraw: bool,
    pub quit_prompt: bool,
    /// Whether the loaded track's picture has been sent to the terminal.
    pub art_loaded: bool,
}

/// The screen state with its texts as characters.
pub struct UiView {
    pub ui_sel: usize,
    pub scroll: usize,
    pub search_mode: bool,
    pub search_query: Seq<char>,
    pub filtered_sel: usize,
    pub filtered_scroll: usize,
    pub folder_mode: bool,
    pub folder_query: Seq<char>,
    pub dir_menu_mode: bool,
    pub dir_menu_sel: usize,
    pub dir_menu_scroll: usize,
    pub sort_mode: bool,
    pub sort_sel: usize,
    pub shuffle: bool,
    pub repeat: bool,
    pub loaded: usize,
    pub lrc_scroll: usize,
    pub sync_lyrics: bool,
    pub force_redraw: bool,
    pub quit_prompt: bool,
    /// Whether the loaded track's picture has been sent to the terminal.
    pub art_loaded: bool,
}

impl View for Ui {
    type V = UiView;

    open spec fn view(&self) -> UiView {
        UiView {
            ui_sel: self.ui_sel,
            scroll: self.scroll,
            search_mode: self.search_mode,
            search_query: self.search_query@,
            filtered_sel: self.filtered_sel,
            filtered_scroll: self.filtered_scroll,
            folder_mode: self.folder_mode,
            folder_query: self.folder_query@,
            dir_menu_mode: self.dir_menu_mode,
            dir_menu_sel: self.dir_menu_sel,
            dir_menu_scroll: self.dir_menu_scroll,
            sort_mode: self.sort_mode,
            sort_sel: self.sort_sel,
            shuffle: self.shuffle,
            repeat: self.repeat,
            loaded: self.loaded,
            lrc_scroll: self.lrc_scroll,
            sync_lyrics: self.sync_lyrics,
            force_redraw: self.force_redraw,
            quit_prompt: self.quit_prompt,
            art_loaded: self.art_loaded,
        }
    }
}

/// A text without its last character, if any (what `String::pop` leaves).
pub open spec fn without_last(s: Seq<char>) -> Seq<char> {
    if s.len() > 0 {
        s.drop_last()
    } else {
        s
    }
}

/// `n - 1`, or 0 for 0.
pub open spec fn last_row(n: int) -> int {
    if n > 0 {
        n - 1
    } else {
        0
    }
}

/// The quit prompt: `y` quits, `n` or Esc closes the prompt.
pub open spec fn quit_prompt_step(u: UiView, key: Key) -> (UiView, ActionView) {
    match key {
        Key::Char(c) => {
            if c == 'y' || c == 'Y' {
                (u, ActionView::Quit)
            } else if c == 'n' || c == 'N' {
                (UiView { quit_prompt: false, force_redraw: true, ..u }, ActionView::Nothing)
            } else {
                (u, ActionView::Nothing)
            }
        },
        Key::Esc => (UiView { quit_prompt: false, force_redraw: true, ..u }, ActionView::Nothing),
        _ => (u, ActionView::Nothing),
    }
}

/// The directory browser: Esc closes it, Up and Down move in its `items`
/// entries, Enter loads the directory (first entry), goes up (second) or
/// enters the selected folder.
pub open spec fn dir_menu_step(u: UiView, key: Key, items: int) -> (UiView, ActionView) {
    match key {
        Key::Esc => (UiView { dir_menu_mode: false, force_redraw: true, ..u }, ActionView::Nothing),
        Key::Up => if u.dir_menu_sel > 0 {
            (
                UiView { dir_menu_sel: (u.dir_menu_sel - 1) as usize, force_redraw: true, ..u },
                ActionView::Nothing,
            )
        } else {
            (u, ActionView::Nothing)
        },
        Key::Down => if u.dir_menu_sel < last_row(items) {
            (
                UiView { dir_menu_sel: (u.dir_menu_sel + 1) as usize, force_redraw: true, ..u },
                ActionView::Nothing,
            )
        } else {
            (u, ActionView::Nothing)
        },
        Key::Enter => if u.dir_menu_sel == 0 {
            (
                UiView { dir_menu_mode: false, force_redraw: true, ..u },
                ActionView::LoadDirectory,
            )
        } else if u.dir_menu_sel == 1 {
            (UiView { force_redraw: true, ..u }, ActionView::GoUpDirectory)
        } else {
            (UiView { force_redraw: true, ..u }, ActionView::EnterDirectory(u.dir_menu_sel))
        },
        _ => (u, ActionView::Nothing),
    }
}

/// The sort menu: Esc closes it, Up and Down move among its four options,
/// Enter closes it and sorts a non-empty playlist by the selected option.
pub open spec fn sort_menu_step(u: UiView, key: Key, len: int) -> (UiView, ActionView) {
    match key {
        Key::Esc => (UiView { sort_mode: false, force_redraw: true, ..u }, ActionView::Nothing),
        Key::Up => if u.sort_sel > 0 {
            (UiView { sort_sel: (u.sort_sel - 1) as usize, force_redraw: true, ..u }, ActionView::Nothing)
        } else {
            (u, ActionView::Nothing)
        },
        Key::Down => if u.sort_sel < 3 {
            (UiView { sort_sel: (u.sort_sel + 1) as usize, force_redraw: true, ..u }, ActionView::Nothing)
        } else {
            (u, ActionView::Nothing)
        },
        Key::Enter => (
            UiView { sort_mode: false, force_redraw: true, ..u },
            if len > 0 {
                ActionView::SortPlaylist(u.sort_sel)
            } else {
                ActionView::Nothing
            },
        ),
        _ => (u, ActionView::Nothing),
    }
}

/// The folder prompt: typed characters and Backspace edit the path, Enter
/// opens it and clears it, Esc closes the prompt.
pub open spec fn folder_step(u: UiView, key: Key) -> (UiView, ActionView) {
    match key {
        Key::Enter => (
            UiView { folder_mode: false, folder_query: Seq::empty(), force_redraw: true, ..u },
            ActionView::OpenFolder(u.folder_query),
        ),
        Key::Esc => (UiView { folder_mode: false, force_redraw: true, ..u }, ActionView::Nothing),
        Key::Backspace => (
            UiView { folder_query: without_last(u.folder_query), force_redraw: true, ..u },
            ActionView::Nothing,
        ),
        Key::Char(c) => (
            UiView { folder_query: u.folder_query.push(c), force_redraw: true, ..u },
            ActionView::Nothing,
        ),
        _ => (u, ActionView::Nothing),
    }
}

/// The search: typed characters and Backspace edit the query (and go back to
/// the first match), Up and Down move among the matches, Esc closes the
/// search, and Enter closes it and plays the selected match, scrolling the
/// list so that it shows about mid-screen. Returns the new state and the
/// new current track.
pub open spec fn search_step(u: UiView, key: Key, matches: Seq<usize>, rows: int, current: int, len: int) -> (UiView, int) {
    let count = matches.len() as int;
    match key {
        Key::Enter => if count > 0 {
            let pick = matches[if u.filtered_sel < count - 1 {
                u.filtered_sel as int
            } else {
                count - 1
            }];
            (
                UiView {
                    search_mode: false,
                    ui_sel: pick,
                    scroll: (if pick >= rows / 2 {
                        pick - rows / 2
                    } else {
                        0
                    }) as usize,
                    force_redraw: true,
                    ..u
                },
                if len > 0 {
                    pick as int
                } else {
                    current
                },
            )
        } else {
            (UiView { search_mode: false, force_redraw: true, ..u }, current)
        },
        Key::Esc => (UiView { search_mode: false, force_redraw: true, ..u }, current),
        Key::Backspace => (
            UiView {
                search_query: without_last(u.search_query),
                filtered_sel: 0,
                force_redraw: true,
                ..u
            },
            current,
        ),
        Key::Up => if u.filtered_sel > 0 {
            (UiView { filtered_sel: (u.filtered_sel - 1) as usize, force_redraw: true, ..u }, current)
        } else {
            (u, current)
        },
        Key::Down => if u.filtered_sel < last_row(count) {
            (UiView { filtered_sel: (u.filtered_sel + 1) as usize, force_redraw: true, ..u }, current)
        } else {
            (u, current)
        },
        Key::Char(c) => (
            UiView {
                search_query: u.search_query.push(c),
                filtered_sel: 0,
                force_redraw: true,
                ..u
            },
            current,
        ),
        _ => (u, current),
    }
}

/// A character typed on the main screen (see `normal_step`).
pub open spec fn main_char_step(u: UiView, c: char, current: int, len: int, pick: int) -> (UiView, int, ActionView) {
    if c == 'f' {
        (
            UiView { folder_mode: true, folder_query: Seq::empty(), force_redraw: true, ..u },
            current,
            ActionView::Nothing,
        )
    } else if c == 'S' {
        (
            UiView {
                search_mode: true,
                search_query: Seq::empty(),
                filtered_sel: 0,
                force_redraw: true,
                ..u
            },
            current,
            ActionView::Nothing,
        )
    } else if c == 'q' {
        (UiView { quit_prompt: true, force_redraw: true, ..u }, current, ActionView::Nothing)
    } else if c == ' ' {
        (u, current, if len > 0 {
            ActionView::PlayPause
        } else {
            ActionView::Nothing
        })
    } else if c == 'n' {
        if len > 0 {
            let next = if u.shuffle {
                pick
            } else {
                next_of(current, len)
            };
            (UiView { ui_sel: next as usize, force_redraw: true, ..u }, next, ActionView::Nothing)
        } else {
            (u, current, ActionView::Nothing)
        }
    } else if c == 'p' {
        if len > 0 {
            let prev = prev_of(current, len);
            (UiView { ui_sel: prev as usize, force_redraw: true, ..u }, prev, ActionView::Nothing)
        } else {
            (u, current, ActionView::Nothing)
        }
    } else if c == 's' {
        (UiView { shuffle: !u.shuffle, force_redraw: true, ..u }, current, ActionView::Nothing)
    } else if c == 'r' {
        (UiView { repeat: !u.repeat, force_redraw: true, ..u }, current, ActionView::Nothing)
    } else if c == 'i' {
        (UiView { sync_lyrics: !u.sync_lyrics, force_redraw: true, ..u }, current, ActionView::Nothing)
    } else if c == 'b' {
        (u, current, if len > 0 {
            ActionView::SeekBackward
        } else {
            ActionView::Nothing
        })
    } else if c == '=' || c == '+' {
        (u, current, ActionView::VolumeUp)
    } else if c == '-' {
        (u, current, ActionView::VolumeDown)
    } else {
        (u, current, ActionView::Nothing)
    }
}

/// The main screen. Keys: Esc opens the sort menu, `f` the folder prompt,
/// `S` the search, `q` the quit prompt; space pauses; `n` and `p` go to the
/// next (or, shuffling, the drawn `pick`) and previous track; `s`, `r`, `i`
/// switch shuffle, repeat and lyric following; Right, Left and `b` seek; Up
/// and Down scroll the lyrics when they do not follow the time, else move
/// in the track list; Enter plays the selected track; `+`, `=` and `-` set
/// the volume. Returns the new state, the new current track, and the action.
pub open spec fn normal_step(u: UiView, key: Key, current: int, len: int, lyrics: int, pick: int) -> (UiView, int, ActionView) {
    let redraw = UiView { force_redraw: true, ..u };
    match key {
        Key::Esc => (UiView { sort_mode: true, sort_sel: 0, force_redraw: true, ..u }, current, ActionView::Nothing),
        Key::Char(c) => main_char_step(u, c, current, len, pick),
        Key::Right => (u, current, if len > 0 {
            ActionView::SeekForward
        } else {
            ActionView::Nothing
        }),
        Key::Left => (u, current, if len > 0 {
            ActionView::SeekBackward
        } else {
            ActionView::Nothing
        }),
        Key::Up => if !u.sync_lyrics && lyrics > 0 {
            if u.lrc_scroll > 0 {
                (UiView { lrc_scroll: (u.lrc_scroll - 1) as usize, ..redraw }, current, ActionView::Nothing)
            } else {
                (u, current, ActionView::Nothing)
            }
        } else if u.ui_sel > 0 {
            (UiView { ui_sel: (u.ui_sel - 1) as usize, ..redraw }, current, ActionView::Nothing)
        } else {
            (u, current, ActionView::Nothing)
        },
        Key::Down => if !u.sync_lyrics && lyrics > 0 {
            if u.lrc_scroll < lyrics - 1 {
                (UiView { lrc_scroll: (u.lrc_scroll + 1) as usize, ..redraw }, current, ActionView::Nothing)
            } else {
                (u, current, ActionView::Nothing)
            }
        } else if u.ui_sel < last_row(len) {
            (UiView { ui_sel: (u.ui_sel + 1) as usize, ..redraw }, current, ActionView::Nothing)
        } else {
            (u, current, ActionView::Nothing)
        },
        Key::Enter => if len > 0 {
            (redraw, u.ui_sel as int, ActionView::Nothing)
        } else {
            (u, current, ActionView::Nothing)
        },
        _ => (u, current, ActionView::Nothing),
    }
}

/// A key press: the quit prompt, the directory browser, the sort menu, the
/// folder prompt and the search, when open, take it in that order; else the
/// main screen does. Returns the new state, the new current track and the
/// action.
pub open spec fn key_step(u: UiView, key: Key, current: int, len: int, matches: Seq<usize>, lyrics: int, items: int, rows: int, pick: int) -> (UiView, int, ActionView) {
    if u.quit_prompt {
        let (v, a) = quit_prompt_step(u, key);
        (v, current, a)
    } else if u.dir_menu_mode {
        let (v, a) = dir_menu_step(u, key, items);
        (v, current, a)
    } else if u.sort_mode {
        let (v, a) = sort_menu_step(u, key, len);
        (v, current, a)
    } else if u.folder_mode {
        let (v, a) = folder_step(u, key);
        (v, current, a)
    } else if u.search_mode {
        let (v, c) = search_step(u, key, matches, rows, current, len);
        (v, c, ActionView::Nothing)
    } else {
        normal_step(u, key, current, len, lyrics, pick)
    }
}

/// A turn of the mouse wheel moves, by one row, whatever the screen shows in
/// front: the browser, the search matches, the sort menu, the lyrics when
/// they do not follow the time, or the track list; not while the quit prompt
/// is open.
pub open spec fn wheel_step(u: UiView, wheel: Wheel, len: int, matches: int, lyrics: int, items: int) -> UiView {
    if u.quit_prompt {
        u
    } else {
        match wheel {
            Wheel::Up => if u.dir_menu_mode {
                if u.dir_menu_sel > 0 {
                    UiView { dir_menu_sel: (u.dir_menu_sel - 1) as usize, force_redraw: true, ..u }
                } else {
                    u
                }
            } else if u.search_mode {
                if u.filtered_sel > 0 {
                    UiView { filtered_sel: (u.filtered_sel - 1) as usize, force_redraw: true, ..u }
                } else {
                    u
                }
            } else if u.sort_mode {
                if u.sort_sel > 0 {
                    UiView { sort_sel: (u.sort_sel - 1) as usize, force_redraw: true, ..u }
                } else {
                    u
                }
            } else if !u.sync_lyrics && lyrics > 0 {
                if u.lrc_scroll > 0 {
                    UiView { lrc_scroll: (u.lrc_scroll - 1) as usize, force_redraw: true, ..u }
                } else {
                    u
                }
            } else {
                if u.ui_sel > 0 {
                    UiView { ui_sel: (u.ui_sel - 1) as usize, force_redraw: true, ..u }
                } else {
                    u
                }
            },
            Wheel::Down => if u.dir_menu_mode {
                if u.dir_menu_sel < last_row(items) {
                    UiView { dir_menu_sel: (u.dir_menu_sel + 1) as usize, force_redraw: true, ..u }
                } else {
                    u
                }
            } else if u.search_mode {
                if u.filtered_sel < last_row(matches) {
                    UiView { filtered_sel: (u.filtered_sel + 1) as usize, force_redraw: true, ..u }
                } else {
                    u
                }
            } else if u.sort_mode {
                if u.sort_sel < 3 {
                    UiView { sort_sel: (u.sort_sel + 1) as usize, force_redraw: true, ..u }
                } else {
                    u
                }
            } else if !u.sync_lyrics && lyrics > 0 {
                if u.lrc_scroll < lyrics - 1 {
                    UiView { lrc_scroll: (u.lrc_scroll + 1) as usize, force_redraw: true, ..u }
                } else {
                    u
                }
            } else {
                if u.ui_sel < last_row(len) {
                    UiView { ui_sel: (u.ui_sel + 1) as usize, force_redraw: true, ..u }
                } else {
                    u
                }
            },
        }
    }
}

/// The selection points into the track list, or is 0 while the list is
/// empty.
pub open spec fn selection_fits(u: UiView, len: int) -> bool {
    if len == 0 {
        u.ui_sel == 0
    } else {
        u.ui_sel < len
    }
}

impl Ui {
    /// The screen at start: the track list, nothing loaded, lyrics following
    /// the time, to be drawn.
    pub fn new() -> (u: Ui)
        ensures
            u@ == (UiView {
                ui_sel: 0,
                scroll: 0,
                search_mode: false,
                search_query: Seq::empty(),
                filtered_sel: 0,
                filtered_scroll: 0,
                folder_mode: false,
                folder_query: Seq::empty(),
                dir_menu_mode: false,
                dir_menu_sel: 0,
                dir_menu_scroll: 0,
                sort_mode: false,
                sort_sel: 0,
                shuffle: false,
                repeat: false,
                loaded: usize::MAX,
                lrc_scroll: 0,
                sync_lyrics: true,
                force_redraw: true,
                quit_prompt: false,
                art_loaded: false,
            }),
    {
        Ui {
            ui_sel: 0,
            scroll: 0,
            search_mode: false,
            search_query: Vec::new(),
            filtered_sel: 0,
            filtered_scroll: 0,
            folder_mode: false,
            folder_query: Vec::new(),
            dir_menu_mode: false,
            dir_menu_sel: 0,
            dir_menu_scroll: 0,
            sort_mode: false,
            sort_sel: 0,
            shuffle: false,
            repeat: false,
            loaded: usize::MAX,
            lrc_scroll: 0,
            sync_lyrics: true,
            force_redraw: true,
            quit_prompt: false,
            art_loaded: false,
        }
    }

    /// The search query as text.
    pub fn search_text(&self) -> (s: String)
        ensures
            s@ == self.search_query@,
    {
        string_of(self.search_query.as_slice())
    }

    /// The folder path typed so far.
    pub fn folder_text(&self) -> (s: String)
        ensures
            s@ == self.folder_query@,
    {
        string_of(self.folder_query.as_slice())
    }

    /// Answers a key press, given the track count and current track, the
    /// positions of the search matches, the number of lyric lines and of
    /// browser entries, the screen's rows, and the track a shuffle would draw.
    /// Returns the new current track and the action.
    pub fn step_key(
        &mut self,
        key: Key,
        current: usize,
        len: usize,
        matches: &Vec<usize>,
        lyrics: usize,
        items: usize,
        rows: u16,
        pick: usize,
    ) -> (r: (usize, Action))
        requires
            selection_fits(old(self)@, len as int),
            len > 0 ==> current < len,
            pick < len || len == 0,
        ensures
            (final(self)@, r.0 as int, r.1@) == key_step(
                old(self)@,
                key,
                current as int,
                len as int,
                matches@,
                lyrics as int,
                items as int,
                rows as int,
                pick as int,
            ),
    {
        if self.quit_prompt {
            (current, self.step_quit_key(key))
        } else if self.dir_menu_mode {
            (current, self.step_dir_menu_key(key, items))
        } else if self.sort_mode {
            (current, self.step_sort_key(key, len))
        } else if self.folder_mode {
            (current, self.step_folder_key(key))
        } else if self.search_mode {
            (self.step_search_key(key, current, len, matches, rows), Action::Nothing)
        } else {
            self.step_main_key(key, current, len, lyrics, pick)
        }
    }

    /// Answers a key press at the quit prompt.
    fn step_quit_key(&mut self, key: Key) -> (r: Action)
        ensures
            (final(self)@, r@) == quit_prompt_step(old(self)@, key),
    {
        match key {
            Key::Char(c) => {
                if c == 'y' || c == 'Y' {
                    return Action::Quit;
                } else if c == 'n' || c == 'N' {
                    self.quit_prompt = false;
                    self.force_redraw = true;
                }
            },
            Key::Esc => {
                self.quit_prompt = false;
                self.force_redraw = true;
            },
            _ => {},
        }
        Action::Nothing
    }

    /// Answers a key press in the directory browser of `items` entries.
    fn step_dir_menu_key(&mut self, key: Key, items: usize) -> (r: Action)
        ensures
            (final(self)@, r@) == dir_menu_step(old(self)@, key, items as int),
    {
        match key {
            Key::Esc => {
                self.dir_menu_mode = false;
                self.force_redraw = true;
                Action::Nothing
            },
            Key::Up => {
                if self.dir_menu_sel > 0 {
                    self.dir_menu_sel = self.dir_menu_sel - 1;
                    self.force_redraw = true;
                }
                Action::Nothing
            },
            Key::Down => {
                if self.dir_menu_sel < items.saturating_sub(1) {
                    self.dir_menu_sel = self.dir_menu_sel + 1;
                    self.force_redraw = true;
                }
                Action::Nothing
            },
            Key::Enter => {
                self.force_redraw = true;
                if self.dir_menu_sel == 0 {
                    self.dir_menu_mode = false;
                    Action::LoadDirectory
                } else if self.dir_menu_sel == 1 {
                    Action::GoUpDirectory
                } else {
                    Action::EnterDirectory(self.dir_menu_sel)
                }
            },
            _ => Action::Nothing,
        }
    }

    /// Answers a key press in the sort menu.
    fn step_sort_key(&mut self, key: Key, len: usize) -> (r: Action)
        ensures
            (final(self)@, r@) == sort_menu_step(old(self)@, key, len as int),
    {
        match key {
            Key::Esc => {
                self.sort_mode = false;
                self.force_redraw = true;
                Action::Nothing
            },
            Key::Up => {
                if self.sort_sel > 0 {
                    self.sort_sel = self.sort_sel - 1;
                    self.force_redraw = true;
                }
                Action::Nothing
            },
            Key::Down => {
                if self.sort_sel < 3 {
                    self.sort_sel = self.sort_sel + 1;
                    self.force_redraw = true;
                }
                Action::Nothing
            },
            Key::Enter => {
                self.sort_mode = false;
                self.force_redraw = true;
                if len > 0 {
                    Action::SortPlaylist(self.sort_sel)
                } else {
                    Action::Nothing
                }
            },
            _ => Action::Nothing,
        }
    }

    /// Answers a key press at the folder prompt.
    fn step_folder_key(&mut self, key: Key) -> (r: Action)
        ensures
            (final(self)@, r@) == folder_step(old(self)@, key),
    {
        match key {
            Key::Enter => {
                self.folder_mode = false;
                let typed = string_of(self.folder_query.as_slice());
                self.folder_query = Vec::new();
                self.force_redraw = true;
                Action::OpenFolder(typed)
            },
            Key::Esc => {
                self.folder_mode = false;
                self.force_redraw = true;
                Action::Nothing
            },
            Key::Backspace => {
                self.folder_query.pop();
                self.force_redraw = true;
                Action::Nothing
            },
            Key::Char(c) => {
                self.folder_query.push(c);
                self.force_redraw = true;
                Action::Nothing
            },
            _ => Action::Nothing,
        }
    }

    /// Answers a key press in the search; returns the new current track.
    fn step_search_key(&mut self, key: Key, current: usize, len: usize, matches: &Vec<usize>, rows: u16) -> (r: usize)
        ensures
            (final(self)@, r as int) == search_step(old(self)@, key, matches@, rows as int, current as int, len as int),
    {
        let count = matches.len();
        match key {
            Key::Enter => {
                self.search_mode = false;
                let mut cur = current;
                if count > 0 {
                    let at = if self.filtered_sel < count - 1 {
                        self.filtered_sel
                    } else {
                        count - 1
                    };
                    self.ui_sel = matches[at];
                    self.scroll = self.ui_sel.saturating_sub((rows / 2) as usize);
                    if len > 0 {
                        cur = self.ui_sel;
                    }
                }
                self.force_redraw = true;
                cur
            },
            Key::Esc => {
                self.search_mode = false;
                self.force_redraw = true;
                current
            },
            Key::Backspace => {
                self.search_query.pop();
                self.filtered_sel = 0;
                self.force_redraw = true;
                current
            },
            Key::Up => {
                if self.filtered_sel > 0 {
                    self.filtered_sel = self.filtered_sel - 1;
                    self.force_redraw = true;
                }
                current
            },
            Key::Down => {
                if self.filtered_sel < count.saturating_sub(1) {
                    self.filtered_sel = self.filtered_sel + 1;
                    self.force_redraw = true;
                }
                current
            },
            Key::Char(c) => {
                self.search_query.push(c);
                self.filtered_sel = 0;
                self.force_redraw = true;
                current
            },
            _ => current,
        }
    }

    /// Answers a character typed on the main screen.
    fn step_main_char(&mut self, c: char, current: usize, len: usize, pick: usize) -> (r: (usize, Action))
        requires
            len > 0 ==> current < len,
            pick < len || len == 0,
        ensures
            (final(self)@, r.0 as int, r.1@) == main_char_step(old(self)@, c, current as int, len as int, pick as int),
    {
        if c == 'f' {
            self.folder_mode = true;
            self.folder_query = Vec::new();
            self.force_redraw = true;
            (current, Action::Nothing)
        } else if c == 'S' {
            self.search_mode = true;
            self.search_query = Vec::new();
            self.filtered_sel = 0;
            self.force_redraw = true;
            (current, Action::Nothing)
        } else if c == 'q' {
            self.quit_prompt = true;
            self.force_redraw = true;
            (current, Action::Nothing)
        } else if c == ' ' {
            if len > 0 {
                (current, Action::PlayPause)
            } else {
                (current, Action::Nothing)
            }
        } else if c == 'n' {
            if len > 0 {
                let next = if self.shuffle {
                    pick
                } else {
                    next_index(current, len)
                };
                self.ui_sel = next;
                self.force_redraw = true;
                (next, Action::Nothing)
            } else {
                (current, Action::Nothing)
            }
        } else if c == 'p' {
            if len > 0 {
                let prev = prev_index(current, len);
                self.ui_sel = prev;
                self.force_redraw = true;
                (prev, Action::Nothing)
            } else {
                (current, Action::Nothing)
            }
        } else if c == 's' {
            self.shuffle = !self.shuffle;
            self.force_redraw = true;
            (current, Action::Nothing)
        } else if c == 'r' {
            self.repeat = !self.repeat;
            self.force_redraw = true;
            (current, Action::Nothing)
        } else if c == 'i' {
            self.sync_lyrics = !self.sync_lyrics;
            self.force_redraw = true;
            (current, Action::Nothing)
        } else if c == 'b' {
            if len > 0 {
                (current, Action::SeekBackward)
            } else {
                (current, Action::Nothing)
            }
        } else if c == '=' || c == '+' {
            (current, Action::VolumeUp)
        } else if c == '-' {
            (current, Action::VolumeDown)
        } else {
            (current, Action::Nothing)
        }
    }

    /// Answers a key press on the main screen.
    fn step_main_key(&mut self, key: Key, current: usize, len: usize, lyrics: usize, pick: usize) -> (r: (
        usize,
        Action,
    ))
        requires
            selection_fits(old(self)@, len as int),
            len > 0 ==> current < len,
            pick < len || len == 0,
        ensures
            (final(self)@, r.0 as int, r.1@) == normal_step(
                old(self)@,
                key,
                current as int,
                len as int,
                lyrics as int,
                pick as int,
            ),
    {
        match key {
            Key::Esc => {
                self.sort_mode = true;
                self.sort_sel = 0;
                self.force_redraw = true;
                (current, Action::Nothing)
            },
            Key::Char(c) => self.step_main_char(c, current, len, pick),
            Key::Right => {
                if len > 0 {
                    (current, Action::SeekForward)
                } else {
                    (current, Action::Nothing)
                }
            },
            Key::Left => {
                if len > 0 {
                    (current, Action::SeekBackward)
                } else {
                    (current, Action::Nothing)
                }
            },
            Key::Up => {
                if !self.sync_lyrics && lyrics > 0 {
                    if self.lrc_scroll > 0 {
                        self.lrc_scroll = self.lrc_scroll - 1;
                        self.force_redraw = true;
                    }
                } else if self.ui_sel > 0 {
                    self.ui_sel = self.ui_sel - 1;
                    self.force_redraw = true;
                }
                (current, Action::Nothing)
            },
            Key::Down => {
                if !self.sync_lyrics && lyrics > 0 {
                    if self.lrc_scroll < lyrics - 1 {
                        self.lrc_scroll = self.lrc_scroll + 1;
                        self.force_redraw = true;
                    }
                } else if self.ui_sel < len.saturating_sub(1) {
                    self.ui_sel = self.ui_sel + 1;
                    self.force_redraw = true;
                }
                (current, Action::Nothing)
            },
            Key::Enter => {
                if len > 0 {
                    self.force_redraw = true;
                    (self.ui_sel, Action::Nothing)
                } else {
                    (current, Action::Nothing)
                }
            },
            _ => (current, Action::Nothing),
        }
    }
}


/// Whether a key press would draw a random track: `n` on the main screen
/// while shuffling, with tracks to choose from.
pub open spec fn draws_track(u: UiView, key: Key, len: int) -> bool {
    &&& !u.quit_prompt
    &&& !u.dir_menu_mode
    &&& !u.sort_mode
    &&& !u.folder_mode
    &&& !u.search_mode
    &&& key == Key::Char('n')
    &&& u.shuffle
    &&& len > 0
}

/// The number of lines at the start of `reached` that are reached.
pub open spec fn leading_reached(reached: Seq<bool>) -> nat
    decreases reached.len(),
{
    if reached.len() == 0 || !reached[0] {
        0
    } else {
        1 + leading_reached(reached.drop_first())
    }
}

/// The line to highlight: the last of the lines reached before the first
/// that is not, or the first line when none is reached.
pub open spec fn active_of(reached: Seq<bool>) -> nat {
    if leading_reached(reached) > 0 {
        (leading_reached(reached) - 1) as nat
    } else {
        0
    }
}

/// The lyric line to highlight, given for each line (in order) whether the
/// playing time has reached it.
pub fn active_line(reached: &Vec<bool>) -> (r: usize)
    ensures
        r == active_of(reached@),
{
    let mut i: usize = 0;
    assert(reached@.skip(0) == reached@);
    while i < reached.len() && reached[i]
        invariant
            i <= reached.len(),
            leading_reached(reached@) == i + leading_reached(reached@.skip(i as int)),
        decreases reached.len() - i,
    {
        assert(reached@.skip(i as int).drop_first() == reached@.skip(i + 1));
        i = i + 1;
    }
    if i > 0 {
        i - 1
    } else {
        0
    }
}

/// The first lyric line shown: when the lyrics follow the time, half a
/// window above the active line; never so far down that the window would
/// run past the last line.
pub open spec fn lyric_top(scroll: int, sync: bool, active: int, lines: int, height: int) -> int {
    let s = if sync {
        if active >= height / 2 {
            active - height / 2
        } else {
            0
        }
    } else {
        scroll
    };
    let max = if lines >= height {
        lines - height
    } else {
        0
    };
    if s > max {
        max
    } else {
        s
    }
}

impl Ui {
    /// Answers a key press and applies it to the playlist; draws a random
    /// track for `n` while shuffling.
    pub fn handle_key(
        &mut self,
        pl: &mut Playlist,
        key: Key,
        matches: &Vec<usize>,
        lyrics: usize,
        items: usize,
        rows: u16,
    ) -> (r: Action)
        requires
            old(pl).wf(),
            selection_fits(old(self)@, old(pl).paths.len() as int),
            forall|i: int| 0 <= i < matches.len() ==> #[trigger] matches@[i] < old(pl).paths.len(),
        ensures
            (final(self)@, final(pl).current_index as int, r@) == key_step(
                old(self)@,
                key,
                old(pl).current_index as int,
                old(pl).paths.len() as int,
                matches@,
                lyrics as int,
                items as int,
                rows as int,
                final(pl).current_index as int,
            ),
            final(pl).paths == old(pl).paths,
            final(pl).wf(),
            selection_fits(final(self)@, final(pl).paths.len() as int),
            draws_track(old(self)@, key, old(pl).paths.len() as int) ==> final(pl).current_index
                < final(pl).paths.len(),
    {
        let len = pl.paths.len();
        let draw = !self.quit_prompt && !self.dir_menu_mode && !self.sort_mode && !self.folder_mode
            && !self.search_mode && self.shuffle && len > 0 && match key {
            Key::Char(c) => c == 'n',
            _ => false,
        };
        let pick = if draw {
            crate::playlist::draw_index(len)
        } else {
            0
        };
        let ghost u0 = self@;
        let (cur, action) = self.step_key(key, pl.current_index, len, matches, lyrics, items, rows, pick);
        proof {
            lemma_key_step_fits(u0, key, pl.current_index as int, len as int, matches@, lyrics as int, items as int, rows as int, pick as int);
        }
        pl.current_index = cur;
        action
    }

    /// Answers a turn of the mouse wheel.
    pub fn handle_wheel(&mut self, wheel: Wheel, len: usize, matches: usize, lyrics: usize, items: usize)
        ensures
            final(self)@ == wheel_step(old(self)@, wheel, len as int, matches as int, lyrics as int, items as int),
            selection_fits(old(self)@, len as int) ==> selection_fits(final(self)@, len as int),
    {
        if self.quit_prompt {
            return;
        }
        match wheel {
            Wheel::Up => {
                if self.dir_menu_mode {
                    if self.dir_menu_sel > 0 {
                        self.dir_menu_sel = self.dir_menu_sel - 1;
                        self.force_redraw = true;
                    }
                } else if self.search_mode {
                    if self.filtered_sel > 0 {
                        self.filtered_sel = self.filtered_sel - 1;
                        self.force_redraw = true;
                    }
                } else if self.sort_mode {
                    if self.sort_sel > 0 {
                        self.sort_sel = self.sort_sel - 1;
                        self.force_redraw = true;
                    }
                } else if !self.sync_lyrics && lyrics > 0 {
                    if self.lrc_scroll > 0 {
                        self.lrc_scroll = self.lrc_scroll - 1;
                        self.force_redraw = true;
                    }
                } else if self.ui_sel > 0 {
                    self.ui_sel = self.ui_sel - 1;
                    self.force_redraw = true;
                }
            },
            Wheel::Down => {
                if self.dir_menu_mode {
                    if self.dir_menu_sel < items.saturating_sub(1) {
                        self.dir_menu_sel = self.dir_menu_sel + 1;
                        self.force_redraw = true;
                    }
                } else if self.search_mode {
                    if self.filtered_sel < matches.saturating_sub(1) {
                        self.filtered_sel = self.filtered_sel + 1;
                        self.force_redraw = true;
                    }
                } else if self.sort_mode {
                    if self.sort_sel < 3 {
                        self.sort_sel = self.sort_sel + 1;
                        self.force_redraw = true;
                    }
                } else if !self.sync_lyrics && lyrics > 0 {
                    if self.lrc_scroll < lyrics - 1 {
                        self.lrc_scroll = self.lrc_scroll + 1;
                        self.force_redraw = true;
                    }
                } else if self.ui_sel < len.saturating_sub(1) {
                    self.ui_sel = self.ui_sel + 1;
                    self.force_redraw = true;
                }
            },
        }
    }

    /// Moves on when the playing track has finished (see
    /// `Playlist::advance_after_finish`), then says whether a track must be
    /// loaded: the current track is not the loaded one, or a loaded track
    /// has finished. An empty playlist needs nothing.
    pub fn on_tick(&mut self, pl: &mut Playlist, finished: bool) -> (load: bool)
        requires
            old(pl).wf(),
        ensures
            final(self)@ == old(self)@,
            final(pl).paths == old(pl).paths,
            final(pl).wf(),
            old(pl).paths.len() == 0 ==> !load && final(pl).current_index == old(pl).current_index,
            old(pl).paths.len() > 0 ==> load == (old(self).loaded != final(pl).current_index || (
            finished && old(self).loaded != usize::MAX)),
            !(finished && old(self).loaded != usize::MAX) ==> final(pl).current_index == old(
                pl,
            ).current_index,
            old(pl).paths.len() > 0 && finished && old(self).loaded != usize::MAX && (old(
                self,
            ).repeat || !old(self).shuffle) ==> final(pl).current_index == after_finish(
                old(pl).current_index as int,
                old(pl).paths.len() as int,
                old(self).repeat,
                false,
                0,
            ),
    {
        if pl.paths.len() == 0 {
            return false;
        }
        let was_loaded = self.loaded != usize::MAX;
        if finished && was_loaded {
            pl.advance_after_finish(self.repeat, self.shuffle);
        }
        self.loaded != pl.current_index || (finished && was_loaded)
    }

    /// Records that the current track has been loaded: it is selected, its
    /// lyrics start at the top, following the time, and its picture is yet to
    /// be sent.
    pub fn track_loaded(&mut self, current: usize)
        ensures
            final(self)@ == (UiView {
                loaded: current,
                ui_sel: current,
                lrc_scroll: 0,
                sync_lyrics: true,
                force_redraw: true,
                art_loaded: false,
                ..old(self)@
            }),
    {
        self.art_loaded = false;
        self.loaded = current;
        self.ui_sel = current;
        self.lrc_scroll = 0;
        self.sync_lyrics = true;
        self.force_redraw = true;
    }

    /// After tracks were appended to a playlist that had `old_len` tracks: a
    /// playlist that was empty starts at its first track, selected.
    pub fn after_append(&mut self, pl: &mut Playlist, old_len: usize)
        ensures
            final(pl).paths == old(pl).paths,
            old_len == 0 && old(pl).paths.len() > 0 ==> final(pl).current_index == 0
                && final(self)@ == (UiView { ui_sel: 0, ..old(self)@ }),
            !(old_len == 0 && old(pl).paths.len() > 0) ==> final(pl).current_index == old(
                pl,
            ).current_index && final(self)@ == old(self)@,
    {
        if old_len == 0 && pl.paths.len() > 0 {
            pl.current_index = 0;
            self.ui_sel = 0;
        }
    }

    /// Opens the directory browser at its first entry.
    pub fn open_dir_menu(&mut self)
        ensures
            final(self)@ == (UiView {
                dir_menu_mode: true,
                dir_menu_sel: 0,
                dir_menu_scroll: 0,
                ..old(self)@
            }),
    {
        self.dir_menu_mode = true;
        self.dir_menu_sel = 0;
        self.dir_menu_scroll = 0;
    }

    /// Moves the browser's selection back to its first entry, for a new
    /// directory.
    pub fn reset_dir_menu(&mut self)
        ensures
            final(self)@ == (UiView { dir_menu_sel: 0, dir_menu_scroll: 0, ..old(self)@ }),
    {
        self.dir_menu_sel = 0;
        self.dir_menu_scroll = 0;
    }

    /// After sorting: the loaded track, found at `moved`, stays loaded and
    /// selected there.
    pub fn after_sort(&mut self, moved: Option<usize>)
        ensures
            moved matches Some(i) ==> final(self)@ == (UiView { loaded: i, ui_sel: i, ..old(self)@ }),
            moved is None ==> final(self)@ == old(self)@,
    {
        if let Some(i) = moved {
            self.loaded = i;
            self.ui_sel = i;
        }
    }

    /// Before drawing the track list of `rows - 3` rows: in a search, the
    /// selection is kept among the `matches` and the match list scrolled to
    /// it; else the track list is scrolled to the selected track.
    pub fn before_draw(&mut self, matches: usize, rows: u16)
        ensures
            ({
                let h = if rows >= 3 {
                    rows - 3
                } else {
                    0
                };
                let u = old(self)@;
                if u.search_mode {
                    let sel = if u.filtered_sel >= matches && matches > 0 {
                        (matches - 1) as usize
                    } else {
                        u.filtered_sel
                    };
                    final(self)@ == (UiView {
                        filtered_sel: sel,
                        filtered_scroll: followed(sel as int, u.filtered_scroll as int, h as int) as usize,
                        ..u
                    })
                } else {
                    final(self)@ == (UiView {
                        scroll: followed(u.ui_sel as int, u.scroll as int, h as int) as usize,
                        ..u
                    })
                }
            }),
    {
        let list_h = rows.saturating_sub(3) as usize;
        if self.search_mode {
            if self.filtered_sel >= matches && matches > 0 {
                self.filtered_sel = matches - 1;
            }
            self.filtered_scroll = follow_selection(self.filtered_sel, self.filtered_scroll, list_h);
        } else {
            self.scroll = follow_selection(self.ui_sel, self.scroll, list_h);
        }
    }

    /// Scrolls the browser's 14-row list to its selection.
    pub fn follow_dir_menu(&mut self)
        ensures
            final(self)@ == (UiView {
                dir_menu_scroll: followed(
                    old(self).dir_menu_sel as int,
                    old(self).dir_menu_scroll as int,
                    14,
                ) as usize,
                ..old(self)@
            }),
    {
        self.dir_menu_scroll = follow_selection(self.dir_menu_sel, self.dir_menu_scroll, 14);
    }

    /// Places the lyric window of `height` rows over `lines` lines, with the
    /// `active` line highlighted.
    pub fn place_lyrics(&mut self, active: usize, lines: usize, height: usize)
        ensures
            final(self)@ == (UiView {
                lrc_scroll: lyric_top(
                    old(self).lrc_scroll as int,
                    old(self).sync_lyrics,
                    active as int,
                    lines as int,
                    height as int,
                ) as usize,
                ..old(self)@
            }),
    {
        if self.sync_lyrics {
            self.lrc_scroll = active.saturating_sub(height / 2);
        }
        let max_scroll = lines.saturating_sub(height);
        if self.lrc_scroll > max_scroll {
            self.lrc_scroll = max_scroll;
        }
    }
}

impl Ui {
    /// Whether the loaded track's picture must be sent now: there are tracks,
    /// it has not been sent, and the engine has one. Sending it is recorded.
    pub fn art_to_upload(&mut self, has_tracks: bool, has_picture: bool) -> (b: bool)
        ensures
            b == (has_tracks && !old(self).art_loaded && has_picture),
            final(self)@ == (UiView { art_loaded: old(self).art_loaded || b, ..old(self)@ }),
    {
        if has_tracks && !self.art_loaded && has_picture {
            self.art_loaded = true;
            true
        } else {
            false
        }
    }

    /// Whether the picture is shown: it has been sent and there are tracks.
    pub fn shows_art(&self, has_tracks: bool) -> (b: bool)
        ensures
            b == (self.art_loaded && has_tracks),
    {
        self.art_loaded && has_tracks
    }

    /// The rows of the track list drawn in a window of `height` rows, as
    /// positions among the `count` listed tracks: from the search's or the
    /// list's first shown row up to the window's end or the list's end.
    pub fn list_window(&self, count: usize, height: usize) -> (r: (usize, usize))
        ensures
            r.0 == (if self.search_mode {
                self.filtered_scroll
            } else {
                self.scroll
            }),
            r.1 == (if r.0 >= count {
                r.0 as int
            } else if r.0 + height < count {
                r.0 + height
            } else {
                count as int
            }),
    {
        let start = if self.search_mode {
            self.filtered_scroll
        } else {
            self.scroll
        };
        let end = if start >= count {
            start
        } else if height < count - start {
            start + height
        } else {
            count
        };
        (start, end)
    }

    /// Whether the row at position `idx` of the list, showing track
    /// `track`, is the selected one: by position in a search, by track
    /// otherwise.
    pub fn row_selected(&self, idx: usize, track: usize) -> (b: bool)
        ensures
            b == (if self.search_mode {
                idx == self.filtered_sel
            } else {
                track == self.ui_sel
            }),
    {
        if self.search_mode {
            idx == self.filtered_sel
        } else {
            track == self.ui_sel
        }
    }

    /// What row `i` of the lyric window shows among `lines` lines: the line
    /// at the window's first line plus `i`, if there is one, and whether it
    /// is highlighted as the `active` line (only while following the time).
    pub fn lyric_row(&self, i: usize, lines: usize, active: usize) -> (r: Option<(usize, bool)>)
        ensures
            self.lrc_scroll + i < lines ==> r == Some(
                ((self.lrc_scroll + i) as usize, self.sync_lyrics && self.lrc_scroll + i == active),
            ),
            self.lrc_scroll + i >= lines ==> r is None,
    {
        if i < lines && self.lrc_scroll < lines - i {
            let idx = self.lrc_scroll + i;
            Some((idx, self.sync_lyrics && idx == active))
        } else {
            None
        }
    }
}

/// Every key keeps the selection in the track list and the current track
/// in the playlist, when the search matches point into it and a drawn track
/// would too.
pub proof fn lemma_key_step_fits(u: UiView, key: Key, current: int, len: int, matches: Seq<usize>, lyrics: int, items: int, rows: int, pick: int)
    requires
        selection_fits(u, len),
        len == 0 ==> current == 0,
        len > 0 ==> 0 <= current < len,
        len > 0 ==> 0 <= pick < len,
        forall|i: int| 0 <= i < matches.len() ==> #[trigger] matches[i] < len,
        len <= usize::MAX,
    ensures
        selection_fits(key_step(u, key, current, len, matches, lyrics, items, rows, pick).0, len),
        len == 0 ==> key_step(u, key, current, len, matches, lyrics, items, rows, pick).1 == 0,
        len > 0 ==> 0 <= key_step(u, key, current, len, matches, lyrics, items, rows, pick).1 < len,
{
    if len > 0 {
        vstd::arithmetic::div_mod::lemma_mod_bound(current + 1, len);
    }
}
} // verus!
