//! The playlist: FLAC files gathered from directories, and which of them
//! plays.

use vstd::prelude::*;
use crate::sort::{SortKey, stable_sort_by_key, stable_sorted};
use crate::text::{chars_of, split_chars, split_on, string_of, views};
use rand::Rng;

verus! {

broadcast use vstd::string::group_string_axioms;

/// A directory entry as listed for the playlist: its full path, its file
/// name, and its modification time in nanoseconds from the Unix epoch
/// (0 where the time could not be read).
pub struct DirEntry {
    pub path: String,
    pub file_name: String,
    pub modified: i128,
}

/// The index of the last occurrence of `c` in `s`, or -1.
pub open spec fn last_index_of(s: Seq<char>, c: char) -> int
    decreases s.len(),
{
    if s.len() == 0 {
        -1
    } else if s.last() == c {
        s.len() - 1
    } else {
        last_index_of(s.drop_last(), c)
    }
}

/// The last occurrence lies inside the text.
pub proof fn lemma_last_index_in_range(s: Seq<char>, c: char)
    ensures
        -1 <= last_index_of(s, c) < s.len(),
    decreases s.len(),
{
    if s.len() > 0 {
        lemma_last_index_in_range(s.drop_last(), c);
    }
}

/// The extension of a file name, as `Path::extension` gives it: what follows
/// the last `.`, unless there is no `.`, the only `.` is the first
/// character, or the name is `..`.
pub open spec fn extension(name: Seq<char>) -> Option<Seq<char>> {
    let d = last_index_of(name, '.');
    if name == seq!['.', '.'] || d <= 0 {
        None
    } else {
        Some(name.skip(d + 1))
    }
}

/// ASCII upper-case letters mapped to lower case, other characters kept.
pub open spec fn ascii_lower(c: char) -> u32 {
    let u = c as u32;
    if 65 <= u <= 90 {
        (u + 32) as u32
    } else {
        u
    }
}

/// `a` and `b` are equal up to ASCII case.
pub open spec fn eq_ignore_ascii_case(a: Seq<char>, b: Seq<char>) -> bool {
    a.len() == b.len() && forall|i: int| 0 <= i < a.len() ==> ascii_lower(a[i]) == ascii_lower(b[i])
}

/// The file name has the extension `flac`, in any ASCII case.
pub open spec fn is_flac_name(name: Seq<char>) -> bool {
    match extension(name) {
        Some(e) => eq_ignore_ascii_case(e, seq!['f', 'l', 'a', 'c']),
        None => false,
    }
}

/// The FLAC entries of a listing, in listing order, each as its
/// modification time and path.
pub open spec fn flac_items(es: Seq<DirEntry>) -> Seq<(i128, String)>
    decreases es.len(),
{
    if es.len() == 0 {
        Seq::empty()
    } else {
        let r = flac_items(es.drop_last());
        if is_flac_name(es.last().file_name@) {
            r.push((es.last().modified, es.last().path))
        } else {
            r
        }
    }
}

/// The character sequences of a sequence of strings.
pub open spec fn string_views(v: Seq<String>) -> Seq<Seq<char>> {
    v.map_values(|s: String| s@)
}

/// The paths that a listing adds to the playlist: its FLAC files, newest
/// first, files with equal times in listing order.
pub open spec fn added_paths(es: Seq<DirEntry>) -> Seq<String> {
    stable_sorted(flac_items(es), true).map_values(|p: (i128, String)| p.1)
}

/// A path component that does not name anything: empty (between two `/`)
/// or `.`.
pub open spec fn skipped_component(c: Seq<char>) -> bool {
    c.len() == 0 || c == seq!['.']
}

/// The last component of a path that names something, if any.
pub open spec fn last_component(pieces: Seq<Seq<char>>) -> Option<Seq<char>>
    decreases pieces.len(),
{
    if pieces.len() == 0 {
        None
    } else if skipped_component(pieces.last()) {
        last_component(pieces.drop_last())
    } else {
        Some(pieces.last())
    }
}

/// The file name of a `/`-separated path as the track list shows it (what
/// `Path::file_name` gives, or the empty text where it gives none): the last
/// component other than empty ones and `.`, unless that is `..`.
pub open spec fn file_name_text(path: Seq<char>) -> Seq<char> {
    match last_component(split_on(path, '/')) {
        Some(c) => if c == seq!['.', '.'] {
            Seq::empty()
        } else {
            c
        },
        None => Seq::empty(),
    }
}

/// The file name of a path, or the empty text when it has none.
pub fn file_name_of(path: &str) -> (r: String)
    ensures
        r@ == file_name_text(path@),
{
    let v = chars_of(path);
    let pieces = split_chars(&v, '/');
    let ghost ps = split_on(v@, '/');
    let mut i = pieces.len();
    assert(ps.take(i as int) == ps);
    while i > 0 && (pieces[i - 1].len() == 0 || (pieces[i - 1].len() == 1 && pieces[i - 1][0]
        == '.'))
        invariant
            i <= pieces.len(),
            views(pieces@) == ps,
            last_component(ps) == last_component(ps.take(i as int)),
        decreases i,
    {
        let ghost c = pieces@[i - 1]@;
        assert(ps.take(i as int).last() == c);
        assert(ps.take(i as int).drop_last() == ps.take(i - 1));
        assert(skipped_component(c)) by {
            if c.len() == 1 {
                assert(c == seq!['.']);
            }
        }
        i = i - 1;
    }
    if i == 0 {
        assert(ps.take(0).len() == 0);
        return string_of(&[]);
    }
    let last = &pieces[i - 1];
    proof {
        let c = last@;
        assert(ps.take(i as int).last() == c);
        assert(!skipped_component(c)) by {
            if c == seq!['.'] {
                assert(c.len() == 1 && c[0] == '.');
            }
        }
    }
    if last.len() == 2 && last[0] == '.' && last[1] == '.' {
        assert(last@ == seq!['.', '.']);
        return string_of(&[]);
    }
    assert(last@ != seq!['.', '.']);
    string_of(last.as_slice())
}

/// The index after `current` in a playlist of `len` tracks, wrapping to the
/// first track after the last.
pub open spec fn next_of(current: int, len: int) -> int {
    (current + 1) % len
}

/// The index before `current`, wrapping to the last track before the first.
pub open spec fn prev_of(current: int, len: int) -> int {
    if current == 0 {
        len - 1
    } else {
        current - 1
    }
}

/// The track that plays once the current one has finished: the same one in
/// repeat mode, the drawn one (`pick`) in shuffle mode, else the next one.
pub open spec fn after_finish(current: int, len: int, repeat: bool, shuffle: bool, pick: int) -> int {
    if repeat {
        current
    } else if shuffle {
        pick
    } else {
        next_of(current, len)
    }
}

/// The pieces of a split path that name something: all but the empty ones
/// and `.`, in order.
pub open spec fn named_pieces(pieces: Seq<Seq<char>>) -> Seq<Seq<char>>
    decreases pieces.len(),
{
    if pieces.len() == 0 {
        Seq::empty()
    } else if skipped_component(pieces.last()) {
        named_pieces(pieces.drop_last())
    } else {
        named_pieces(pieces.drop_last()).push(pieces.last())
    }
}

/// The components of a `/`-separated path as `Path::components` yields
/// them: whether it starts at the root, whether it starts with a `.`
/// component (an unrooted path that is `.` or starts with `./`), and the
/// other components in order (repeated `/`, a final `/` and `.` components
/// name nothing).
pub open spec fn path_components(p: Seq<char>) -> (bool, bool, Seq<Seq<char>>) {
    let rooted = p.len() > 0 && p[0] == '/';
    let here = !rooted && p.len() > 0 && p[0] == '.' && (p.len() == 1 || p[1] == '/');
    (rooted, here, named_pieces(split_on(p, '/')))
}

/// Two texts name the same path as `Path` compares paths: component by
/// component.
pub open spec fn same_path(a: Seq<char>, b: Seq<char>) -> bool {
    path_components(a) == path_components(b)
}

/// The index of the first path in `v` that is the same path as `x`.
pub open spec fn first_index_of(v: Seq<Seq<char>>, x: Seq<char>) -> Option<int>
    decreases v.len(),
{
    if v.len() == 0 {
        None
    } else if same_path(v[0], x) {
        Some(0)
    } else {
        match first_index_of(v.drop_first(), x) {
            Some(i) => Some(i + 1),
            None => None,
        }
    }
}

/// The pieces that name something, taken out of a split path.
fn named_pieces_of(pieces: Vec<Vec<char>>) -> (r: Vec<Vec<char>>)
    ensures
        views(r@) == named_pieces(views(pieces@)),
{
    let ghost pv = pieces@;
    let ghost ps = views(pv);
    let n = pieces.len();
    let mut rest = pieces;
    let mut out: Vec<Vec<char>> = Vec::new();
    let mut i: usize = 0;
    assert(ps.take(0) == Seq::<Seq<char>>::empty());
    while rest.len() > 0
        invariant
            n == pv.len() == ps.len(),
            ps == views(pv),
            i <= n,
            rest@ == pv.skip(i as int),
            views(out@) == named_pieces(ps.take(i as int)),
        decreases rest.len(),
    {
        let piece = rest.remove(0);
        assert(piece == pv[i as int]);
        assert(piece@ == ps[i as int]);
        assert(pv.skip(i + 1) == pv.skip(i as int).drop_first());
        assert(ps.take(i + 1).drop_last() == ps.take(i as int));
        assert(ps.take(i + 1).last() == ps[i as int]);
        let skip = piece.len() == 0 || (piece.len() == 1 && piece[0] == '.');
        proof {
            if piece@.len() == 1 && piece@[0] == '.' {
                assert(piece@ == seq!['.']);
            }
            if piece@ == seq!['.'] {
                assert(piece@[0] == '.');
            }
            assert(skip == skipped_component(piece@));
        }
        if !skip {
            let ghost before = views(out@);
            out.push(piece);
            assert(views(out@) == before.push(piece@));
        }
        i = i + 1;
    }
    assert(ps.take(n as int) == ps);
    out
}

/// Whether two character vectors hold the same characters.
fn chars_equal(a: &Vec<char>, b: &Vec<char>) -> (r: bool)
    ensures
        r == (a@ == b@),
{
    if a.len() != b.len() {
        return false;
    }
    let mut k: usize = 0;
    while k < a.len()
        invariant
            a.len() == b.len(),
            k <= a.len(),
            forall|j: int| 0 <= j < k ==> a@[j] == b@[j],
        decreases a.len() - k,
    {
        if a[k] != b[k] {
            return false;
        }
        k = k + 1;
    }
    assert(a@ == b@);
    true
}

/// The components of a path, as `path_components` describes them.
fn components_of(p: &str) -> (r: (bool, bool, Vec<Vec<char>>))
    ensures
        (r.0, r.1, views(r.2@)) == path_components(p@),
{
    let v = chars_of(p);
    let rooted = v.len() > 0 && v[0] == '/';
    let here = !rooted && v.len() > 0 && v[0] == '.' && (v.len() == 1 || v[1] == '/');
    let pieces = split_chars(&v, '/');
    (rooted, here, named_pieces_of(pieces))
}

/// Whether two texts name the same path, compared as `Path` compares paths
/// (component by component, so `/m//a.flac` and `/m/a.flac` are the same).
pub fn paths_equal(a: &str, b: &str) -> (r: bool)
    ensures
        r == same_path(a@, b@),
{
    let (ra, ha, ca) = components_of(a);
    let (rb, hb, cb) = components_of(b);
    if ra != rb || ha != hb || ca.len() != cb.len() {
        proof {
            if ca.len() != cb.len() {
                assert(views(ca@).len() != views(cb@).len());
            }
        }
        return false;
    }
    let mut k: usize = 0;
    while k < ca.len()
        invariant
            ca.len() == cb.len(),
            k <= ca.len(),
            views(ca@) == path_components(a@).2,
            views(cb@) == path_components(b@).2,
            forall|j: int| 0 <= j < k ==> views(ca@)[j] == views(cb@)[j],
        decreases ca.len() - k,
    {
        if !chars_equal(&ca[k], &cb[k]) {
            assert(views(ca@)[k as int] == ca@[k as int]@);
            assert(views(cb@)[k as int] == cb@[k as int]@);
            assert(views(ca@) != views(cb@));
            return false;
        }
        k = k + 1;
    }
    assert(views(ca@) == views(cb@));
    true
}

/// Where the extension of a file name starts, by the rules of
/// `Path::extension`: just after its last `.`, or `None` where the name has
/// no extension.
#[verifier::spinoff_prover]
pub fn extension_start(name: &Vec<char>) -> (r: Option<usize>)
    ensures
        match r {
            Some(i) => 0 < i <= name.len() && extension(name@) == Some(name@.skip(i as int)),
            None => extension(name@) is None,
        },
{
    let n = name.len();
    let mut i = n;
    assert(name@.take(n as int) == name@);
    while i > 0 && name[i - 1] != '.'
        invariant
            i <= n == name.len(),
            last_index_of(name@, '.') == last_index_of(name@.take(i as int), '.'),
        decreases i,
    {
        assert(name@.take(i as int).drop_last() == name@.take(i - 1));
        i = i - 1;
    }
    proof {
        if i > 0 {
            assert(name@.take(i as int).last() == '.');
        } else {
            assert(name@.take(0).len() == 0);
        }
    }
    if n == 2 && name[0] == '.' && name[1] == '.' {
        assert(name@ == seq!['.', '.']);
        return None;
    }
    assert(name@ != seq!['.', '.']);
    if i <= 1 {
        return None;
    }
    assert(last_index_of(name@, '.') == i - 1);
    Some(i)
}

/// Whether the file name ends in `.flac`, in any ASCII case, by the rules of
/// `Path::extension`.
pub fn is_flac_file_name(name: &str) -> (b: bool)
    ensures
        b == is_flac_name(name@),
{
    let v = chars_of(name);
    let n = v.len();
    let i = match extension_start(&v) {
        Some(i) => i,
        None => {
            return false;
        },
    };
    let ghost e = v@.skip(i as int);
    if n - i != 4 {
        return false;
    }
    let want = ['f', 'l', 'a', 'c'];
    let mut k: usize = 0;
    while k < 4
        invariant
            i + 4 == n == v.len(),
            e == v@.skip(i as int),
            v@ == name@,
            extension(name@) == Some(e),
            k <= 4,
            want@ == seq!['f', 'l', 'a', 'c'],
            forall|j: int| 0 <= j < k ==> ascii_lower(e[j]) == ascii_lower(want@[j]),
        decreases 4 - k,
    {
        if lower_code(v[i + k]) != lower_code(want[k]) {
            assert(e[k as int] == v@[i + k]);
            assert(ascii_lower(e[k as int]) != ascii_lower(seq!['f', 'l', 'a', 'c'][k as int]));
            return false;
        }
        k = k + 1;
    }
    assert(eq_ignore_ascii_case(e, seq!['f', 'l', 'a', 'c']));
    true
}

fn lower_code(c: char) -> (r: u32)
    ensures
        r == ascii_lower(c),
{
    let u = c as u32;
    if 65 <= u && u <= 90 {
        u + 32
    } else {
        u
    }
}

/// The index after `current`, wrapping around.
pub fn next_index(current: usize, len: usize) -> (r: usize)
    requires
        current < len,
    ensures
        r == next_of(current as int, len as int),
        r < len,
{
    (current + 1) % len
}

/// The index before `current`, wrapping around.
pub fn prev_index(current: usize, len: usize) -> (r: usize)
    requires
        current < len,
    ensures
        r == prev_of(current as int, len as int),
        r < len,
{
    if current == 0 {
        len - 1
    } else {
        current - 1
    }
}

/// The track to play after the current one has finished, given the index
/// that a shuffle would draw.
pub fn index_after_finish(current: usize, len: usize, repeat: bool, shuffle: bool, pick: usize) -> (r:
    usize)
    requires
        current < len,
    ensures
        r == after_finish(current as int, len as int, repeat, shuffle, pick as int),
{
    if repeat {
        current
    } else if shuffle {
        pick
    } else {
        next_index(current, len)
    }
}

/// Stepping forward then back returns to the same track.
pub proof fn lemma_prev_after_next(current: int, len: int)
    requires
        0 <= current < len,
    ensures
        prev_of(next_of(current, len), len) == current,
{
    if current + 1 < len {
        vstd::arithmetic::div_mod::lemma_small_mod((current + 1) as nat, len as nat);
    } else {
        vstd::arithmetic::div_mod::lemma_mod_self_0(len);
    }
}

/// Stepping back then forward returns to the same track.
pub proof fn lemma_next_after_prev(current: int, len: int)
    requires
        0 <= current < len,
    ensures
        next_of(prev_of(current, len), len) == current,
{
    if current == 0 {
        vstd::arithmetic::div_mod::lemma_mod_self_0(len);
    } else {
        vstd::arithmetic::div_mod::lemma_small_mod(current as nat, len as nat);
    }
}

/// Stepping forward `len` times from a track returns to it.
pub open spec fn step_forward(current: int, len: int, times: nat) -> int
    decreases times,
{
    if times == 0 {
        current
    } else {
        next_of(step_forward(current, len, (times - 1) as nat), len)
    }
}

proof fn lemma_step_forward(current: int, len: int, times: nat)
    requires
        0 <= current < len,
    ensures
        step_forward(current, len, times) == (current + times) % len,
    decreases times,
{
    if times > 0 {
        lemma_step_forward(current, len, (times - 1) as nat);
        let a = current + times - 1;
        vstd::arithmetic::div_mod::lemma_add_mod_noop_right(1, a, len);
        assert(a % len + 1 == 1 + a % len);
        assert(a + 1 == 1 + a);
    } else {
        vstd::arithmetic::div_mod::lemma_small_mod(current as nat, len as nat);
    }
}

/// Going forward through the whole playlist comes back to the start.
pub proof fn lemma_full_cycle(current: int, len: int)
    requires
        0 <= current < len,
    ensures
        step_forward(current, len, len as nat) == current,
{
    lemma_step_forward(current, len, len as nat);
    vstd::arithmetic::div_mod::lemma_mod_add_multiples_vanish(current, len);
    vstd::arithmetic::div_mod::lemma_small_mod(current as nat, len as nat);
}

#[verifier::external_type_specification]
#[verifier::external_body]
pub struct ExThreadRng(rand::rngs::ThreadRng);

/// Gets the thread's random number generator (calls `rand::thread_rng`).
/// Claims nothing of it.
#[verifier::external_body]
fn thread_rng() -> rand::rngs::ThreadRng {
    rand::thread_rng()
}

/// Draws an index below `len` (calls `Rng::gen_range` with `0..len`).
/// Claims only that the index is below `len`; `len` must not be 0, on which
/// `gen_range` panics.
#[verifier::external_body]
fn random_index(rng: &mut rand::rngs::ThreadRng, len: usize) -> (r: usize)
    requires
        len > 0,
    ensures
        r < len,
{
    rng.gen_range(0..len)
}

/// Draws a random index below `len`; `len` must not be 0.
pub fn draw_index(len: usize) -> (r: usize)
    requires
        len > 0,
    ensures
        r < len,
{
    let mut rng = thread_rng();
    random_index(&mut rng, len)
}

/// How the playlist is reordered: by file name or by modification time, and
/// whether in descending order.
pub struct SortChoice {
    pub by_name: bool,
    pub descending: bool,
}

/// The order offered at row `option` of the sort menu: modification time
/// ascending, then descending, then file name ascending, then descending;
/// `None` past the last row.
pub fn sort_choice(option: usize) -> (r: Option<SortChoice>)
    ensures
        r is Some <==> option < 4,
        r matches Some(c) ==> c.by_name == (option >= 2) && c.descending == (option % 2 == 1),
{
    match option {
        0 => Some(SortChoice { by_name: false, descending: false }),
        1 => Some(SortChoice { by_name: false, descending: true }),
        2 => Some(SortChoice { by_name: true, descending: false }),
        3 => Some(SortChoice { by_name: true, descending: true }),
        _ => None,
    }
}

/// A list of tracks and the index of the one that plays.
pub struct Playlist {
    pub paths: Vec<String>,
    pub current_index: usize,
}

impl Playlist {
    /// The current index points into the playlist, or is 0 when the playlist
    /// is empty.
    pub open spec fn wf(&self) -> bool {
        if self.paths.len() == 0 {
            self.current_index == 0
        } else {
            self.current_index < self.paths.len()
        }
    }

    /// An empty playlist, at index 0.
    pub fn new() -> (p: Playlist)
        ensures
            p.paths@.len() == 0,
            p.current_index == 0,
            p.wf(),
    {
        Playlist { paths: Vec::new(), current_index: 0 }
    }

    /// Appends the FLAC files of a directory listing, newest first (files with
    /// equal times keep listing order). The current index does not move.
    pub fn add_dir(&mut self, entries: Vec<DirEntry>)
        ensures
            final(self).paths@ == old(self).paths@ + added_paths(entries@),
            final(self).current_index == old(self).current_index,
            old(self).wf() ==> final(self).wf(),
    {
        let ghost es = entries@;
        let mut rest = entries;
        let mut items: Vec<(i128, String)> = Vec::new();
        let mut i: usize = 0;
        let n = rest.len();
        assert(es.take(0) == Seq::<DirEntry>::empty());
        while rest.len() > 0
            invariant
                n == es.len(),
                i <= n,
                rest@ == es.skip(i as int),
                items@ == flac_items(es.take(i as int)),
            decreases rest.len(),
        {
            let e = rest.remove(0);
            assert(e == es[i as int]);
            assert(es.take(i + 1).drop_last() == es.take(i as int));
            assert(es.skip(i + 1) == es.skip(i as int).drop_first());
            if is_flac_file_name(e.file_name.as_str()) {
                items.push((e.modified, e.path));
            }
            i = i + 1;
        }
        assert(es.take(n as int) == es);
        let sorted = stable_sort_by_key(items, true);
        let mut rest2 = sorted;
        let ghost sv = rest2@;
        let ghost start = self.paths@;
        let m = rest2.len();
        let mut j: usize = 0;
        while rest2.len() > 0
            invariant
                m == sv.len(),
                j <= m,
                rest2@ == sv.skip(j as int),
                self.paths@ == start + sv.take(j as int).map_values(|p: (i128, String)| p.1),
                self.current_index == old(self).current_index,
                start == old(self).paths@,
            decreases rest2.len(),
        {
            let (_, path) = rest2.remove(0);
            assert(sv.take(j + 1) == sv.take(j as int).push(sv[j as int]));
            assert(sv.skip(j + 1) == sv.skip(j as int).drop_first());
            self.paths.push(path);
            j = j + 1;
            assert(self.paths@ == start + sv.take(j as int).map_values(|p: (i128, String)| p.1));
        }
        assert(sv.take(m as int) == sv);
    }

    /// Moves to the next track: a random one in shuffle mode, else the one
    /// after the current (wrapping). An empty playlist stays as it is.
    pub fn skip_forward(&mut self, shuffle: bool)
        requires
            old(self).wf(),
        ensures
            final(self).paths == old(self).paths,
            final(self).wf(),
            old(self).paths.len() == 0 ==> final(self).current_index == old(self).current_index,
            old(self).paths.len() > 0 && !shuffle ==> final(self).current_index == next_of(
                old(self).current_index as int,
                old(self).paths.len() as int,
            ),
    {
        let len = self.paths.len();
        if len > 0 {
            if shuffle {
                let mut rng = thread_rng();
                self.current_index = random_index(&mut rng, len);
            } else {
                self.current_index = next_index(self.current_index, len);
            }
        }
    }

    /// Moves to the previous track (wrapping to the last). An empty playlist
    /// stays as it is.
    pub fn skip_back(&mut self)
        requires
            old(self).wf(),
        ensures
            final(self).paths == old(self).paths,
            final(self).wf(),
            old(self).paths.len() == 0 ==> final(self).current_index == old(self).current_index,
            old(self).paths.len() > 0 ==> final(self).current_index == prev_of(
                old(self).current_index as int,
                old(self).paths.len() as int,
            ),
    {
        let len = self.paths.len();
        if len > 0 {
            self.current_index = prev_index(self.current_index, len);
        }
    }

    /// Moves on after the current track has finished: it stays in repeat
    /// mode, a random track follows in shuffle mode, else the next one
    /// (wrapping). An empty playlist stays as it is.
    pub fn advance_after_finish(&mut self, repeat: bool, shuffle: bool)
        requires
            old(self).wf(),
        ensures
            final(self).paths == old(self).paths,
            final(self).wf(),
            old(self).paths.len() == 0 || repeat ==> final(self).current_index == old(
                self,
            ).current_index,
            old(self).paths.len() > 0 && !repeat && !shuffle ==> final(self).current_index
                == next_of(old(self).current_index as int, old(self).paths.len() as int),
    {
        let len = self.paths.len();
        if len > 0 {
            let pick = if !repeat && shuffle {
                let mut rng = thread_rng();
                random_index(&mut rng, len)
            } else {
                0
            };
            self.current_index = index_after_finish(self.current_index, len, repeat, shuffle, pick);
        }
    }

    /// The index of the first track that is the same path as `path`
    /// (compared as `Path` compares paths).
    pub fn position_of(&self, path: &String) -> (r: Option<usize>)
        ensures
            r matches Some(i) ==> i < self.paths.len() && first_index_of(
                string_views(self.paths@),
                path@,
            ) == Some(i as int),
            r is None ==> first_index_of(string_views(self.paths@), path@) is None,
    {
        let ghost v = string_views(self.paths@);
        let mut i: usize = 0;
        assert(v.skip(0) == v);
        while i < self.paths.len()
            invariant
                i <= self.paths.len(),
                v == string_views(self.paths@),
                first_index_of(v, path@) == match first_index_of(v.skip(i as int), path@) {
                    Some(k) => Some(k + i),
                    None => None::<int>,
                },
            decreases self.paths.len() - i,
        {
            assert(v.skip(i as int)[0] == self.paths@[i as int]@);
            if paths_equal(self.paths[i].as_str(), path.as_str()) {
                return Some(i);
            }
            assert(v.skip(i as int).drop_first() == v.skip(i + 1));
            i = i + 1;
        }
        assert(v.skip(i as int).len() == 0);
        None
    }

    /// Reorders the tracks stably by the given keys (one per track, in track
    /// order), ascending or descending, and keeps the loaded track current:
    /// when `loaded` points into the playlist, the current index moves to the
    /// first track with that track's path and that index is returned.
    pub fn sort_by_keys<K: SortKey>(&mut self, keys: Vec<K>, descending: bool, loaded: usize) -> (r:
        Option<usize>)
        requires
            keys.len() == old(self).paths.len(),
            old(self).wf(),
        ensures
            final(self).paths@ == paths_sorted_by(old(self).paths@, keys@, descending),
            final(self).wf(),
            loaded < old(self).paths.len() ==> r is Some,
            loaded >= old(self).paths.len() ==> r is None,
            r matches Some(i) ==> i < final(self).paths.len() && final(self).current_index == i
                && same_path(final(self).paths@[i as int]@, old(self).paths@[loaded as int]@)
                && first_index_of(
                string_views(final(self).paths@),
                old(self).paths@[loaded as int]@,
            ) == Some(i as int),
            r is None ==> final(self).current_index == old(self).current_index,
    {
        let ghost old_paths = self.paths@;
        let playing = if loaded < self.paths.len() {
            Some(self.paths[loaded].clone())
        } else {
            None
        };
        let mut old_vec: Vec<String> = Vec::new();
        std::mem::swap(&mut old_vec, &mut self.paths);
        let ghost ks = keys@;
        let ghost pairs = Seq::new(ks.len(), |i: int| (ks[i], old_paths[i]));
        let mut rest_k = keys;
        let mut rest_p = old_vec;
        let mut items: Vec<(K, String)> = Vec::new();
        let n = rest_k.len();
        let mut i: usize = 0;
        while rest_k.len() > 0
            invariant
                n == ks.len() == old_paths.len(),
                i <= n,
                rest_k@ == ks.skip(i as int),
                rest_p@ == old_paths.skip(i as int),
                items@ == pairs.take(i as int),
                pairs == Seq::new(ks.len(), |i: int| (ks[i], old_paths[i])),
            decreases rest_k.len(),
        {
            let k = rest_k.remove(0);
            let p = rest_p.remove(0);
            assert(ks.skip(i + 1) == ks.skip(i as int).drop_first());
            assert(old_paths.skip(i + 1) == old_paths.skip(i as int).drop_first());
            items.push((k, p));
            assert(pairs.take(i + 1) == pairs.take(i as int).push(pairs[i as int]));
            i = i + 1;
        }
        assert(pairs.take(n as int) == pairs);
        let sorted = stable_sort_by_key(items, descending);
        proof {
            crate::sort::lemma_stable_sorted_is_sorted(pairs, descending);
        }
        let ghost sv = sorted@;
        let mut rest2 = sorted;
        let mut out: Vec<String> = Vec::new();
        let m = rest2.len();
        let mut j: usize = 0;
        while rest2.len() > 0
            invariant
                m == sv.len(),
                j <= m,
                rest2@ == sv.skip(j as int),
                out@ == sv.take(j as int).map_values(|p: (K, String)| p.1),
            decreases rest2.len(),
        {
            let (_, path) = rest2.remove(0);
            assert(sv.take(j + 1) == sv.take(j as int).push(sv[j as int]));
            assert(sv.skip(j + 1) == sv.skip(j as int).drop_first());
            out.push(path);
            j = j + 1;
            assert(out@ == sv.take(j as int).map_values(|p: (K, String)| p.1));
        }
        assert(sv.take(m as int) == sv);
        self.paths = out;
        match playing {
            Some(cp) => {
                proof {
                    lemma_sorted_keeps_items(pairs, descending, loaded as int);
                }
                let pos = self.position_of(&cp);
                match pos {
                    Some(idx) => {
                        proof {
                            lemma_first_index_some(string_views(self.paths@), cp@, idx as int);
                        }
                        self.current_index = idx;
                        Some(idx)
                    },
                    None => {
                        proof {
                            lemma_first_index_none(string_views(self.paths@), cp@);
                            let j = choose|j: int|
                                0 <= j < pairs.len() && #[trigger] stable_sorted(pairs, descending)[j]
                                    == pairs[loaded as int];
                            assert(self.paths@[j] == sv[j].1);
                            assert(string_views(self.paths@)[j] == cp@);
                        }
                        None
                    },
                }
            },
            None => None,
        }
    }

    /// Reorders the tracks by modification time (one time per track),
    /// stably; see `sort_by_keys`.
    pub fn sort_by_modified(&mut self, times: Vec<i128>, descending: bool, loaded: usize) -> (r:
        Option<usize>)
        requires
            times.len() == old(self).paths.len(),
            old(self).wf(),
        ensures
            final(self).paths@ == paths_sorted_by(old(self).paths@, times@, descending),
            final(self).wf(),
            loaded < old(self).paths.len() ==> r is Some,
            loaded >= old(self).paths.len() ==> r is None,
            r matches Some(i) ==> i < final(self).paths.len() && final(self).current_index == i
                && same_path(final(self).paths@[i as int]@, old(self).paths@[loaded as int]@)
                && first_index_of(
                string_views(final(self).paths@),
                old(self).paths@[loaded as int]@,
            ) == Some(i as int),
            r is None ==> final(self).current_index == old(self).current_index,
    {
        self.sort_by_keys(times, descending, loaded)
    }

    /// Reorders the tracks by file name (one name per track), stably, in the
    /// order strings compare in; see `sort_by_keys`.
    pub fn sort_by_name(&mut self, names: Vec<String>, descending: bool, loaded: usize) -> (r:
        Option<usize>)
        requires
            names.len() == old(self).paths.len(),
            old(self).wf(),
        ensures
            final(self).paths@ == paths_sorted_by(old(self).paths@, names@, descending),
            final(self).wf(),
            loaded < old(self).paths.len() ==> r is Some,
            loaded >= old(self).paths.len() ==> r is None,
            r matches Some(i) ==> i < final(self).paths.len() && final(self).current_index == i
                && same_path(final(self).paths@[i as int]@, old(self).paths@[loaded as int]@)
                && first_index_of(
                string_views(final(self).paths@),
                old(self).paths@[loaded as int]@,
            ) == Some(i as int),
            r is None ==> final(self).current_index == old(self).current_index,
    {
        self.sort_by_keys(names, descending, loaded)
    }
}

/// The paths ordered stably by the given keys, one per path.
pub open spec fn paths_sorted_by<K: SortKey>(paths: Seq<String>, keys: Seq<K>, descending: bool) -> Seq<String> {
    stable_sorted(Seq::new(keys.len(), |i: int| (keys[i], paths[i])), descending).map_values(
        |p: (K, String)| p.1,
    )
}

/// Sorting keeps the tracks: as many as before, each old track still there
/// and no new one.
pub proof fn lemma_sort_keeps_tracks<K: SortKey>(paths: Seq<String>, keys: Seq<K>, descending: bool)
    requires
        keys.len() == paths.len(),
    ensures
        paths_sorted_by(paths, keys, descending).len() == paths.len(),
        forall|i: int| 0 <= i < paths.len() ==> paths_sorted_by(paths, keys, descending).contains(
            #[trigger] paths[i],
        ),
        forall|i: int|
            0 <= i < paths.len() ==> paths.contains(#[trigger] paths_sorted_by(paths, keys, descending)[i]),
{
    let s = Seq::new(keys.len(), |i: int| (keys[i], paths[i]));
    let o = stable_sorted(s, descending);
    let out = paths_sorted_by(paths, keys, descending);
    crate::sort::lemma_stable_sorted_permutes(s, descending);
    crate::sort::lemma_stable_sorted_is_sorted(s, descending);
    assert forall|i: int| 0 <= i < paths.len() implies out.contains(#[trigger] paths[i]) by {
        vstd::seq_lib::to_multiset_contains(s, s[i]);
        assert(s.contains(s[i]));
        vstd::seq_lib::to_multiset_contains(o, s[i]);
        let j = choose|j: int| 0 <= j < o.len() && o[j] == s[i];
        assert(out[j] == paths[i]);
    }
    assert forall|i: int| 0 <= i < paths.len() implies paths.contains(#[trigger] out[i]) by {
        vstd::seq_lib::to_multiset_contains(o, o[i]);
        assert(o.contains(o[i]));
        vstd::seq_lib::to_multiset_contains(s, o[i]);
        let j = choose|j: int| 0 <= j < s.len() && s[j] == o[i];
        assert(paths[j] == out[i]);
    }
}

proof fn lemma_first_index_some(v: Seq<Seq<char>>, x: Seq<char>, i: int)
    requires
        first_index_of(v, x) == Some(i),
    ensures
        0 <= i < v.len(),
        same_path(v[i], x),
    decreases v.len(),
{
    if !same_path(v[0], x) {
        lemma_first_index_some(v.drop_first(), x, i - 1);
    }
}

proof fn lemma_first_index_none(v: Seq<Seq<char>>, x: Seq<char>)
    requires
        first_index_of(v, x) is None,
    ensures
        forall|i: int| 0 <= i < v.len() ==> !same_path(#[trigger] v[i], x),
    decreases v.len(),
{
    if v.len() > 0 {
        lemma_first_index_none(v.drop_first(), x);
        assert forall|i: int| 0 <= i < v.len() implies !same_path(#[trigger] v[i], x) by {
            if i > 0 {
                assert(v[i] == v.drop_first()[i - 1]);
            }
        }
    }
}

/// The sorted items hold every item of the input.
proof fn lemma_sorted_keeps_items<K: SortKey>(s: Seq<(K, String)>, descending: bool, i: int)
    requires
        0 <= i < s.len(),
    ensures
        exists|j: int|
            0 <= j < s.len() && #[trigger] stable_sorted(s, descending)[j] == s[i],
        stable_sorted(s, descending).len() == s.len(),
{
    crate::sort::lemma_stable_sorted_permutes(s, descending);
    crate::sort::lemma_stable_sorted_is_sorted(s, descending);
    let r = stable_sorted(s, descending);
    vstd::seq_lib::to_multiset_contains(s, s[i]);
    assert(s.contains(s[i]));
    vstd::seq_lib::to_multiset_contains(r, s[i]);
}

/// The FLAC items of a listing are its FLAC entries, in order.
proof fn lemma_flac_items_are_flac_entries(es: Seq<DirEntry>)
    ensures
        forall|k: int|
            0 <= k < flac_items(es).len() ==> exists|j: int|
                0 <= j < es.len() && is_flac_name(es[j].file_name@) && #[trigger] flac_items(es)[k]
                    == (es[j].modified, es[j].path),
        forall|j: int|
            0 <= j < es.len() && is_flac_name(#[trigger] es[j].file_name@) ==> flac_items(es).contains(
                (es[j].modified, es[j].path),
            ),
    decreases es.len(),
{
    if es.len() > 0 {
        let t = es.drop_last();
        lemma_flac_items_are_flac_entries(t);
        let r = flac_items(t);
        let fi = flac_items(es);
        assert forall|k: int| 0 <= k < fi.len() implies exists|j: int|
            0 <= j < es.len() && is_flac_name(es[j].file_name@) && #[trigger] fi[k] == (
                es[j].modified,
                es[j].path,
            ) by {
            if k < r.len() {
                assert(fi[k] == r[k]);
                let j = choose|j: int|
                    0 <= j < t.len() && is_flac_name(t[j].file_name@) && #[trigger] r[k] == (
                        t[j].modified,
                        t[j].path,
                    );
                assert(es[j] == t[j]);
            } else {
                assert(es[es.len() - 1] == es.last());
            }
        }
        assert forall|j: int| 0 <= j < es.len() && is_flac_name(#[trigger] es[j].file_name@) implies fi.contains(
            (es[j].modified, es[j].path),
        ) by {
            if j < t.len() {
                assert(es[j] == t[j]);
                assert(r.contains((t[j].modified, t[j].path)));
                let k = choose|k: int| 0 <= k < r.len() && r[k] == (t[j].modified, t[j].path);
                assert(fi[k] == r[k]);
            } else {
                assert(fi[fi.len() - 1] == (es[j].modified, es[j].path));
            }
        }
    }
}

/// A directory adds exactly its FLAC files: every added path is the path of
/// a FLAC entry, every FLAC entry's path is added, and as many paths are
/// added as there are FLAC entries.
pub proof fn lemma_added_paths_are_flac_files(es: Seq<DirEntry>)
    ensures
        added_paths(es).len() == flac_items(es).len() <= es.len(),
        forall|i: int|
            0 <= i < added_paths(es).len() ==> exists|j: int|
                0 <= j < es.len() && is_flac_name(es[j].file_name@) && #[trigger] added_paths(es)[i]
                    == es[j].path,
        forall|j: int|
            0 <= j < es.len() && is_flac_name(#[trigger] es[j].file_name@) ==> added_paths(
                es,
            ).contains(es[j].path),
{
    lemma_flac_items_are_flac_entries(es);
    lemma_flac_items_len(es);
    let fi = flac_items(es);
    let sorted = stable_sorted(fi, true);
    crate::sort::lemma_stable_sorted_permutes(fi, true);
    crate::sort::lemma_stable_sorted_is_sorted(fi, true);
    let added = added_paths(es);
    assert forall|i: int| 0 <= i < added.len() implies exists|j: int|
        0 <= j < es.len() && is_flac_name(es[j].file_name@) && #[trigger] added[i] == es[j].path by {
        vstd::seq_lib::to_multiset_contains(sorted, sorted[i]);
        assert(sorted.contains(sorted[i]));
        vstd::seq_lib::to_multiset_contains(fi, sorted[i]);
        let k = choose|k: int| 0 <= k < fi.len() && fi[k] == sorted[i];
        assert(fi[k] == sorted[i]);
    }
    assert forall|j: int| 0 <= j < es.len() && is_flac_name(#[trigger] es[j].file_name@) implies added.contains(
        es[j].path,
    ) by {
        let x = (es[j].modified, es[j].path);
        vstd::seq_lib::to_multiset_contains(fi, x);
        vstd::seq_lib::to_multiset_contains(sorted, x);
        let i = choose|i: int| 0 <= i < sorted.len() && sorted[i] == x;
        assert(added[i] == es[j].path);
    }
}

proof fn lemma_flac_items_len(es: Seq<DirEntry>)
    ensures
        flac_items(es).len() <= es.len(),
    decreases es.len(),
{
    if es.len() > 0 {
        lemma_flac_items_len(es.drop_last());
    }
}

} // verus!
