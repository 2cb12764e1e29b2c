//! Menus and lists on screen: the directory browser's entries, selection
//! movement, scrolling that keeps the selection visible, and the search
//! filter over track names.

use vstd::prelude::*;
use crate::sort::{stable_sort_by_key, stable_sorted};
use crate::text::{chars_of, contains_chars, contains_seq, lowercase, to_lowercase};

verus! {

broadcast use vstd::string::group_string_axioms;

/// The entry of the directory browser that loads the current directory.
pub open spec fn load_all_entry() -> Seq<char> {
    "[LOAD ALL FILES HERE]"@
}

/// The entry of the directory browser that goes to the parent directory.
pub open spec fn go_up_entry() -> Seq<char> {
    ".. (Go Up)"@
}

/// The browser entries for a list of folder names, given the sort key of
/// each: the two fixed entries, then the folders stably sorted by key.
pub open spec fn menu_entries(folders: Seq<String>, keys: Seq<Vec<char>>) -> Seq<Seq<char>> {
    seq![load_all_entry(), go_up_entry()] + stable_sorted(
        Seq::new(folders.len(), |i: int| (keys[i], folders[i])),
        false,
    ).map_values(|p: (Vec<char>, String)| p.1@)
}

/// The directory browser's entries for the given folder names, each sorted
/// by the given key (its lower-cased name).
pub fn dir_menu_from_keys(folders: Vec<String>, keys: Vec<Vec<char>>) -> (r: Vec<String>)
    requires
        keys.len() == folders.len(),
    ensures
        r@.map_values(|s: String| s@) == menu_entries(folders@, keys@),
{
    let ghost fs = folders@;
    let ghost ks = keys@;
    let ghost pairs = Seq::new(fs.len(), |i: int| (ks[i], fs[i]));
    let mut rest_k = keys;
    let mut rest_f = folders;
    let mut items: Vec<(Vec<char>, String)> = Vec::new();
    let n = rest_k.len();
    let mut i: usize = 0;
    while rest_k.len() > 0
        invariant
            n == ks.len() == fs.len(),
            i <= n,
            rest_k@ == ks.skip(i as int),
            rest_f@ == fs.skip(i as int),
            items@ == pairs.take(i as int),
            pairs == Seq::new(fs.len(), |i: int| (ks[i], fs[i])),
        decreases rest_k.len(),
    {
        let k = rest_k.remove(0);
        let f = rest_f.remove(0);
        assert(ks.skip(i + 1) == ks.skip(i as int).drop_first());
        assert(fs.skip(i + 1) == fs.skip(i as int).drop_first());
        items.push((k, f));
        assert(pairs.take(i + 1) == pairs.take(i as int).push(pairs[i as int]));
        i = i + 1;
    }
    assert(pairs.take(n as int) == pairs);
    let sorted = stable_sort_by_key(items, false);
    let ghost sv = sorted@;
    let mut out: Vec<String> = Vec::new();
    out.push(String::from_str("[LOAD ALL FILES HERE]"));
    out.push(String::from_str(".. (Go Up)"));
    let ghost head = out@.map_values(|s: String| s@);
    assert(head == seq![load_all_entry(), go_up_entry()]);
    let mut rest2 = sorted;
    let m = rest2.len();
    let mut j: usize = 0;
    while rest2.len() > 0
        invariant
            m == sv.len(),
            j <= m,
            rest2@ == sv.skip(j as int),
            out@.map_values(|s: String| s@) == head + sv.take(j as int).map_values(
                |p: (Vec<char>, String)| p.1@,
            ),
        decreases rest2.len(),
    {
        let (_, name) = rest2.remove(0);
        assert(sv.take(j + 1) == sv.take(j as int).push(sv[j as int]));
        assert(sv.skip(j + 1) == sv.skip(j as int).drop_first());
        let ghost before = out@.map_values(|s: String| s@);
        out.push(name);
        assert(out@.map_values(|s: String| s@) == before.push(sv[j as int].1@));
        j = j + 1;
        assert(out@.map_values(|s: String| s@) == head + sv.take(j as int).map_values(
            |p: (Vec<char>, String)| p.1@,
        ));
    }
    assert(sv.take(m as int) == sv);
    out
}

/// `keys` are the lower-cased names of `folders`, one per folder.
pub open spec fn lowercase_keys(folders: Seq<String>, keys: Seq<Vec<char>>) -> bool {
    keys.len() == folders.len() && forall|i: int|
        0 <= i < keys.len() ==> #[trigger] keys[i]@ == lowercase(folders[i]@)
}

/// Sort keys made of the lower-cased names of `folders` (any such keys order
/// the folders alike: see `lemma_menu_entries_by_key_views`).
pub open spec fn dir_menu_keys(folders: Seq<String>) -> Seq<Vec<char>> {
    choose|keys: Seq<Vec<char>>| lowercase_keys(folders, keys)
}

/// The sort key of each folder name: the name lower-cased.
pub fn lowercase_keys_of(folders: &Vec<String>) -> (keys: Vec<Vec<char>>)
    ensures
        lowercase_keys(folders@, keys@),
{
    let mut keys: Vec<Vec<char>> = Vec::new();
    let mut i: usize = 0;
    while i < folders.len()
        invariant
            i <= folders.len(),
            keys.len() == i,
            forall|k: int| 0 <= k < i ==> #[trigger] keys@[k]@ == lowercase(folders@[k]@),
        decreases folders.len() - i,
    {
        let low = to_lowercase(folders[i].as_str());
        keys.push(chars_of(low.as_str()));
        i = i + 1;
    }
    keys
}

/// The directory browser's entries: "[LOAD ALL FILES HERE]", ".. (Go Up)",
/// then the folder names sorted (stably) by their lower-cased form.
pub fn populate_dir_menu(folders: Vec<String>) -> (r: Vec<String>)
    ensures
        lowercase_keys(folders@, dir_menu_keys(folders@)),
        r@.map_values(|s: String| s@) == menu_entries(folders@, dir_menu_keys(folders@)),
{
    let keys = lowercase_keys_of(&folders);
    let ghost kv = keys@;
    let ghost fs = folders@;
    let r = dir_menu_from_keys(folders, keys);
    proof {
        assert(lowercase_keys(fs, kv));
        let chosen = dir_menu_keys(fs);
        assert(lowercase_keys(fs, chosen));
        assert forall|i: int| 0 <= i < kv.len() implies #[trigger] kv[i]@ == chosen[i]@ by {
            assert(kv[i]@ == lowercase(fs[i]@));
            assert(chosen[i]@ == lowercase(fs[i]@));
        }
        lemma_menu_entries_by_key_views(fs, kv, chosen);
    }
    r
}

/// The browser entries depend only on the characters of the sort keys.
pub proof fn lemma_menu_entries_by_key_views(folders: Seq<String>, k1: Seq<Vec<char>>, k2: Seq<Vec<char>>)
    requires
        k1.len() == folders.len(),
        k2.len() == folders.len(),
        forall|i: int| 0 <= i < k1.len() ==> #[trigger] k1[i]@ == k2[i]@,
    ensures
        menu_entries(folders, k1) == menu_entries(folders, k2),
{
    let s1 = Seq::new(folders.len(), |i: int| (k1[i], folders[i]));
    let s2 = Seq::new(folders.len(), |i: int| (k2[i], folders[i]));
    assert forall|i: int| 0 <= i < s1.len() implies #[trigger] s1[i].0@ == s2[i].0@ && s1[i].1 == s2[i].1 by {
        assert(k1[i]@ == k2[i]@);
    }
    crate::sort::lemma_sort_by_key_views(s1, s2, false);
    let o1 = stable_sorted(s1, false);
    let o2 = stable_sorted(s2, false);
    assert(o1.map_values(|p: (Vec<char>, String)| p.1@) == o2.map_values(|p: (Vec<char>, String)| p.1@)) by {
        assert forall|i: int| 0 <= i < o1.len() implies o1[i].1@ == o2[i].1@ by {
            assert(o1[i].0@ == o2[i].0@);
        }
    }
}

/// One row up, unless already at the top.
pub open spec fn row_up(sel: int) -> int {
    if sel > 0 {
        sel - 1
    } else {
        sel
    }
}

/// One row down, unless already at the last of `len` rows.
pub open spec fn row_down(sel: int, len: int) -> int {
    if sel < (if len > 0 {
        len - 1
    } else {
        0
    }) {
        sel + 1
    } else {
        sel
    }
}

/// Moves a selection one row up, stopping at the first row.
pub fn select_up(sel: usize) -> (r: usize)
    ensures
        r == row_up(sel as int),
{
    if sel > 0 {
        sel - 1
    } else {
        sel
    }
}

/// Moves a selection one row down, stopping at the last of `len` rows.
pub fn select_down(sel: usize, len: usize) -> (r: usize)
    ensures
        r == row_down(sel as int, len as int),
{
    if sel < len.saturating_sub(1) {
        sel + 1
    } else {
        sel
    }
}

/// Moving down then up in a list returns to the same row, when there is a
/// row below.
pub proof fn lemma_up_after_down(sel: int, len: int)
    requires
        0 <= sel,
        sel + 1 < len,
    ensures
        row_up(row_down(sel, len)) == sel,
{
}

/// A selection in a list stays in it when moved either way.
pub proof fn lemma_moves_stay_in_list(sel: int, len: int)
    requires
        0 <= sel < len,
    ensures
        0 <= row_up(sel) < len,
        0 <= row_down(sel, len) < len,
{
}

/// The first row shown after scrolling to keep `sel` visible in a window of
/// `height` rows that started at `scroll`.
pub open spec fn followed(sel: int, scroll: int, height: int) -> int {
    let s = if sel < scroll {
        sel
    } else {
        scroll
    };
    if sel >= s + height {
        let t = if sel >= height {
            sel - height
        } else {
            0
        };
        if t + 1 > usize::MAX {
            usize::MAX as int
        } else {
            t + 1
        }
    } else {
        s
    }
}

/// Scrolls a window of `height` rows, that starts at row `scroll`, as little
/// as needed to show row `sel`.
pub fn follow_selection(sel: usize, scroll: usize, height: usize) -> (r: usize)
    ensures
        r == followed(sel as int, scroll as int, height as int),
{
    let mut s = scroll;
    if sel < s {
        s = sel;
    }
    if sel - s >= height {
        s = sel.saturating_sub(height).saturating_add(1);
    }
    s
}

/// After scrolling, the selected row is in the window, unless the window
/// has no rows.
pub proof fn lemma_follow_shows_selection(sel: int, scroll: int, height: int)
    requires
        0 <= sel <= usize::MAX,
        0 <= scroll,
        0 < height,
    ensures
        followed(sel, scroll, height) <= sel < followed(sel, scroll, height) + height,
{
}

/// A selection already in the window does not scroll it.
pub proof fn lemma_follow_keeps_visible(sel: int, scroll: int, height: int)
    requires
        scroll <= sel < scroll + height,
    ensures
        followed(sel, scroll, height) == scroll,
{
}

/// Whether the name at this position is listed: outside search mode or with
/// an empty query every name is; else a name is when its lower-cased form
/// holds the lower-cased query.
pub open spec fn listed(lower_name: Seq<char>, lower_query: Seq<char>, query_empty: bool, search_mode: bool) -> bool {
    !search_mode || query_empty || contains_seq(lower_name, lower_query)
}

/// The positions of the listed names, in order.
pub open spec fn listed_positions(lower_names: Seq<Seq<char>>, lower_query: Seq<char>, query_empty: bool, search_mode: bool) -> Seq<usize>
    decreases lower_names.len(),
{
    if lower_names.len() == 0 {
        Seq::empty()
    } else {
        let r = listed_positions(lower_names.drop_last(), lower_query, query_empty, search_mode);
        if listed(lower_names.last(), lower_query, query_empty, search_mode) {
            r.push((lower_names.len() - 1) as usize)
        } else {
            r
        }
    }
}

/// The positions of the names listed by a search, given the names and the
/// query already lower-cased, and whether the query as typed is empty.
pub fn listed_indices(lower_names: &Vec<Vec<char>>, lower_query: &Vec<char>, query_empty: bool, search_mode: bool) -> (r: Vec<usize>)
    ensures
        r@ == listed_positions(
            lower_names@.map_values(|v: Vec<char>| v@),
            lower_query@,
            query_empty,
            search_mode,
        ),
{
    let ghost ns = lower_names@.map_values(|v: Vec<char>| v@);
    let mut r: Vec<usize> = Vec::new();
    let mut i: usize = 0;
    assert(ns.take(0) == Seq::<Seq<char>>::empty());
    while i < lower_names.len()
        invariant
            i <= lower_names.len(),
            ns == lower_names@.map_values(|v: Vec<char>| v@),
            r@ == listed_positions(ns.take(i as int), lower_query@, query_empty, search_mode),
        decreases lower_names.len() - i,
    {
        assert(ns.take(i + 1).drop_last() == ns.take(i as int));
        assert(ns.take(i + 1).last() == lower_names@[i as int]@);
        if !search_mode || query_empty || contains_chars(&lower_names[i], lower_query) {
            r.push(i);
        }
        i = i + 1;
    }
    assert(ns.take(lower_names.len() as int) == ns);
    r
}

/// The positions of the track names that the search shows: all of them
/// outside search mode or with an empty query, else those whose lower-cased
/// name holds the lower-cased query.
pub fn matching_indices(names: &Vec<String>, query: &str, search_mode: bool) -> (r: Vec<usize>)
    ensures
        r@ == listed_positions(
            names@.map_values(|s: String| lowercase(s@)),
            lowercase(query@),
            query@.len() == 0,
            search_mode,
        ),
{
    let mut lower: Vec<Vec<char>> = Vec::new();
    let mut i: usize = 0;
    while i < names.len()
        invariant
            i <= names.len(),
            lower.len() == i,
            forall|k: int| 0 <= k < i ==> #[trigger] lower@[k]@ == lowercase(names@[k]@),
        decreases names.len() - i,
    {
        let l = to_lowercase(names[i].as_str());
        lower.push(chars_of(l.as_str()));
        i = i + 1;
    }
    let lq = to_lowercase(query);
    let q = chars_of(lq.as_str());
    assert(lower@.map_values(|v: Vec<char>| v@) == names@.map_values(|s: String| lowercase(s@)));
    listed_indices(&lower, &q, query.is_empty(), search_mode)
}

/// The listed positions are increasing positions of names.
pub proof fn lemma_listed_positions_in_range(lower_names: Seq<Seq<char>>, lower_query: Seq<char>, query_empty: bool, search_mode: bool)
    requires
        lower_names.len() <= usize::MAX,
    ensures
        forall|k: int|
            0 <= k < listed_positions(lower_names, lower_query, query_empty, search_mode).len()
                ==> #[trigger] listed_positions(lower_names, lower_query, query_empty, search_mode)[k]
                < lower_names.len(),
        forall|k: int, l: int|
            0 <= k < l < listed_positions(lower_names, lower_query, query_empty, search_mode).len()
                ==> #[trigger] listed_positions(lower_names, lower_query, query_empty, search_mode)[k]
                < #[trigger] listed_positions(lower_names, lower_query, query_empty, search_mode)[l],
        listed_positions(lower_names, lower_query, query_empty, search_mode).len()
            <= lower_names.len(),
    decreases lower_names.len(),
{
    if lower_names.len() > 0 {
        lemma_listed_positions_in_range(lower_names.drop_last(), lower_query, query_empty, search_mode);
        let r = listed_positions(lower_names.drop_last(), lower_query, query_empty, search_mode);
        assert(forall|k: int| 0 <= k < r.len() ==> #[trigger] r[k] < lower_names.len() - 1);
        let out = listed_positions(lower_names, lower_query, query_empty, search_mode);
        assert forall|k: int, l: int| 0 <= k < l < out.len() implies #[trigger] out[k] < #[trigger] out[l] by {
            assert(out[k] == r[k]);
            if l < r.len() {
                assert(out[l] == r[l]);
                assert(r[k] < r[l]);
            } else {
                assert(out[l] == lower_names.len() - 1);
            }
        }
    }
}

/// Without a search every name is listed.
pub proof fn lemma_all_listed_without_search(lower_names: Seq<Seq<char>>, lower_query: Seq<char>, query_empty: bool)
    requires
        lower_names.len() <= usize::MAX,
    ensures
        listed_positions(lower_names, lower_query, query_empty, false) == Seq::new(
            lower_names.len(),
            |i: int| i as usize,
        ),
    decreases lower_names.len(),
{
    if lower_names.len() > 0 {
        lemma_all_listed_without_search(lower_names.drop_last(), lower_query, query_empty);
    }
}

} // verus!
