//! Stable sorting of keyed items, as `slice::sort_by_key` and
//! `slice::sort_by` do it: ascending, or descending as with a reversed key.

use vstd::prelude::*;
use crate::text::chars_of;

verus! {

broadcast use vstd::seq_lib::group_seq_properties;

/// A key that items can be sorted by: a total preorder, with an executable
/// comparison.
pub trait SortKey: Sized {
    /// `self` comes no later than `other`.
    spec fn key_le(self, other: Self) -> bool;

    proof fn lemma_key_total(a: Self, b: Self)
        ensures
            a.key_le(b) || b.key_le(a),
    ;

    proof fn lemma_key_trans(a: Self, b: Self, c: Self)
        requires
            a.key_le(b),
            b.key_le(c),
        ensures
            a.key_le(c),
    ;

    fn le(&self, other: &Self) -> (r: bool)
        ensures
            r == self.key_le(*other),
    ;
}

/// The lexicographic order of character sequences by code point, which is
/// the order `str` and `String` compare in (UTF-8 keeps code point order).
pub open spec fn lex_le(a: Seq<char>, b: Seq<char>) -> bool
    decreases a.len(),
{
    if a.len() == 0 {
        true
    } else if b.len() == 0 {
        false
    } else if a[0] as u32 != b[0] as u32 {
        (a[0] as u32) < (b[0] as u32)
    } else {
        lex_le(a.drop_first(), b.drop_first())
    }
}

pub proof fn lemma_lex_total(a: Seq<char>, b: Seq<char>)
    ensures
        lex_le(a, b) || lex_le(b, a),
    decreases a.len(),
{
    if a.len() > 0 && b.len() > 0 {
        if a[0] as u32 == b[0] as u32 {
            lemma_lex_total(a.drop_first(), b.drop_first());
        }
    }
}

pub proof fn lemma_lex_trans(a: Seq<char>, b: Seq<char>, c: Seq<char>)
    requires
        lex_le(a, b),
        lex_le(b, c),
    ensures
        lex_le(a, c),
    decreases a.len(),
{
    if a.len() > 0 && b.len() > 0 && c.len() > 0 && a[0] as u32 == b[0] as u32 && b[0] as u32 == c[0] as u32 {
        lemma_lex_trans(a.drop_first(), b.drop_first(), c.drop_first());
    }
}

impl SortKey for i128 {
    open spec fn key_le(self, other: Self) -> bool {
        self <= other
    }

    proof fn lemma_key_total(a: Self, b: Self) {
    }

    proof fn lemma_key_trans(a: Self, b: Self, c: Self) {
    }

    fn le(&self, other: &Self) -> (r: bool) {
        *self <= *other
    }
}

impl SortKey for String {
    open spec fn key_le(self, other: Self) -> bool {
        lex_le(self@, other@)
    }

    proof fn lemma_key_total(a: Self, b: Self) {
        lemma_lex_total(a@, b@);
    }

    proof fn lemma_key_trans(a: Self, b: Self, c: Self) {
        lemma_lex_trans(a@, b@, c@);
    }

    fn le(&self, other: &Self) -> (r: bool) {
        let a = chars_of(self.as_str());
        let b = chars_of(other.as_str());
        SortKey::le(&a, &b)
    }
}

impl SortKey for Vec<char> {
    open spec fn key_le(self, other: Self) -> bool {
        lex_le(self@, other@)
    }

    proof fn lemma_key_total(a: Self, b: Self) {
        lemma_lex_total(a@, b@);
    }

    proof fn lemma_key_trans(a: Self, b: Self, c: Self) {
        lemma_lex_trans(a@, b@, c@);
    }

    fn le(&self, other: &Self) -> (r: bool) {
        let mut i: usize = 0;
        while i < self.len() && i < other.len() && self[i] as u32 == other[i] as u32
            invariant
                i <= self.len(),
                i <= other.len(),
                lex_le(self@, other@) == lex_le(self@.skip(i as int), other@.skip(i as int)),
            decreases self.len() - i,
        {
            let ghost a = self@.skip(i as int);
            let ghost b = other@.skip(i as int);
            assert(a.drop_first() == self@.skip(i + 1));
            assert(b.drop_first() == other@.skip(i + 1));
            i = i + 1;
        }
        if i == self.len() {
            true
        } else if i == other.len() {
            false
        } else {
            (self[i] as u32) < (other[i] as u32)
        }
    }
}

/// `a` comes strictly before `b`.
pub open spec fn key_lt<K: SortKey>(a: K, b: K) -> bool {
    a.key_le(b) && !b.key_le(a)
}

/// `a` and `b` are equal as keys.
pub open spec fn key_eq<K: SortKey>(a: K, b: K) -> bool {
    a.key_le(b) && b.key_le(a)
}

/// In the chosen direction, key `a` must go strictly before key `b`.
pub open spec fn goes_before<K: SortKey>(a: K, b: K, descending: bool) -> bool {
    if descending {
        key_lt(b, a)
    } else {
        key_lt(a, b)
    }
}

/// Where a stable sort places a new last item among the already sorted
/// ones: before the first item that its key must go before.
pub open spec fn insert_pos<K: SortKey, T>(r: Seq<(K, T)>, x: K, descending: bool) -> int
    decreases r.len(),
{
    if r.len() == 0 {
        0
    } else if goes_before(x, r[0].0, descending) {
        0
    } else {
        1 + insert_pos(r.drop_first(), x, descending)
    }
}

/// The stable sort of `s` by key: items with equal keys keep their order.
pub open spec fn stable_sorted<K: SortKey, T>(s: Seq<(K, T)>, descending: bool) -> Seq<(K, T)>
    decreases s.len(),
{
    if s.len() == 0 {
        Seq::empty()
    } else {
        let r = stable_sorted(s.drop_last(), descending);
        r.insert(insert_pos(r, s.last().0, descending), s.last())
    }
}

/// No item goes strictly before an item that precedes it.
pub open spec fn is_sorted_by_key<K: SortKey, T>(s: Seq<(K, T)>, descending: bool) -> bool {
    forall|i: int, j: int|
        0 <= i < j < s.len() ==> !goes_before(#[trigger] s[j].0, #[trigger] s[i].0, descending)
}

proof fn lemma_insert_pos_bounds<K: SortKey, T>(r: Seq<(K, T)>, x: K, descending: bool)
    ensures
        0 <= insert_pos(r, x, descending) <= r.len(),
        forall|k: int| 0 <= k < insert_pos(r, x, descending) ==> !goes_before(x, #[trigger] r[k].0, descending),
        insert_pos(r, x, descending) < r.len() ==> goes_before(x, r[insert_pos(r, x, descending)].0, descending),
    decreases r.len(),
{
    if r.len() > 0 && !goes_before(x, r[0].0, descending) {
        lemma_insert_pos_bounds(r.drop_first(), x, descending);
        let p = insert_pos(r, x, descending);
        assert forall|k: int| 0 <= k < p implies !goes_before(x, #[trigger] r[k].0, descending) by {
            if k > 0 {
                assert(r[k] == r.drop_first()[k - 1]);
            }
        }
    }
}

proof fn lemma_insert_pos_is<K: SortKey, T>(r: Seq<(K, T)>, x: K, descending: bool, j: int)
    requires
        0 <= j <= r.len(),
        forall|k: int| 0 <= k < j ==> !goes_before(x, #[trigger] r[k].0, descending),
        j < r.len() ==> goes_before(x, r[j].0, descending),
    ensures
        insert_pos(r, x, descending) == j,
    decreases j,
{
    if j > 0 {
        assert(!goes_before(x, r[0].0, descending));
        let t = r.drop_first();
        assert forall|k: int| 0 <= k < j - 1 implies !goes_before(x, #[trigger] t[k].0, descending) by {
            assert(t[k] == r[k + 1]);
        }
        lemma_insert_pos_is(t, x, descending, j - 1);
    }
}

proof fn lemma_lt_trans<K: SortKey>(a: K, b: K, c: K)
    requires
        key_lt(a, b),
        key_lt(b, c),
    ensures
        key_lt(a, c),
{
    K::lemma_key_trans(a, b, c);
    if c.key_le(a) {
        K::lemma_key_trans(c, a, b);
    }
}

proof fn lemma_before_trans<K: SortKey>(a: K, b: K, c: K, descending: bool)
    requires
        goes_before(a, b, descending),
        goes_before(b, c, descending),
    ensures
        goes_before(a, c, descending),
{
    if descending {
        lemma_lt_trans(c, b, a);
    } else {
        lemma_lt_trans(a, b, c);
    }
}

/// Sorts `items` by key, stably, ascending or (as with a reversed key)
/// descending.
pub fn stable_sort_by_key<K: SortKey, T>(items: Vec<(K, T)>, descending: bool) -> (r: Vec<(K, T)>)
    ensures
        r@ == stable_sorted(items@, descending),
{
    let ghost input = items@;
    let mut rest = items;
    let mut r: Vec<(K, T)> = Vec::new();
    let mut i: usize = 0;
    let n = rest.len();
    assert(input.take(0) == Seq::<(K, T)>::empty());
    while rest.len() > 0
        invariant
            n == input.len(),
            i <= n,
            rest@ == input.skip(i as int),
            r@ == stable_sorted(input.take(i as int), descending),
        decreases rest.len(),
    {
        let item = rest.remove(0);
        assert(item == input[i as int]);
        let mut j: usize = 0;
        while j < r.len() && !goes_before_exec(&item.0, &r[j].0, descending)
            invariant
                j <= r.len(),
                forall|k: int| 0 <= k < j ==> !goes_before(item.0, #[trigger] r@[k].0, descending),
            decreases r.len() - j,
        {
            j = j + 1;
        }
        proof {
            lemma_insert_pos_is(r@, item.0, descending, j as int);
            assert(input.take(i + 1).drop_last() == input.take(i as int));
            assert(input.take(i + 1).last() == item);
            assert(input.skip(i + 1) == input.skip(i as int).drop_first());
        }
        r.insert(j, item);
        i = i + 1;
    }
    assert(input.take(n as int) == input);
    r
}

/// Whether key `a` must go strictly before key `b` in the chosen direction.
pub fn goes_before_exec<K: SortKey>(a: &K, b: &K, descending: bool) -> (r: bool)
    ensures
        r == goes_before(*a, *b, descending),
{
    if descending {
        b.le(a) && !a.le(b)
    } else {
        a.le(b) && !b.le(a)
    }
}

/// The stable sort puts the items in key order.
#[verifier::spinoff_prover]
#[verifier::rlimit(30)]
pub proof fn lemma_stable_sorted_is_sorted<K: SortKey, T>(s: Seq<(K, T)>, descending: bool)
    ensures
        is_sorted_by_key(stable_sorted(s, descending), descending),
        stable_sorted(s, descending).len() == s.len(),
    decreases s.len(),
{
    if s.len() > 0 {
        let r = stable_sorted(s.drop_last(), descending);
        lemma_stable_sorted_is_sorted(s.drop_last(), descending);
        let x = s.last();
        let p = insert_pos(r, x.0, descending);
        lemma_insert_pos_bounds(r, x.0, descending);
        let out = r.insert(p, x);
        assert forall|i: int, j: int| 0 <= i < j < out.len() implies !goes_before(
            #[trigger] out[j].0,
            #[trigger] out[i].0,
            descending,
        ) by {
            if j < p {
                assert(out[i] == r[i] && out[j] == r[j]);
            } else if j == p {
                assert(out[i] == r[i]);
            } else if i == p {
                assert(out[j] == r[j - 1]);
                if goes_before(r[j - 1].0, x.0, descending) {
                    lemma_before_trans(r[j - 1].0, x.0, r[p].0, descending);
                    if j - 1 > p {
                        assert(!goes_before(r[j - 1].0, r[p].0, descending));
                    } else {
                        assert(goes_before(r[p].0, r[p].0, descending));
                    }
                }
            } else if i < p {
                assert(out[i] == r[i] && out[j] == r[j - 1]);
            } else {
                assert(out[i] == r[i - 1] && out[j] == r[j - 1]);
            }
        }
    }
}

/// The stable sort only reorders: it holds the same items, as often.
pub proof fn lemma_stable_sorted_permutes<K: SortKey, T>(s: Seq<(K, T)>, descending: bool)
    ensures
        stable_sorted(s, descending).to_multiset() == s.to_multiset(),
    decreases s.len(),
{
    broadcast use vstd::seq_lib::to_multiset_insert, vstd::seq_lib::to_multiset_build;

    if s.len() > 0 {
        lemma_stable_sorted_permutes(s.drop_last(), descending);
        let r = stable_sorted(s.drop_last(), descending);
        lemma_insert_pos_bounds(r, s.last().0, descending);
        assert(s.drop_last().push(s.last()) == s);
    }
}

/// A key strictly after `b` is strictly after anything strictly before `b`.
proof fn lemma_before_then_not_before<K: SortKey>(a: K, b: K, c: K, descending: bool)
    requires
        goes_before(a, b, descending),
        !goes_before(c, b, descending),
    ensures
        goes_before(a, c, descending),
{
    K::lemma_key_total(b, c);
    if descending {
        assert(c.key_le(b));
        K::lemma_key_trans(c, b, a);
        if a.key_le(c) {
            K::lemma_key_trans(a, c, b);
        }
    } else {
        K::lemma_key_trans(a, b, c);
        if c.key_le(a) {
            K::lemma_key_trans(b, c, a);
        }
    }
}

/// Keys in strict order are not equal.
proof fn lemma_before_not_eq<K: SortKey>(a: K, c: K, k: K, descending: bool)
    requires
        goes_before(a, c, descending),
        key_eq(a, k),
    ensures
        !key_eq(c, k),
{
    if key_eq(c, k) {
        K::lemma_key_trans(a, k, c);
        K::lemma_key_trans(c, k, a);
    }
}

/// Every item from the insertion point on has a key that the inserted key
/// goes strictly before.
proof fn lemma_after_insert_pos<K: SortKey, T>(r: Seq<(K, T)>, x: K, descending: bool, j: int)
    requires
        is_sorted_by_key(r, descending),
        insert_pos(r, x, descending) <= j < r.len(),
    ensures
        goes_before(x, r[j].0, descending),
{
    lemma_insert_pos_bounds(r, x, descending);
    let p = insert_pos(r, x, descending);
    if j > p {
        assert(!goes_before(r[j].0, r[p].0, descending));
        lemma_before_then_not_before(x, r[p].0, r[j].0, descending);
    }
}

/// The stable sort keeps the order of items with equal keys: for every key,
/// the items with that key come out in the order they came in.
pub proof fn lemma_stable_sorted_is_stable<K: SortKey, T>(s: Seq<(K, T)>, descending: bool, k: K)
    ensures
        stable_sorted(s, descending).filter(|p: (K, T)| key_eq(p.0, k)) == s.filter(
            |p: (K, T)| key_eq(p.0, k),
        ),
    decreases s.len(),
{
    let pred = |p: (K, T)| key_eq(p.0, k);
    if s.len() > 0 {
        lemma_stable_sorted_is_stable(s.drop_last(), descending, k);
        lemma_stable_sorted_is_sorted(s.drop_last(), descending);
        let r = stable_sorted(s.drop_last(), descending);
        let x = s.last();
        let p = insert_pos(r, x.0, descending);
        lemma_insert_pos_bounds(r, x.0, descending);
        let head = r.take(p);
        let tail = r.skip(p);
        assert(r == head + tail);
        assert(r.insert(p, x) == head.push(x) + tail);
        assert(s == s.drop_last().push(x));
        if key_eq(x.0, k) {
            assert forall|i: int| 0 <= i < tail.len() implies !pred(#[trigger] tail[i]) by {
                assert(tail[i] == r[p + i]);
                lemma_after_insert_pos(r, x.0, descending, p + i);
                lemma_before_not_eq(x.0, r[p + i].0, k, descending);
            }
            tail.lemma_all_neg_filter_empty(pred);
        }
        Seq::filter_distributes_over_add(head.push(x), tail, pred);
        Seq::filter_distributes_over_add(head, tail, pred);
        head.lemma_filter_push(x, pred);
        s.drop_last().lemma_filter_push(x, pred);
        if key_eq(x.0, k) {
            assert(tail.filter(pred) == Seq::<(K, T)>::empty());
            assert(head.filter(pred) + tail.filter(pred) == head.filter(pred));
            assert(head.push(x).filter(pred) + tail.filter(pred) == head.push(x).filter(pred));
        }
    }
}

/// Two keyed sequences that hold the same items under keys with the same
/// characters.
pub open spec fn same_key_views<T>(a: Seq<(Vec<char>, T)>, b: Seq<(Vec<char>, T)>) -> bool {
    &&& a.len() == b.len()
    &&& forall|i: int| 0 <= i < a.len() ==> #[trigger] a[i].0@ == b[i].0@ && a[i].1 == b[i].1
}

proof fn lemma_insert_pos_key_views<T>(r1: Seq<(Vec<char>, T)>, r2: Seq<(Vec<char>, T)>, x1: Vec<char>, x2: Vec<char>, descending: bool)
    requires
        same_key_views(r1, r2),
        x1@ == x2@,
    ensures
        insert_pos(r1, x1, descending) == insert_pos(r2, x2, descending),
    decreases r1.len(),
{
    if r1.len() > 0 {
        assert(r1[0].0@ == r2[0].0@);
        assert(same_key_views(r1.drop_first(), r2.drop_first())) by {
            assert forall|i: int| 0 <= i < r1.drop_first().len() implies #[trigger] r1.drop_first()[i].0@
                == r2.drop_first()[i].0@ && r1.drop_first()[i].1 == r2.drop_first()[i].1 by {
                assert(r1.drop_first()[i] == r1[i + 1]);
                assert(r2.drop_first()[i] == r2[i + 1]);
            }
        }
        lemma_insert_pos_key_views(r1.drop_first(), r2.drop_first(), x1, x2, descending);
    }
}

/// Sorting by character keys depends only on the characters of the keys:
/// keys with the same characters give the same order.
pub proof fn lemma_sort_by_key_views<T>(s1: Seq<(Vec<char>, T)>, s2: Seq<(Vec<char>, T)>, descending: bool)
    requires
        same_key_views(s1, s2),
    ensures
        same_key_views(stable_sorted(s1, descending), stable_sorted(s2, descending)),
    decreases s1.len(),
{
    if s1.len() > 0 {
        let t1 = s1.drop_last();
        let t2 = s2.drop_last();
        assert(same_key_views(t1, t2)) by {
            assert forall|i: int| 0 <= i < t1.len() implies #[trigger] t1[i].0@ == t2[i].0@ && t1[i].1
                == t2[i].1 by {
                assert(t1[i] == s1[i]);
                assert(t2[i] == s2[i]);
                assert(s1[i].0@ == s2[i].0@);
            }
        }
        lemma_sort_by_key_views(t1, t2, descending);
        let r1 = stable_sorted(t1, descending);
        let r2 = stable_sorted(t2, descending);
        assert(s1.last().0@ == s2.last().0@ && s1.last().1 == s2.last().1) by {
            assert(s1[s1.len() - 1].0@ == s2[s1.len() - 1].0@);
        }
        lemma_insert_pos_key_views(r1, r2, s1.last().0, s2.last().0, descending);
        lemma_insert_pos_bounds(r1, s1.last().0, descending);
        let p = insert_pos(r1, s1.last().0, descending);
        let o1 = r1.insert(p, s1.last());
        let o2 = r2.insert(p, s2.last());
        assert forall|i: int| 0 <= i < o1.len() implies #[trigger] o1[i].0@ == o2[i].0@ && o1[i].1 == o2[i].1 by {
            if i < p {
                assert(o1[i] == r1[i] && o2[i] == r2[i]);
                assert(r1[i].0@ == r2[i].0@);
            } else if i > p {
                assert(o1[i] == r1[i - 1] && o2[i] == r2[i - 1]);
                assert(r1[i - 1].0@ == r2[i - 1].0@);
            }
        }
    }
}

} // verus!
