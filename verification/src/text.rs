//! Character-level text operations on strings viewed as sequences of `char`.

use vstd::prelude::*;

verus! {

broadcast use vstd::string::group_string_axioms;

/// Unicode `White_Space`, the set that `char::is_whitespace` tests.
pub open spec fn is_white_space(c: char) -> bool {
    let u = c as u32;
    ||| 0x09 <= u <= 0x0D
    ||| u == 0x20
    ||| u == 0x85
    ||| u == 0xA0
    ||| u == 0x1680
    ||| 0x2000 <= u <= 0x200A
    ||| u == 0x2028
    ||| u == 0x2029
    ||| u == 0x202F
    ||| u == 0x205F
    ||| u == 0x3000
}

/// `s` without its leading white space.
pub open spec fn trim_start(s: Seq<char>) -> Seq<char>
    decreases s.len(),
{
    if s.len() > 0 && is_white_space(s[0]) {
        trim_start(s.drop_first())
    } else {
        s
    }
}

/// `s` without its trailing white space.
pub open spec fn trim_end(s: Seq<char>) -> Seq<char>
    decreases s.len(),
{
    if s.len() > 0 && is_white_space(s.last()) {
        trim_end(s.drop_last())
    } else {
        s
    }
}

/// `s` without white space at either end (what `str::trim` gives).
pub open spec fn trim(s: Seq<char>) -> Seq<char> {
    trim_end(trim_start(s))
}

/// The pieces of `s` between occurrences of `sep` (what `str::split` with a
/// `char` pattern gives): always at least one piece.
pub open spec fn split_on(s: Seq<char>, sep: char) -> Seq<Seq<char>>
    decreases s.len(),
{
    if s.len() == 0 {
        seq![Seq::<char>::empty()]
    } else {
        let r = split_on(s.drop_last(), sep);
        if s.last() == sep {
            r.push(Seq::<char>::empty())
        } else {
            r.update(r.len() - 1, r.last().push(s.last()))
        }
    }
}

/// A line without the carriage return that ends it, if any.
pub open spec fn strip_cr(l: Seq<char>) -> Seq<char> {
    if l.len() > 0 && l.last() == '\r' {
        l.drop_last()
    } else {
        l
    }
}

/// The lines of `s` as `str::lines` yields them: split at `'\n'`, a `'\r'`
/// just before a `'\n'` dropped, and no empty last line after a final `'\n'`.
pub open spec fn lines_of(s: Seq<char>) -> Seq<Seq<char>> {
    let pieces = split_on(s, '\n');
    let body = pieces.drop_last().map_values(|l: Seq<char>| strip_cr(l));
    if pieces.last().len() == 0 {
        body
    } else {
        body.push(pieces.last())
    }
}

/// The character sequences held by a sequence of character vectors.
pub open spec fn views(v: Seq<Vec<char>>) -> Seq<Seq<char>> {
    v.map_values(|x: Vec<char>| x@)
}

/// `needle` occurs in `hay` at position `k`.
pub open spec fn occurs_at(hay: Seq<char>, needle: Seq<char>, k: int) -> bool {
    0 <= k && k + needle.len() <= hay.len() && hay.subrange(k, k + needle.len()) == needle
}

/// `needle` occurs somewhere in `hay` (what `str::contains` with a string
/// pattern tests).
pub open spec fn contains_seq(hay: Seq<char>, needle: Seq<char>) -> bool {
    exists|k: int| occurs_at(hay, needle, k)
}

pub proof fn lemma_split_on_nonempty(s: Seq<char>, sep: char)
    ensures
        split_on(s, sep).len() >= 1,
    decreases s.len(),
{
    if s.len() > 0 {
        lemma_split_on_nonempty(s.drop_last(), sep);
    }
}

/// The last piece of a split is no longer than the text.
pub proof fn lemma_split_on_last_len(s: Seq<char>, sep: char)
    ensures
        split_on(s, sep).len() >= 1,
        split_on(s, sep).last().len() <= s.len(),
    decreases s.len(),
{
    lemma_split_on_nonempty(s, sep);
    if s.len() > 0 {
        lemma_split_on_last_len(s.drop_last(), sep);
    }
}

/// The characters of a string slice, in order.
pub fn chars_of(s: &str) -> (v: Vec<char>)
    ensures
        v@ == s@,
{
    let mut v: Vec<char> = Vec::new();
    for c in it: s.chars()
        invariant
            it.seq() == s@,
            v@ == s@.take(it.index()),
    {
        v.push(c);
        assert(s@.take(it.index() + 1) == s@.take(it.index()).push(c));
    }
    assert(s@.take(s@.len() as int) == s@);
    v
}

/// Builds a `String` from its characters (calls `FromIterator<&char>` for
/// `String`); claims the result holds exactly
/// those characters in order.
#[verifier::external_body]
pub(crate) fn string_of(v: &[char]) -> (s: String)
    ensures
        s@ == v@,
{
    String::from_iter(v.iter())
}

pub fn is_white_space_char(c: char) -> (b: bool)
    ensures
        b == is_white_space(c),
{
    let u = c as u32;
    (0x09 <= u && u <= 0x0D) || u == 0x20 || u == 0x85 || u == 0xA0 || u == 0x1680 || (0x2000
        <= u && u <= 0x200A) || u == 0x2028 || u == 0x2029 || u == 0x202F || u == 0x205F || u
        == 0x3000
}

/// The characters of `v` from `from` up to `to`.
pub fn sub_chars(v: &Vec<char>, from: usize, to: usize) -> (r: Vec<char>)
    requires
        from <= to <= v.len(),
    ensures
        r@ == v@.subrange(from as int, to as int),
{
    let mut r: Vec<char> = Vec::new();
    let mut i = from;
    while i < to
        invariant
            from <= i <= to <= v.len(),
            r@ == v@.subrange(from as int, i as int),
        decreases to - i,
    {
        r.push(v[i]);
        i = i + 1;
        assert(r@ == v@.subrange(from as int, i as int));
    }
    r
}

proof fn lemma_trim_start_skip(s: Seq<char>, i: int)
    requires
        0 <= i < s.len(),
        is_white_space(s[i]),
    ensures
        trim_start(s.skip(i)) == trim_start(s.skip(i + 1)),
{
    assert(s.skip(i).drop_first() == s.skip(i + 1));
}

proof fn lemma_trim_end_take(s: Seq<char>, j: int)
    requires
        0 < j <= s.len(),
        is_white_space(s[j - 1]),
    ensures
        trim_end(s.take(j)) == trim_end(s.take(j - 1)),
{
    assert(s.take(j).drop_last() == s.take(j - 1));
}

/// The characters of `v` without white space at either end.
pub fn trim_chars(v: &Vec<char>) -> (r: Vec<char>)
    ensures
        r@ == trim(v@),
{
    let n = v.len();
    let mut i: usize = 0;
    assert(v@.skip(0) == v@);
    while i < n && is_white_space_char(v[i])
        invariant
            i <= n == v.len(),
            trim_start(v@) == trim_start(v@.skip(i as int)),
        decreases n - i,
    {
        proof {
            lemma_trim_start_skip(v@, i as int);
        }
        i = i + 1;
    }
    let ghost t = v@.skip(i as int);
    assert(trim_start(v@) == t) by {
        if i < n {
        } else {
            assert(t.len() == 0);
        }
    }
    let mut j: usize = n;
    assert(t.take(t.len() as int) == t);
    while j > i && is_white_space_char(v[j - 1])
        invariant
            i <= j <= n == v.len(),
            t == v@.skip(i as int),
            trim_end(t) == trim_end(t.take(j - i)),
        decreases j,
    {
        proof {
            lemma_trim_end_take(t, j - i);
        }
        j = j - 1;
    }
    assert(trim_end(t) == t.take(j - i)) by {
        if j > i {
        } else {
            assert(t.take(0).len() == 0);
        }
    }
    assert(t.take(j - i) == v@.subrange(i as int, j as int));
    sub_chars(v, i, j)
}

/// The pieces of `v` between occurrences of `sep`.
pub fn split_chars(v: &Vec<char>, sep: char) -> (r: Vec<Vec<char>>)
    ensures
        views(r@) == split_on(v@, sep),
{
    let mut pieces: Vec<Vec<char>> = Vec::new();
    let mut cur: Vec<char> = Vec::new();
    let mut i: usize = 0;
    assert(v@.take(0) == Seq::<char>::empty());
    assert(views(pieces@).push(cur@) == split_on(v@.take(0), sep));
    while i < v.len()
        invariant
            i <= v.len(),
            views(pieces@).push(cur@) == split_on(v@.take(i as int), sep),
        decreases v.len() - i,
    {
        let c = v[i];
        let ghost prev = v@.take(i as int);
        assert(v@.take(i + 1).drop_last() == prev);
        assert(v@.take(i + 1).last() == c);
        if c == sep {
            let ghost old_dv = views(pieces@);
            pieces.push(cur);
            cur = Vec::new();
            assert(views(pieces@) == old_dv.push(split_on(prev, sep).last()));
        } else {
            let ghost old_dv = views(pieces@);
            cur.push(c);
            assert(views(pieces@) == old_dv);
        }
        i = i + 1;
        assert(views(pieces@).push(cur@) == split_on(v@.take(i as int), sep));
    }
    assert(v@.take(v.len() as int) == v@);
    let ghost before = views(pieces@);
    pieces.push(cur);
    assert(views(pieces@) == before.push(cur@));
    pieces
}

} // verus!

verus! {

/// The first piece of a split starts with the first character of the text
/// when that character is not the separator.
pub proof fn lemma_split_on_first(s: Seq<char>, sep: char)
    requires
        s.len() > 0,
        s[0] != sep,
    ensures
        split_on(s, sep).len() >= 1,
        split_on(s, sep)[0].len() >= 1,
        split_on(s, sep)[0][0] == s[0],
    decreases s.len(),
{
    lemma_split_on_nonempty(s, sep);
    if s.len() == 1 {
        assert(s.drop_last().len() == 0);
    } else {
        let t = s.drop_last();
        lemma_split_on_first(t, sep);
        lemma_split_on_nonempty(t, sep);
    }
}

/// A line without the carriage return that ends it, if any.
pub fn strip_cr_chars(l: &Vec<char>) -> (r: Vec<char>)
    ensures
        r@ == strip_cr(l@),
{
    let n = l.len();
    if n > 0 && l[n - 1] == '\r' {
        sub_chars(l, 0, n - 1)
    } else {
        assert(l@.subrange(0, n as int) == l@);
        sub_chars(l, 0, n)
    }
}

/// The lines of `v`, as `str::lines` yields them.
pub fn lines_chars(v: &Vec<char>) -> (r: Vec<Vec<char>>)
    ensures
        views(r@) == lines_of(v@),
{
    let pieces = split_chars(v, '\n');
    proof {
        lemma_split_on_nonempty(v@, '\n');
    }
    let n = pieces.len();
    let ghost ps = split_on(v@, '\n');
    let mut r: Vec<Vec<char>> = Vec::new();
    let mut k: usize = 0;
    while k + 1 < n
        invariant
            n == pieces.len() >= 1,
            views(pieces@) == ps,
            k + 1 <= n,
            views(r@) == ps.drop_last().take(k as int).map_values(|l: Seq<char>| strip_cr(l)),
        decreases n - k,
    {
        let line = strip_cr_chars(&pieces[k]);
        let ghost before = views(r@);
        r.push(line);
        assert(views(r@) == before.push(line@));
        assert(ps[k as int] == pieces@[k as int]@);
        assert(ps.drop_last().take(k + 1) == ps.drop_last().take(k as int).push(ps[k as int]));
        k = k + 1;
    }
    assert(ps.drop_last().take(k as int) == ps.drop_last());
    let last = &pieces[n - 1];
    assert(ps.last() == last@);
    if last.len() > 0 {
        let copy = sub_chars(last, 0, last.len());
        assert(last@.subrange(0, last@.len() as int) == last@);
        let ghost before = views(r@);
        r.push(copy);
        assert(views(r@) == before.push(copy@));
    }
    r
}

} // verus!

verus! {

/// What `str::to_lowercase` gives for a text (full Unicode lower-casing,
/// a function of the text alone).
pub uninterp spec fn lowercase(s: Seq<char>) -> Seq<char>;

/// Lower-cases a text (calls `str::to_lowercase`); claims only that the
/// result is `lowercase` of the text.
#[verifier::external_body]
pub(crate) fn to_lowercase(s: &str) -> (r: String)
    ensures
        r@ == lowercase(s@),
{
    s.to_lowercase()
}

/// Whether `needle` occurs in `hay` at position `k`.
pub fn occurs_at_exec(hay: &Vec<char>, needle: &Vec<char>, k: usize) -> (b: bool)
    ensures
        b == occurs_at(hay@, needle@, k as int),
{
    if k > hay.len() || needle.len() > hay.len() - k {
        return false;
    }
    let mut j: usize = 0;
    while j < needle.len()
        invariant
            k + needle.len() <= hay.len(),
            j <= needle.len(),
            forall|t: int| 0 <= t < j ==> hay@[k + t] == needle@[t],
        decreases needle.len() - j,
    {
        if hay[k + j] != needle[j] {
            assert(hay@.subrange(k as int, k + needle.len())[j as int] == hay@[k + j]);
            return false;
        }
        j = j + 1;
    }
    assert(hay@.subrange(k as int, k + needle.len()) == needle@);
    true
}

/// Whether `needle` occurs in `hay`.
pub fn contains_chars(hay: &Vec<char>, needle: &Vec<char>) -> (b: bool)
    ensures
        b == contains_seq(hay@, needle@),
{
    if needle.len() > hay.len() {
        return false;
    }
    if needle.len() == 0 {
        assert(hay@.subrange(0, 0) == needle@);
        assert(occurs_at(hay@, needle@, 0));
        return true;
    }
    let last = hay.len() - needle.len();
    let mut k: usize = 0;
    while k <= last
        invariant
            last + needle.len() == hay.len(),
            needle.len() > 0,
            k <= last + 1,
            forall|t: int| 0 <= t < k ==> !occurs_at(hay@, needle@, t),
        decreases last + 1 - k,
    {
        if occurs_at_exec(hay, needle, k) {
            return true;
        }
        k = k + 1;
    }
    assert forall|t: int| !occurs_at(hay@, needle@, t) by {
        if 0 <= t < k {
        }
    }
    false
}

} // verus!

verus! {

/// The pieces joined back together, with `sep` between neighbours.
pub open spec fn join_with(pieces: Seq<Seq<char>>, sep: char) -> Seq<char>
    decreases pieces.len(),
{
    if pieces.len() == 0 {
        Seq::empty()
    } else if pieces.len() == 1 {
        pieces[0]
    } else {
        join_with(pieces.drop_last(), sep) + seq![sep] + pieces.last()
    }
}

/// Joining the pieces of a split with the separator gives back the text.
pub proof fn lemma_join_split(s: Seq<char>, sep: char)
    ensures
        join_with(split_on(s, sep), sep) == s,
    decreases s.len(),
{
    if s.len() > 0 {
        let t = s.drop_last();
        let c = s.last();
        lemma_join_split(t, sep);
        lemma_split_on_nonempty(t, sep);
        let r = split_on(t, sep);
        if c == sep {
            assert(r.push(Seq::<char>::empty()).drop_last() == r);
            assert(join_with(r, sep) + seq![sep] + Seq::<char>::empty() == s);
        } else {
            let u = r.update(r.len() - 1, r.last().push(c));
            if r.len() == 1 {
                assert(u[0] == r[0].push(c));
                assert(join_with(r, sep) == r[0]);
                assert(s == t.push(c));
            } else {
                assert(u.drop_last() == r.drop_last());
                assert(join_with(r, sep) == join_with(r.drop_last(), sep) + seq![sep] + r.last());
                assert(join_with(u, sep) == join_with(r.drop_last(), sep) + seq![sep] + r.last().push(c));
                assert(s == t.push(c));
            }
        }
    }
}

/// No piece of a split holds the separator.
pub proof fn lemma_split_pieces_lack_sep(s: Seq<char>, sep: char)
    ensures
        forall|i: int, j: int|
            0 <= i < split_on(s, sep).len() && 0 <= j < split_on(s, sep)[i].len()
                ==> #[trigger] split_on(s, sep)[i][j] != sep,
    decreases s.len(),
{
    if s.len() > 0 {
        lemma_split_pieces_lack_sep(s.drop_last(), sep);
        lemma_split_on_nonempty(s.drop_last(), sep);
        let r = split_on(s.drop_last(), sep);
        let out = split_on(s, sep);
        assert forall|i: int, j: int|
            0 <= i < out.len() && 0 <= j < out[i].len() implies #[trigger] out[i][j] != sep by {
            if s.last() == sep {
                if i < r.len() {
                    assert(out[i] == r[i]);
                }
            } else {
                if i < r.len() - 1 {
                    assert(out[i] == r[i]);
                } else {
                    assert(out[i] == r[i].push(s.last()));
                    if j < r[i].len() {
                        assert(out[i][j] == r[i][j]);
                    }
                }
            }
        }
    }
}

/// No line holds a line feed.
pub proof fn lemma_lines_lack_line_feed(s: Seq<char>)
    ensures
        forall|i: int, j: int|
            0 <= i < lines_of(s).len() && 0 <= j < lines_of(s)[i].len() ==> #[trigger] lines_of(
                s,
            )[i][j] != '\n',
{
    lemma_split_pieces_lack_sep(s, '\n');
    lemma_split_on_nonempty(s, '\n');
    let pieces = split_on(s, '\n');
    let ls = lines_of(s);
    assert forall|i: int, j: int| 0 <= i < ls.len() && 0 <= j < ls[i].len() implies #[trigger] ls[i][j]
        != '\n' by {
        if i < pieces.len() - 1 {
            assert(ls[i] == strip_cr(pieces[i]));
            assert(ls[i][j] == pieces[i][j]);
        } else {
            assert(ls[i] == pieces.last());
            assert(ls[i][j] == pieces[pieces.len() - 1][j]);
        }
    }
}

} // verus!

verus! {

/// A text without the separator splits into itself alone.
pub proof fn lemma_split_on_without_sep(s: Seq<char>, sep: char)
    requires
        forall|i: int| 0 <= i < s.len() ==> s[i] != sep,
    ensures
        split_on(s, sep) == seq![s],
    decreases s.len(),
{
    if s.len() > 0 {
        let t = s.drop_last();
        assert forall|i: int| 0 <= i < t.len() implies t[i] != sep by {
            assert(t[i] == s[i]);
        }
        lemma_split_on_without_sep(t, sep);
        assert(s.last() == s[s.len() - 1]);
        assert(t.push(s.last()) == s);
        let r = split_on(t, sep);
        assert(r.len() == 1 && r.last() == t);
        assert(s.last() != sep);
        assert(split_on(s, sep) == r.update(0, r.last().push(s.last())));
        assert(seq![t].update(0, s) == seq![s]);
    } else {
        assert(s == Seq::<char>::empty());
    }
}

/// Splitting a text joined at a separator gives the pieces of each part.
pub proof fn lemma_split_on_concat(a: Seq<char>, sep: char, b: Seq<char>)
    ensures
        split_on(a + seq![sep] + b, sep) == split_on(a, sep) + split_on(b, sep),
    decreases b.len(),
{
    let s = a + seq![sep] + b;
    let p = split_on(a, sep);
    if b.len() == 0 {
        assert(s.drop_last() == a);
        assert(s.last() == sep);
        assert(split_on(b, sep) == seq![Seq::<char>::empty()]);
        assert(p.push(Seq::<char>::empty()) == p + seq![Seq::<char>::empty()]);
    } else {
        let bt = b.drop_last();
        let c = b.last();
        lemma_split_on_concat(a, sep, bt);
        lemma_split_on_nonempty(bt, sep);
        let q = split_on(bt, sep);
        assert(s.drop_last() == a + seq![sep] + bt);
        assert(s.last() == c);
        if c == sep {
            assert((p + q).push(Seq::<char>::empty()) == p + q.push(Seq::<char>::empty()));
        } else {
            let pq = p + q;
            assert(pq.last() == q.last());
            assert(pq.update(pq.len() - 1, pq.last().push(c)) == p + q.update(
                q.len() - 1,
                q.last().push(c),
            ));
        }
    }
}

/// The lines of a text joined at a line feed: the pieces of the first part,
/// each ended by a line feed (so a carriage return before it is dropped),
/// then the lines of the second part.
pub proof fn lemma_lines_of_concat(a: Seq<char>, b: Seq<char>)
    ensures
        lines_of(a + seq!['\n'] + b) == split_on(a, '\n').map_values(|l: Seq<char>| strip_cr(l))
            + lines_of(b),
{
    lemma_split_on_concat(a, '\n', b);
    lemma_split_on_nonempty(a, '\n');
    lemma_split_on_nonempty(b, '\n');
    let p = split_on(a, '\n');
    let q = split_on(b, '\n');
    let pieces = p + q;
    assert(pieces.drop_last() == p + q.drop_last());
    assert(pieces.last() == q.last());
    assert((p + q.drop_last()).map_values(|l: Seq<char>| strip_cr(l)) == p.map_values(
        |l: Seq<char>| strip_cr(l),
    ) + q.drop_last().map_values(|l: Seq<char>| strip_cr(l)));
    let pm = p.map_values(|l: Seq<char>| strip_cr(l));
    let qm = q.drop_last().map_values(|l: Seq<char>| strip_cr(l));
    if q.last().len() != 0 {
        assert((pm + qm).push(q.last()) == pm + qm.push(q.last()));
    }
}

/// Trimming ignores white space put after a text.
pub proof fn lemma_trim_start_push(x: Seq<char>, c: char)
    requires
        is_white_space(c),
    ensures
        trim_start(x.push(c)) == (if trim_start(x).len() == 0 {
            Seq::<char>::empty()
        } else {
            trim_start(x).push(c)
        }),
    decreases x.len(),
{
    if x.len() == 0 {
        assert(seq![c].drop_first().len() == 0);
        assert(trim_start(seq![c].drop_first()) == Seq::<char>::empty());
        assert(x.push(c) == seq![c]);
    } else if is_white_space(x[0]) {
        assert(x.push(c).drop_first() == x.drop_first().push(c));
        assert(x.push(c)[0] == x[0]);
        lemma_trim_start_push(x.drop_first(), c);
    } else {
        assert(x.push(c)[0] == x[0]);
    }
}

/// Trimming drops white space added at the end.
pub proof fn lemma_trim_push_white_space(x: Seq<char>, c: char)
    requires
        is_white_space(c),
    ensures
        trim(x.push(c)) == trim(x),
{
    lemma_trim_start_push(x, c);
    let t = trim_start(x);
    if t.len() != 0 {
        assert(t.push(c).drop_last() == t);
    }
}

} // verus!
