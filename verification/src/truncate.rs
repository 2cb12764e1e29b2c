//! Fitting a labelled value into a fixed number of terminal cells.

use vstd::prelude::*;
use crate::text::{chars_of, string_of};

verus! {

broadcast use vstd::string::group_string_axioms;

/// `s` with each line feed turned into a space and each carriage return
/// dropped.
pub open spec fn clean_chars(s: Seq<char>) -> Seq<char>
    decreases s.len(),
{
    if s.len() == 0 {
        Seq::empty()
    } else {
        let r = clean_chars(s.drop_last());
        if s.last() == '\n' {
            r.push(' ')
        } else if s.last() == '\r' {
            r
        } else {
            r.push(s.last())
        }
    }
}

/// `n - 3`, or 0 when `n < 3`.
pub open spec fn minus_three(n: nat) -> nat {
    if n >= 3 {
        (n - 3) as nat
    } else {
        0
    }
}

/// The ellipsis that marks a cut text.
pub open spec fn ellipsis() -> Seq<char> {
    seq!['.', '.', '.']
}

/// `prefix` followed by the cleaned `val`; when that is longer than `max_w`
/// characters, its first `max_w - 3` characters (none when `max_w < 3`)
/// followed by `...`.
pub open spec fn truncated(prefix: Seq<char>, val: Seq<char>, max_w: nat) -> Seq<char> {
    let full = prefix + clean_chars(val);
    if full.len() > max_w {
        full.take(minus_three(max_w) as int) + ellipsis()
    } else {
        full
    }
}

/// `s` holds no line feed and no carriage return.
pub open spec fn single_line(s: Seq<char>) -> bool {
    forall|i: int| 0 <= i < s.len() ==> s[i] != '\n' && s[i] != '\r'
}

/// Joins `prefix` and `val` (with line breaks in `val` flattened) and cuts
/// the result to `max_w` characters, marking a cut with `...`.
pub fn safe_truncate(prefix: &str, val: &str, max_w: usize) -> (r: String)
    ensures
        r@ == truncated(prefix@, val@, max_w as nat),
{
    let p = chars_of(prefix);
    let v = chars_of(val);
    let mut full: Vec<char> = Vec::new();
    let mut i: usize = 0;
    while i < p.len()
        invariant
            i <= p.len(),
            full@ == p@.take(i as int),
        decreases p.len() - i,
    {
        full.push(p[i]);
        i = i + 1;
        assert(full@ == p@.take(i as int));
    }
    assert(p@.take(p.len() as int) == p@);
    let mut j: usize = 0;
    assert(v@.take(0) == Seq::<char>::empty());
    while j < v.len()
        invariant
            j <= v.len(),
            full@ == p@ + clean_chars(v@.take(j as int)),
        decreases v.len() - j,
    {
        let c = v[j];
        assert(v@.take(j + 1).drop_last() == v@.take(j as int));
        if c == '\n' {
            full.push(' ');
        } else if c != '\r' {
            full.push(c);
        }
        j = j + 1;
    }
    assert(v@.take(v.len() as int) == v@);
    if full.len() > max_w {
        let keep = max_w.saturating_sub(3);
        let mut out: Vec<char> = Vec::new();
        let mut k: usize = 0;
        while k < keep
            invariant
                keep <= max_w < full.len(),
                k <= keep,
                out@ == full@.take(k as int),
            decreases keep - k,
        {
            out.push(full[k]);
            k = k + 1;
            assert(out@ == full@.take(k as int));
        }
        out.push('.');
        out.push('.');
        out.push('.');
        assert(out@ == full@.take(keep as int) + ellipsis());
        string_of(out.as_slice())
    } else {
        string_of(full.as_slice())
    }
}

/// Cleaning never lengthens a text and leaves no line break in it.
pub proof fn lemma_clean_single_line(s: Seq<char>)
    ensures
        clean_chars(s).len() <= s.len(),
        single_line(clean_chars(s)),
    decreases s.len(),
{
    if s.len() > 0 {
        lemma_clean_single_line(s.drop_last());
    }
}

/// Cleaning a text without line breaks leaves it as it is.
pub proof fn lemma_clean_of_single_line(s: Seq<char>)
    requires
        single_line(s),
    ensures
        clean_chars(s) == s,
    decreases s.len(),
{
    if s.len() > 0 {
        lemma_clean_of_single_line(s.drop_last());
        assert(s.drop_last().push(s.last()) == s);
    }
}

/// With room for at least the ellipsis, the result never takes more than
/// `max_w` characters.
pub proof fn lemma_truncate_fits(prefix: Seq<char>, val: Seq<char>, max_w: nat)
    requires
        max_w >= 3,
    ensures
        truncated(prefix, val, max_w).len() <= max_w,
{
}

/// A text that fits is returned whole: the prefix followed by the cleaned
/// value, nothing cut and no ellipsis.
pub proof fn lemma_truncate_keeps_fitting(prefix: Seq<char>, val: Seq<char>, max_w: nat)
    requires
        prefix.len() + clean_chars(val).len() <= max_w,
    ensures
        truncated(prefix, val, max_w) == prefix + clean_chars(val),
{
}

/// A cut result starts with the start of the full text and ends with the
/// ellipsis.
pub proof fn lemma_truncate_cut_shape(prefix: Seq<char>, val: Seq<char>, max_w: nat)
    requires
        prefix.len() + clean_chars(val).len() > max_w,
    ensures
        truncated(prefix, val, max_w).len() == minus_three(max_w) + 3,
        truncated(prefix, val, max_w).take(minus_three(max_w) as int) == (prefix + clean_chars(
            val,
        )).take(minus_three(max_w) as int),
        truncated(prefix, val, max_w).skip(minus_three(max_w) as int) == ellipsis(),
{
    let full = prefix + clean_chars(val);
    let k = minus_three(max_w) as int;
    assert((full.take(k) + ellipsis()).take(k) == full.take(k));
    assert((full.take(k) + ellipsis()).skip(k) == ellipsis());
}

/// Truncating again, with an empty prefix and the same width, changes
/// nothing, when the prefix holds no line break.
pub proof fn lemma_truncate_idempotent(prefix: Seq<char>, val: Seq<char>, max_w: nat)
    requires
        single_line(prefix),
    ensures
        truncated(Seq::empty(), truncated(prefix, val, max_w), max_w) == truncated(
            prefix,
            val,
            max_w,
        ),
{
    let once = truncated(prefix, val, max_w);
    lemma_clean_single_line(val);
    let full = prefix + clean_chars(val);
    assert(single_line(full)) by {
        assert forall|i: int| 0 <= i < full.len() implies full[i] != '\n' && full[i] != '\r' by {
            if i < prefix.len() {
            } else {
                assert(full[i] == clean_chars(val)[i - prefix.len()]);
            }
        }
    }
    assert(single_line(once)) by {
        if full.len() > max_w {
            let k = minus_three(max_w) as int;
            assert forall|i: int| 0 <= i < once.len() implies once[i] != '\n' && once[i] != '\r' by {
                if i < k {
                    assert(once[i] == full[i]);
                } else {
                    assert(once[i] == ellipsis()[i - k]);
                }
            }
        }
    }
    lemma_clean_of_single_line(once);
    assert(Seq::<char>::empty() + clean_chars(once) == once);
    if once.len() > max_w {
        // only a bare ellipsis is wider than the width
        assert(max_w < 3);
        assert(once == ellipsis());
        assert(once.take(0) + ellipsis() == once);
    }
}

} // verus!
