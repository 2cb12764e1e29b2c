//! LRC lyric files: which lines carry a `[minutes:seconds]` time tag.

use vstd::prelude::*;
use crate::text::{strip_cr, is_white_space, lemma_split_on_nonempty, lemma_lines_of_concat, lemma_trim_push_white_space, chars_of, lines_chars, lines_of, split_chars, split_on, string_of, sub_chars, trim, trim_chars, views, lemma_split_on_first, lemma_split_on_concat, lemma_split_on_without_sep};

verus! {

broadcast use vstd::string::group_string_axioms;

/// A time-tagged lyric line as the LRC reader finds it: the minutes and
/// seconds fields of the tag, as written, and the trimmed lyric text.
/// Turning the fields into a time in seconds is floating-point work and is
/// left to the caller.
pub struct LrcTag {
    pub minutes: String,
    pub seconds: String,
    pub text: String,
}

impl View for LrcTag {
    type V = (Seq<char>, Seq<char>, Seq<char>);

    open spec fn view(&self) -> (Seq<char>, Seq<char>, Seq<char>) {
        (self.minutes@, self.seconds@, self.text@)
    }
}

/// The tag that one line carries, if any: the line starts with `[`, holds a
/// `]`, and the text between the `[` and the first `]` splits at `:` into
/// exactly two fields. The text is what follows the first `]` up to the next
/// `]` (or the end), trimmed.
pub open spec fn tag_of_line(line: Seq<char>) -> Option<(Seq<char>, Seq<char>, Seq<char>)> {
    if line.len() > 0 && line[0] == '[' {
        let parts = split_on(line, ']');
        if parts.len() >= 2 {
            let fields = split_on(parts[0].drop_first(), ':');
            if fields.len() == 2 {
                Some((fields[0], fields[1], trim(parts[1])))
            } else {
                None
            }
        } else {
            None
        }
    } else {
        None
    }
}

/// The tags of a sequence of lines, in order, skipping lines without one.
pub open spec fn tags_of_lines(lines: Seq<Seq<char>>) -> Seq<(Seq<char>, Seq<char>, Seq<char>)>
    decreases lines.len(),
{
    if lines.len() == 0 {
        Seq::empty()
    } else {
        let r = tags_of_lines(lines.drop_last());
        match tag_of_line(lines.last()) {
            Some(t) => r.push(t),
            None => r,
        }
    }
}

/// The views of a sequence of tags.
pub open spec fn tag_views(v: Seq<LrcTag>) -> Seq<(Seq<char>, Seq<char>, Seq<char>)> {
    v.map_values(|t: LrcTag| t@)
}

/// The tag that one line carries, if any.
pub fn tag_of(line: &Vec<char>) -> (r: Option<LrcTag>)
    ensures
        match r {
            Some(t) => tag_of_line(line@) == Some(t@),
            None => tag_of_line(line@) is None,
        },
{
    if line.len() > 0 && line[0] == '[' {
        let parts = split_chars(line, ']');
        if parts.len() >= 2 {
            proof {
                lemma_split_on_first(line@, ']');
            }
            let first = &parts[0];
            assert(first@ == split_on(line@, ']')[0]);
            let inside = sub_chars(first, 1, first.len());
            assert(inside@ == first@.drop_first());
            let fields = split_chars(&inside, ':');
            if fields.len() == 2 {
                let text = trim_chars(&parts[1]);
                assert(fields@[0]@ == split_on(inside@, ':')[0]);
                assert(fields@[1]@ == split_on(inside@, ':')[1]);
                assert(parts@[1]@ == split_on(line@, ']')[1]);
                let t = LrcTag {
                    minutes: string_of(fields[0].as_slice()),
                    seconds: string_of(fields[1].as_slice()),
                    text: string_of(text.as_slice()),
                };
                return Some(t);
            }
        }
    }
    None
}

/// Reads the time-tagged lines of an LRC text, in order. A line counts when
/// it starts with `[`, holds a `]`, and the part between them splits at `:`
/// into exactly two fields; lines are those of `str::lines`.
pub fn parse_lrc_content(content: &str) -> (r: Vec<LrcTag>)
    ensures
        tag_views(r@) == tags_of_lines(lines_of(content@)),
{
    let chars = chars_of(content);
    let lines = lines_chars(&chars);
    let ghost ls = lines_of(content@);
    let mut r: Vec<LrcTag> = Vec::new();
    let mut k: usize = 0;
    assert(ls.take(0) == Seq::<Seq<char>>::empty());
    while k < lines.len()
        invariant
            k <= lines.len(),
            views(lines@) == ls,
            tag_views(r@) == tags_of_lines(ls.take(k as int)),
        decreases lines.len() - k,
    {
        assert(ls.take(k + 1).drop_last() == ls.take(k as int));
        assert(ls.take(k + 1).last() == lines@[k as int]@);
        let ghost before = tag_views(r@);
        match tag_of(&lines[k]) {
            Some(t) => {
                r.push(t);
                assert(tag_views(r@) == before.push(t@));
            },
            None => {},
        }
        k = k + 1;
    }
    assert(ls.take(lines.len() as int) == ls);
    r
}

/// Each line gives at most one tag.
pub proof fn lemma_tags_at_most_lines(lines: Seq<Seq<char>>)
    ensures
        tags_of_lines(lines).len() <= lines.len(),
    decreases lines.len(),
{
    if lines.len() > 0 {
        lemma_tags_at_most_lines(lines.drop_last());
    }
}

/// A line that does not start with `[` gives no tag.
pub proof fn lemma_untagged_line(line: Seq<char>)
    requires
        line.len() == 0 || line[0] != '[',
    ensures
        tag_of_line(line) is None,
{
}

/// The tags of consecutive lines are those of each part, in order.
pub proof fn lemma_tags_of_concat(x: Seq<Seq<char>>, y: Seq<Seq<char>>)
    ensures
        tags_of_lines(x + y) == tags_of_lines(x) + tags_of_lines(y),
    decreases y.len(),
{
    if y.len() == 0 {
        assert(x + y == x);
    } else {
        lemma_tags_of_concat(x, y.drop_last());
        assert((x + y).drop_last() == x + y.drop_last());
        assert((x + y).last() == y.last());
        let r = tags_of_lines(x) + tags_of_lines(y.drop_last());
        match tag_of_line(y.last()) {
            Some(t) => {
                assert(r.push(t) == tags_of_lines(x) + tags_of_lines(y.drop_last()).push(t));
            },
            None => {},
        }
    }
}

/// A carriage return at the end of a line does not change its tag.
pub proof fn lemma_tag_ignores_cr(line: Seq<char>)
    ensures
        tag_of_line(strip_cr(line)) == tag_of_line(line),
{
    if line.len() > 0 && line.last() == '\r' {
        let t = line.drop_last();
        assert(line == t.push('\r'));
        if t.len() > 0 && t[0] == '[' {
            assert(line[0] == '[');
            let p = split_on(t, ']');
            lemma_split_on_nonempty(t, ']');
            assert(line.drop_last() == t);
            let q = split_on(line, ']');
            assert(q == p.update(p.len() - 1, p.last().push('\r')));
            if p.len() >= 2 {
                assert(q[0] == p[0]);
                if p.len() == 2 {
                    assert(q[1] == p[1].push('\r'));
                    assert(is_white_space('\r'));
                    lemma_trim_push_white_space(p[1], '\r');
                } else {
                    assert(q[1] == p[1]);
                }
            }
        } else if t.len() == 0 {
            assert(line[0] == '\r');
        } else {
            assert(line[0] == t[0]);
        }
    }
}

/// Lines are read one by one: the tags of two texts joined by a line feed
/// are the tags of the first followed by those of the second.
pub proof fn lemma_tags_of_joined_text(a: Seq<char>, b: Seq<char>)
    ensures
        tags_of_lines(lines_of(a + seq!['\n'] + b)) == tags_of_lines(lines_of(a)) + tags_of_lines(
            lines_of(b),
        ),
{
    lemma_lines_of_concat(a, b);
    lemma_split_on_nonempty(a, '\n');
    let p = split_on(a, '\n');
    let pm = p.map_values(|l: Seq<char>| strip_cr(l));
    lemma_tags_of_concat(pm, lines_of(b));
    let body = p.drop_last().map_values(|l: Seq<char>| strip_cr(l));
    assert(pm == body.push(strip_cr(p.last())));
    assert(pm.drop_last() == body);
    assert(pm.last() == strip_cr(p.last()));
    lemma_tag_ignores_cr(p.last());
    if p.last().len() == 0 {
        assert(strip_cr(p.last()) == p.last());
        assert(tag_of_line(p.last()) is None);
        assert(lines_of(a) == body);
    } else {
        assert(lines_of(a) == body.push(p.last()));
        assert(lines_of(a).drop_last() == body);
        assert(lines_of(a).last() == p.last());
    }
}


/// A line `[m:s]rest`, where the fields `m` and `s` hold neither `:` nor
/// `]`, carries the tag with minutes `m`, seconds `s`, and as text what
/// follows the `]` up to the next `]` (or the end), trimmed.
pub proof fn lemma_tag_line_fields(m: Seq<char>, s: Seq<char>, rest: Seq<char>)
    requires
        forall|i: int| 0 <= i < m.len() ==> m[i] != ':' && m[i] != ']',
        forall|i: int| 0 <= i < s.len() ==> s[i] != ':' && s[i] != ']',
    ensures
        tag_of_line(seq!['['] + m + seq![':'] + s + seq![']'] + rest) == Some(
            (m, s, trim(split_on(rest, ']')[0])),
        ),
{
    let head = seq!['['] + m + seq![':'] + s;
    let line = seq!['['] + m + seq![':'] + s + seq![']'] + rest;
    assert(line == head + seq![']'] + rest);
    assert forall|i: int| 0 <= i < head.len() implies head[i] != ']' by {
        if i > 0 && i <= m.len() {
            assert(head[i] == m[i - 1]);
        } else if i > m.len() + 1 {
            assert(head[i] == s[i - m.len() - 2]);
        }
    }
    lemma_split_on_without_sep(head, ']');
    lemma_split_on_concat(head, ']', rest);
    lemma_split_on_nonempty(rest, ']');
    let parts = split_on(line, ']');
    assert(parts[0] == head);
    assert(parts[1] == split_on(rest, ']')[0]);
    assert(head.drop_first() == m + seq![':'] + s);
    lemma_split_on_without_sep(m, ':');
    lemma_split_on_without_sep(s, ':');
    lemma_split_on_concat(m, ':', s);
    assert(line[0] == '[');
}

} // verus!
