//! The texts that make up the screen: padded cells, the track rows, the
//! library title, the mode badge and centred messages.

use vstd::prelude::*;
use crate::numeral::{decimal, push_decimal, push_str};
use crate::text::{chars_of, string_of};

verus! {

broadcast use vstd::string::group_string_axioms;

/// `n` spaces.
pub open spec fn spaces(n: nat) -> Seq<char> {
    Seq::new(n, |i: int| ' ')
}

/// `s` filled with spaces on the right up to `width` characters (what
/// `format!("{:<width$}", s)` gives); a longer `s` is left as it is.
pub open spec fn padded(s: Seq<char>, width: nat) -> Seq<char> {
    if s.len() >= width {
        s
    } else {
        s + spaces((width - s.len()) as nat)
    }
}

/// The decimal numeral of `n` with leading zeros up to three digits (what
/// `format!("{:03}", n)` gives).
pub open spec fn three_digits(n: nat) -> Seq<char> {
    let d = decimal(n);
    if d.len() >= 3 {
        d
    } else {
        Seq::new((3 - d.len()) as nat, |i: int| '0') + d
    }
}

fn push_spaces(out: &mut Vec<char>, n: usize)
    ensures
        final(out)@ == old(out)@ + spaces(n as nat),
{
    let ghost start = out@;
    let mut i: usize = 0;
    while i < n
        invariant
            i <= n,
            out@ == start + spaces(i as nat),
        decreases n - i,
    {
        out.push(' ');
        i = i + 1;
        assert(out@ == start + spaces(i as nat));
    }
}

fn push_three_digits(out: &mut Vec<char>, n: u64)
    ensures
        final(out)@ == old(out)@ + three_digits(n as nat),
{
    let mut d: Vec<char> = Vec::new();
    push_decimal(&mut d, n);
    assert(d@ == decimal(n as nat));
    let ghost start = out@;
    if d.len() < 3 {
        let zeros = 3 - d.len();
        let mut i: usize = 0;
        while i < zeros
            invariant
                i <= zeros,
                out@ == start + Seq::new(i as nat, |k: int| '0'),
            decreases zeros - i,
        {
            out.push('0');
            i = i + 1;
            assert(out@ == start + Seq::new(i as nat, |k: int| '0'));
        }
    }
    let ghost mid = out@;
    let mut j: usize = 0;
    while j < d.len()
        invariant
            j <= d.len(),
            out@ == mid + d@.take(j as int),
        decreases d.len() - j,
    {
        out.push(d[j]);
        j = j + 1;
        assert(out@ == mid + d@.take(j as int));
    }
    assert(d@.take(d.len() as int) == d@);
}

/// Fills `s` with spaces up to `width` characters.
pub fn pad_right(s: &str, width: usize) -> (r: String)
    ensures
        r@ == padded(s@, width as nat),
{
    let mut out = chars_of(s);
    if out.len() < width {
        let n = width - out.len();
        push_spaces(&mut out, n);
    }
    string_of(out.as_slice())
}

/// The row of the track list for the track at `index`: its number from 1,
/// with at least three digits, in brackets, and its file name.
pub fn track_row_label(index: usize, name: &str) -> (r: String)
    requires
        index < usize::MAX,
    ensures
        r@ == seq!['['] + three_digits(index as nat + 1) + seq![']', ' '] + name@,
{
    let mut out: Vec<char> = Vec::new();
    out.push('[');
    push_three_digits(&mut out, index as u64 + 1);
    out.push(']');
    out.push(' ');
    push_str(&mut out, name);
    string_of(out.as_slice())
}

/// The title of the track list: the number of tracks, with at least three
/// digits.
pub fn library_title(count: usize) -> (r: String)
    ensures
        r@ == " LIBRARY ["@ + three_digits(count as nat) + " Tracks] "@,
{
    let mut out: Vec<char> = Vec::new();
    push_str(&mut out, " LIBRARY [");
    push_three_digits(&mut out, count as u64);
    push_str(&mut out, " Tracks] ");
    string_of(out.as_slice())
}

/// The play mode badge: `S` when shuffling, `R` when repeating, `-` else.
pub fn mode_badge(shuffle: bool, repeat: bool) -> (r: String)
    ensures
        r@ == seq!['[', if shuffle {
            'S'
        } else {
            '-'
        }, if repeat {
            'R'
        } else {
            '-'
        }, ']'],
{
    let mut out: Vec<char> = Vec::new();
    out.push('[');
    out.push(if shuffle {
        'S'
    } else {
        '-'
    });
    out.push(if repeat {
        'R'
    } else {
        '-'
    });
    out.push(']');
    string_of(out.as_slice())
}

/// `msg` centred in `width` characters: half the spare room (rounded down)
/// on the left, the rest on the right; no room spared when `msg` is wider.
pub open spec fn centred(msg: Seq<char>, width: nat) -> Seq<char> {
    let spare = if width >= msg.len() {
        (width - msg.len()) as nat
    } else {
        0nat
    };
    let left = spare / 2;
    let right = if width >= left + msg.len() {
        (width - left - msg.len()) as nat
    } else {
        0nat
    };
    spaces(left) + msg + spaces(right)
}

/// Centres a message in a line of `width` characters.
pub fn centred_message(msg: &str, width: usize) -> (r: String)
    ensures
        r@ == centred(msg@, width as nat),
{
    let m = chars_of(msg);
    let spare = width.saturating_sub(m.len());
    let left = spare / 2;
    let right = if width >= left && width - left >= m.len() {
        width - left - m.len()
    } else {
        0
    };
    let mut out: Vec<char> = Vec::new();
    push_spaces(&mut out, left);
    push_str(&mut out, msg);
    push_spaces(&mut out, right);
    string_of(out.as_slice())
}

/// Whether the terminal is too small to draw the player: narrower than 60
/// columns or shorter than 12 rows.
pub fn terminal_too_small(cols: u16, rows: u16) -> (b: bool)
    ensures
        b == (cols < 60 || rows < 12),
{
    cols < 60 || rows < 12
}

/// A centred message fills the line exactly when it fits.
pub proof fn lemma_centred_fills(msg: Seq<char>, width: nat)
    requires
        msg.len() <= width,
    ensures
        centred(msg, width).len() == width,
{
}

/// Padding reaches the width and keeps the text in front.
pub proof fn lemma_padded_shape(s: Seq<char>, width: nat)
    ensures
        padded(s, width).len() == if s.len() >= width {
            s.len()
        } else {
            width
        },
        padded(s, width).take(s.len() as int) == s,
{
    assert((s + spaces((width - s.len()) as nat)).take(s.len() as int) == s);
    assert(s.take(s.len() as int) == s);
}

} // verus!
