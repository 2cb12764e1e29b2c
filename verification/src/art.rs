//! Album art in the terminal: the escape sequences of the Kitty graphics
//! protocol that upload and place the picture, and where it goes on screen.

use vstd::prelude::*;
use crate::numeral::{decimal, push_decimal, push_str};
use crate::text::string_of;
use base64::Engine;

verus! {

broadcast use vstd::string::group_string_axioms;

/// The character of the standard base64 alphabet for `v < 64`.
pub open spec fn base64_char(v: int) -> char {
    if v < 26 {
        (65 + v) as char
    } else if v < 52 {
        (97 + v - 26) as char
    } else if v < 62 {
        (48 + v - 52) as char
    } else if v == 62 {
        '+'
    } else {
        '/'
    }
}

/// Standard base64 (RFC 4648, alphabet `A-Za-z0-9+/`, padded with `=`):
/// each group of three bytes becomes four characters; a last group of one or
/// two bytes becomes two or three characters and padding.
pub open spec fn base64_standard(d: Seq<u8>) -> Seq<char>
    decreases d.len(),
{
    if d.len() == 0 {
        Seq::empty()
    } else {
        let a = d[0] as int;
        let b = if d.len() > 1 {
            d[1] as int
        } else {
            0
        };
        let c = if d.len() > 2 {
            d[2] as int
        } else {
            0
        };
        let first = base64_char(a / 4);
        let second = base64_char((a % 4) * 16 + b / 16);
        let third = base64_char((b % 16) * 4 + c / 64);
        let fourth = base64_char(c % 64);
        if d.len() == 1 {
            seq![first, second, '=', '=']
        } else if d.len() == 2 {
            seq![first, second, third, '=']
        } else {
            seq![first, second, third, fourth] + base64_standard(d.skip(3))
        }
    }
}

/// Encodes bytes as base64 (calls `Engine::encode` of
/// `base64::engine::general_purpose::STANDARD`). Claims what the crate
/// documents: the standard alphabet, with padding. The length bound keeps
/// the output length from overflowing, on which `encode` panics.
#[verifier::external_body]
fn base64_encode(data: &[u8]) -> (r: String)
    requires
        data@.len() / 3 * 4 + 4 <= usize::MAX,
    ensures
        r@ == base64_standard(data@),
{
    base64::engine::general_purpose::STANDARD.encode(data)
}

/// The escape sequences that replace the uploaded picture: delete all
/// pictures, then transmit this one (PNG or other format as given, id 1)
/// base64-encoded.
pub open spec fn upload_sequence(data: Seq<u8>) -> Seq<char> {
    "\x1b_Ga=d,d=A\x1b\\"@ + "\x1b_Ga=t,t=d,f=100,i=1,q=2;"@ + base64_standard(data)
        + "\x1b\\"@
}

/// What to write to the terminal to upload a picture, or `None` when there
/// is no picture data.
pub fn art_upload_sequence(data: &[u8]) -> (r: Option<String>)
    requires
        data@.len() / 3 * 4 + 4 <= usize::MAX,
    ensures
        data@.len() == 0 ==> r is None,
        data@.len() > 0 ==> (r matches Some(s) && s@ == upload_sequence(data@)),
{
    if data.len() == 0 {
        return None;
    }
    let mut s = String::from_str("\x1b_Ga=d,d=A\x1b\\");
    s.append("\x1b_Ga=t,t=d,f=100,i=1,q=2;");
    let b = base64_encode(data);
    s.append(b.as_str());
    s.append("\x1b\\");
    Some(s)
}

/// The escape sequences that show the uploaded picture with its top left
/// corner at row `sy`, column `sx` (from 0) over `w` columns and `h` rows.
pub open spec fn place_sequence(sy: nat, sx: nat, w: nat, h: nat) -> Seq<char> {
    "\x1b_Ga=d,d=p,i=1,p=1\x1b\\"@ + "\x1b["@ + decimal(sy + 1) + ";"@ + decimal(sx + 1) + "H"@
        + "\x1b_Ga=p,i=1,p=1,c="@ + decimal(w) + ",r="@ + decimal(h) + ",z=10\x1b\\"@
}

/// What to write to the terminal to show the uploaded picture at a place.
pub fn art_place_sequence(sy: u16, sx: u16, fit_w: u16, fit_h: u16) -> (r: String)
    requires
        sy < u16::MAX,
        sx < u16::MAX,
    ensures
        r@ == place_sequence(sy as nat, sx as nat, fit_w as nat, fit_h as nat),
{
    let mut out: Vec<char> = Vec::new();
    push_str(&mut out, "\x1b_Ga=d,d=p,i=1,p=1\x1b\\");
    push_str(&mut out, "\x1b[");
    push_decimal(&mut out, sy as u64 + 1);
    push_str(&mut out, ";");
    push_decimal(&mut out, sx as u64 + 1);
    push_str(&mut out, "H");
    push_str(&mut out, "\x1b_Ga=p,i=1,p=1,c=");
    push_decimal(&mut out, fit_w as u64);
    push_str(&mut out, ",r=");
    push_decimal(&mut out, fit_h as u64);
    push_str(&mut out, ",z=10\x1b\\");
    string_of(out.as_slice())
}

/// `a - b`, or 0 when `b > a`.
pub open spec fn sat_sub(a: int, b: int) -> int {
    if a >= b {
        a - b
    } else {
        0
    }
}

/// The picture's size: twice as many columns as rows (the rows being half
/// the screen's less 3), cut to the side panel's width less 6 and then half
/// as many rows as columns.
pub open spec fn art_size(rows: int, mw: int) -> (int, int) {
    let h = sat_sub(rows / 2, 3);
    let w = h * 2;
    let max_w = sat_sub(mw, 6);
    if w > max_w {
        (max_w, max_w / 2)
    } else {
        (w, h)
    }
}

/// The picture's first column: centred in the side panel, which starts at
/// column `lw`.
pub open spec fn art_column(rows: int, lw: int, mw: int) -> int {
    lw + 3 + (sat_sub(mw, 6) - art_size(rows, mw).0) / 2
}

/// Whether the picture's first column is a column a terminal can address
/// (at most `u16::MAX`).
pub fn art_column_in_range(rows: u16, lw: u16, mw: u16) -> (b: bool)
    ensures
        b == (art_column(rows as int, lw as int, mw as int) <= u16::MAX),
{
    let mut art_w = (rows / 2).saturating_sub(3) as u32 * 2;
    let max_w = mw.saturating_sub(6) as u32;
    if art_w > max_w {
        art_w = max_w;
    }
    lw as u32 + 3 + (max_w - art_w) / 2 <= 65535
}

/// Where the picture goes on a screen of `rows` rows whose side panel starts
/// at column `lw` and is `mw` columns wide: its first column, its width and
/// its height.
pub fn art_layout(rows: u16, lw: u16, mw: u16) -> (r: (u16, u16, u16))
    requires
        art_column(rows as int, lw as int, mw as int) <= u16::MAX,
    ensures
        r.0 == art_column(rows as int, lw as int, mw as int),
        (r.1 as int, r.2 as int) == art_size(rows as int, mw as int),
{
    let mut art_h = (rows / 2).saturating_sub(3);
    let mut art_w = art_h * 2;
    let max_w = mw.saturating_sub(6);
    if art_w > max_w {
        art_w = max_w;
        art_h = art_w / 2;
    }
    let art_x = lw + 3 + (max_w - art_w) / 2;
    (art_x, art_w, art_h)
}

/// The picture fits the side panel: never wider than the panel less 6, and
/// never more than half as tall as it is wide, give or take a row.
pub proof fn lemma_art_fits(rows: int, mw: int)
    requires
        0 <= rows,
        0 <= mw,
    ensures
        art_size(rows, mw).0 <= sat_sub(mw, 6),
        art_size(rows, mw).1 * 2 <= art_size(rows, mw).0,
        art_size(rows, mw).0 <= art_size(rows, mw).1 * 2 + 1,
{
}

/// Base64 output takes four characters for every three bytes, a last
/// partial group included.
pub proof fn lemma_base64_length(d: Seq<u8>)
    ensures
        base64_standard(d).len() == 4 * ((d.len() + 2) / 3),
    decreases d.len(),
{
    if d.len() > 2 {
        lemma_base64_length(d.skip(3));
    }
}

} // verus!
