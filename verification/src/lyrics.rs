//! Where the lyrics of a track come from: the `.lrc` file beside it, or the
//! LRCLIB service, queried by title, artist, album and duration.

use vstd::prelude::*;
use vstd::utf8::encode_utf8;
use crate::playlist::{
    extension, extension_start, file_name_text, is_flac_name, last_component, last_index_of,
    lemma_last_index_in_range,
    skipped_component,
};
use crate::text::{chars_of, lemma_split_on_last_len, split_chars, split_on, string_of, sub_chars};

verus! {

broadcast use vstd::string::group_string_axioms;

/// The `.lrc` file for a track: its path with the extension of its last
/// component (as `Path::extension` finds it) replaced by `lrc`, or with
/// `.lrc` appended where that component has none.
pub open spec fn lrc_path(flac_path: Seq<char>) -> Seq<char> {
    match extension(split_on(flac_path, '/').last()) {
        Some(e) => flac_path.take(flac_path.len() - e.len()) + seq!['l', 'r', 'c'],
        None => flac_path + seq!['.', 'l', 'r', 'c'],
    }
}

/// The path of the `.lrc` file that goes with a track. For a FLAC track it
/// is never the track's own path.
pub fn lrc_path_for(flac_path: &str) -> (r: String)
    ensures
        r@ == lrc_path(flac_path@),
        is_flac_name(file_name_text(flac_path@)) ==> r@ != flac_path@,
{
    let p = chars_of(flac_path);
    let pieces = split_chars(&p, '/');
    proof {
        lemma_split_on_last_len(p@, '/');
        if is_flac_name(file_name_text(flac_path@)) {
            lemma_lrc_path_differs(flac_path@);
        }
    }
    let last = &pieces[pieces.len() - 1];
    assert(last@ == split_on(p@, '/').last());
    let mut out = match extension_start(last) {
        Some(i) => {
            let cut = p.len() - (last.len() - i);
            let mut out = sub_chars(&p, 0, cut);
            assert(p@.subrange(0, cut as int) == p@.take(cut as int));
            out.push('l');
            out.push('r');
            out.push('c');
            out
        },
        None => {
            let mut out = p.clone();
            out.push('.');
            out.push('l');
            out.push('r');
            out.push('c');
            out
        },
    };
    string_of(out.as_slice())
}

/// The `.lrc` path of a track whose file name has the extension `flac` (in
/// any case) differs from the track's path: the lyrics cache never stands
/// where the audio is.
pub proof fn lemma_lrc_path_differs(flac_path: Seq<char>)
    requires
        is_flac_name(file_name_text(flac_path)),
    ensures
        lrc_path(flac_path) != flac_path,
{
    let pieces = split_on(flac_path, '/');
    lemma_split_on_last_len(flac_path, '/');
    let last = pieces.last();
    match extension(last) {
        Some(e) => {
            // A component with an extension is neither empty, `.` nor `..`,
            // so it is the file name.
            assert(!skipped_component(last)) by {
                if last == seq!['.'] {
                    assert(last_index_of(last, '.') == 0);
                }
            }
            assert(last_component(pieces) == Some(last));
            assert(file_name_text(flac_path) == last);
            lemma_last_index_in_range(last, '.');
            assert(e.len() == 4);
            assert(lrc_path(flac_path).len() == flac_path.len() - 1);
        },
        None => {
            assert(lrc_path(flac_path).len() == flac_path.len() + 4);
        },
    }
}

/// The bytes that URL encoding keeps as they are: ASCII letters and digits,
/// `-`, `.`, `_` and `~`.
pub open spec fn is_unreserved(b: u8) -> bool {
    (48 <= b <= 57) || (65 <= b <= 90) || (97 <= b <= 122) || b == 45 || b == 46 || b == 95 || b
        == 126
}

/// The upper-case hexadecimal digit for `d < 16`.
pub open spec fn hex_digit(d: int) -> char {
    if d < 10 {
        (48 + d) as char
    } else {
        (55 + d) as char
    }
}

/// Percent-encoding of bytes: unreserved bytes as themselves, every other
/// byte as `%` and two upper-case hexadecimal digits.
pub open spec fn percent_encoded(bytes: Seq<u8>) -> Seq<char>
    decreases bytes.len(),
{
    if bytes.len() == 0 {
        Seq::empty()
    } else {
        let r = percent_encoded(bytes.drop_last());
        let b = bytes.last();
        if is_unreserved(b) {
            r.push(b as char)
        } else {
            r + seq!['%', hex_digit((b / 16) as int), hex_digit((b % 16) as int)]
        }
    }
}

/// Percent-encodes a text for a URL query (calls `urlencoding::encode`).
/// Claims what its documentation states: every byte of the UTF-8 encoding is
/// kept when it is an ASCII letter or digit or one of `-`, `.`, `_`, `~`,
/// and is written as `%` and two upper-case hexadecimal digits otherwise.
#[verifier::external_body]
fn url_encode(s: &str) -> (r: String)
    ensures
        r@ == percent_encoded(encode_utf8(s@)),
{
    urlencoding::encode(s).into_owned()
}

/// The LRCLIB query for a track, when it has a title and an artist.
pub open spec fn lyrics_url(title: Seq<char>, artist: Seq<char>, album: Seq<char>, duration: Seq<char>) -> Option<Seq<char>> {
    if title.len() == 0 || artist.len() == 0 {
        None
    } else {
        Some("https://lrclib.net/api/get?track_name="@ + percent_encoded(encode_utf8(title))
            + "&artist_name="@ + percent_encoded(encode_utf8(artist)) + "&album_name="@
            + percent_encoded(encode_utf8(album)) + "&duration="@ + duration)
    }
}

/// The URL that asks LRCLIB for a track's synced lyrics, or `None` when the
/// title or the artist is empty. `duration` is the track's length in
/// seconds, rounded and written out.
pub fn lyrics_request_url(title: &str, artist: &str, album: &str, duration: &str) -> (r: Option<
    String,
>)
    ensures
        match r {
            Some(u) => lyrics_url(title@, artist@, album@, duration@) == Some(u@),
            None => lyrics_url(title@, artist@, album@, duration@) is None,
        },
{
    if title.is_empty() || artist.is_empty() {
        return None;
    }
    let mut url = String::from_str("https://lrclib.net/api/get?track_name=");
    let t = url_encode(title);
    url.append(t.as_str());
    url.append("&artist_name=");
    let a = url_encode(artist);
    url.append(a.as_str());
    url.append("&album_name=");
    let b = url_encode(album);
    url.append(b.as_str());
    url.append("&duration=");
    url.append(duration);
    Some(url)
}

/// What member `key` of a JSON text holds, when the text parses as a JSON
/// value and that member is a string (a function of the text and the key
/// alone).
pub uninterp spec fn json_member_str(body: Seq<char>, key: Seq<char>) -> Option<Seq<char>>;

/// Reads a string member of a JSON text: calls
/// `serde_json::from_str::<serde_json::Value>`, indexes the value with `key`
/// and takes `Value::as_str`. Claims only that the result is
/// `json_member_str` of the text and the key: `None` when the text does not
/// parse or the member is missing or not a string.
#[verifier::external_body]
fn json_string_member(body: &str, key: &str) -> (r: Option<String>)
    ensures
        match r {
            Some(s) => json_member_str(body@, key@) == Some(s@),
            None => json_member_str(body@, key@) is None,
        },
{
    match serde_json::from_str::<serde_json::Value>(body) {
        Ok(v) => v[key].as_str().map(|s| s.to_string()),
        Err(_) => None,
    }
}

/// The member of an LRCLIB reply that holds the time-synced lyrics.
pub open spec fn synced_lyrics_key() -> Seq<char> {
    "syncedLyrics"@
}

/// The synced lyrics in an LRCLIB reply: its `syncedLyrics` member, if the
/// reply is JSON and that member is a string.
pub fn synced_lyrics_in(body: &str) -> (r: Option<String>)
    ensures
        match r {
            Some(s) => json_member_str(body@, synced_lyrics_key()) == Some(s@),
            None => json_member_str(body@, synced_lyrics_key()) is None,
        },
{
    json_string_member(body, "syncedLyrics")
}

/// Bytes that are all unreserved encode as themselves.
pub proof fn lemma_percent_unreserved(bytes: Seq<u8>)
    requires
        forall|i: int| 0 <= i < bytes.len() ==> is_unreserved(#[trigger] bytes[i]),
    ensures
        percent_encoded(bytes) == bytes.map_values(|b: u8| b as char),
    decreases bytes.len(),
{
    if bytes.len() > 0 {
        lemma_percent_unreserved(bytes.drop_last());
        assert(bytes.map_values(|b: u8| b as char) == bytes.drop_last().map_values(|b: u8| b as char).push(
            bytes.last() as char,
        ));
    }
}

/// Encoding never shortens: each byte gives one or three characters.
pub proof fn lemma_percent_length(bytes: Seq<u8>)
    ensures
        bytes.len() <= percent_encoded(bytes).len() <= 3 * bytes.len(),
    decreases bytes.len(),
{
    if bytes.len() > 0 {
        lemma_percent_length(bytes.drop_last());
    }
}

} // verus!
