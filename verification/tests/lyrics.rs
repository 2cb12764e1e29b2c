use lae_tui::lyrics::{lrc_path_for, lyrics_request_url, synced_lyrics_in};

#[test]
fn lrc_path_replaces_extension() {
    assert_eq!(lrc_path_for("/music/a.flac"), "/music/a.lrc");
    assert_eq!(lrc_path_for("/music/A.FLAC"), "/music/A.lrc");
}

#[test]
fn lrc_path_replaces_only_the_file_extension() {
    assert_eq!(lrc_path_for("/m/x.flac.d/y.flac"), "/m/x.flac.d/y.lrc");
    assert_eq!(lrc_path_for("/m/live.flac.flac"), "/m/live.flac.lrc");
}

#[test]
fn lrc_path_of_mixed_case_extension_is_not_the_track() {
    assert_eq!(lrc_path_for("/m/a.Flac"), "/m/a.lrc");
    assert_ne!(lrc_path_for("/m/a.fLaC"), "/m/a.fLaC");
}

#[test]
fn lrc_path_matches_with_extension() {
    for p in ["/m/a.flac", "/m/A.FLAC", "/m/a.Flac", "rel/b.flac", "/m/x.y/z.flac", "/m/noext", "/m/.hidden"] {
        let want = std::path::Path::new(p).with_extension("lrc");
        assert_eq!(lrc_path_for(p), want.to_str().unwrap(), "{}", p);
    }
}

#[test]
fn no_request_without_title_or_artist() {
    assert_eq!(lyrics_request_url("", "Artist", "Album", "200"), None);
    assert_eq!(lyrics_request_url("Song", "", "Album", "200"), None);
}

#[test]
fn request_url_encodes_fields() {
    assert_eq!(
        lyrics_request_url("Hey Jude", "The Beatles", "1", "431"),
        Some("https://lrclib.net/api/get?track_name=Hey%20Jude&artist_name=The%20Beatles&album_name=1&duration=431".to_string())
    );
}

#[test]
fn request_url_encodes_utf8_bytes_and_reserved() {
    assert_eq!(
        lyrics_request_url("Café", "A&B", "", "0"),
        Some("https://lrclib.net/api/get?track_name=Caf%C3%A9&artist_name=A%26B&album_name=&duration=0".to_string())
    );
    assert_eq!(
        lyrics_request_url("a-b_c.d~e", "x/y", "z?", "1"),
        Some("https://lrclib.net/api/get?track_name=a-b_c.d~e&artist_name=x%2Fy&album_name=z%3F&duration=1".to_string())
    );
}

#[test]
fn synced_lyrics_from_reply() {
    assert_eq!(
        synced_lyrics_in(r#"{"id":1,"syncedLyrics":"[00:01.00]hi\n[00:02.00]there"}"#),
        Some("[00:01.00]hi\n[00:02.00]there".to_string())
    );
}

#[test]
fn synced_lyrics_missing_or_null() {
    assert_eq!(synced_lyrics_in(r#"{"syncedLyrics":null}"#), None);
    assert_eq!(synced_lyrics_in(r#"{"plainLyrics":"x"}"#), None);
    assert_eq!(synced_lyrics_in(r#"{"syncedLyrics":5}"#), None);
}

#[test]
fn synced_lyrics_bad_json() {
    assert_eq!(synced_lyrics_in("not json"), None);
    assert_eq!(synced_lyrics_in(r#"["syncedLyrics"]"#), None);
}
