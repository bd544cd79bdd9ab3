use mpv_music::codec::{track_from_json, track_to_json};
use mpv_music::track::{MediaType, Track};

fn sample_track() -> Track {
    Track {
        path: "/m/a.mp3".to_string(),
        title: "Song A".to_string(),
        artist: "Ann".to_string(),
        album: "First".to_string(),
        genre: "Pop".to_string(),
        mtime: 100,
        size: 2000,
        media_type: MediaType::Audio,
    }
}

#[test]
fn serializes_canonical_json() {
    let t = sample_track();
    let line = track_to_json(&t);
    assert_eq!(
        line,
        "{\"path\":\"/m/a.mp3\",\"title\":\"Song A\",\"artist\":\"Ann\",\"album\":\"First\",\
         \"genre\":\"Pop\",\"mtime\":100,\"size\":2000,\"media_type\":\"audio\"}"
    );
}

#[test]
fn round_trip_basic() {
    let t = sample_track();
    let line = track_to_json(&t);
    let back = track_from_json(&line).expect("canonical line must parse");
    assert_eq!(back, t);
}

#[test]
fn round_trip_special_characters() {
    let t = Track {
        path: "/m/we\"ird\\dir/so ng.flac".to_string(),
        title: "line\nbreak\tand\rmore".to_string(),
        artist: "b\u{8}f\u{c}ctrl\u{1}\u{1f}".to_string(),
        album: "caf\u{e9} \u{65e5}\u{672c}".to_string(),
        genre: "".to_string(),
        mtime: u64::MAX,
        size: 0,
        media_type: MediaType::Video,
    };
    let line = track_to_json(&t);
    let back = track_from_json(&line).expect("escaped line must parse");
    assert_eq!(back, t);
}

#[test]
fn round_trip_playlist_type() {
    let t = Track {
        path: "/m/l.m3u".to_string(),
        title: "l".to_string(),
        artist: "Playlist".to_string(),
        album: "Playlists".to_string(),
        genre: "Playlist".to_string(),
        mtime: 7,
        size: 9,
        media_type: MediaType::Playlist,
    };
    let line = track_to_json(&t);
    let back = track_from_json(&line).expect("playlist line must parse");
    assert_eq!(back, t);
}

#[test]
fn output_is_valid_json_for_a_real_parser() {
    let t = Track {
        path: "/m/we\"ird\\x.mp3".to_string(),
        title: "tab\there".to_string(),
        artist: "A".to_string(),
        album: "B".to_string(),
        genre: "G".to_string(),
        mtime: 5,
        size: 6,
        media_type: MediaType::Audio,
    };
    let line = track_to_json(&t);
    let v: serde_json::Value = serde_json::from_str(&line).expect("line must be JSON");
    assert_eq!(v["path"].as_str().unwrap(), "/m/we\"ird\\x.mp3");
    assert_eq!(v["title"].as_str().unwrap(), "tab\there");
    assert_eq!(v["mtime"].as_u64().unwrap(), 5);
    assert_eq!(v["media_type"].as_str().unwrap(), "audio");
}

#[test]
fn parses_short_and_unicode_escapes() {
    let line = "{\"path\":\"\\/m\\na\",\"title\":\"\\u0001x\",\"artist\":\"a\",\
                \"album\":\"b\",\"genre\":\"c\",\"mtime\":1,\"size\":2,\
                \"media_type\":\"video\"}";
    let t = track_from_json(line).expect("escapes must decode");
    assert_eq!(t.path, "/m\na");
    assert_eq!(t.title, "\u{1}x");
    assert_eq!(t.media_type, MediaType::Video);
}

#[test]
fn rejects_malformed_lines() {
    assert!(track_from_json("garbage").is_none());
    assert!(track_from_json("").is_none());
    assert!(track_from_json("{\"path\":\"/a\"}").is_none());
    // wrong field order
    assert!(track_from_json(
        "{\"title\":\"t\",\"path\":\"/a\",\"artist\":\"a\",\"album\":\"b\",\"genre\":\"c\",\
         \"mtime\":1,\"size\":2,\"media_type\":\"audio\"}"
    )
    .is_none());
    // unknown media type
    assert!(track_from_json(
        "{\"path\":\"/a\",\"title\":\"t\",\"artist\":\"a\",\"album\":\"b\",\"genre\":\"c\",\
         \"mtime\":1,\"size\":2,\"media_type\":\"image\"}"
    )
    .is_none());
    // number too large for u64
    assert!(track_from_json(
        "{\"path\":\"/a\",\"title\":\"t\",\"artist\":\"a\",\"album\":\"b\",\"genre\":\"c\",\
         \"mtime\":99999999999999999999,\"size\":2,\"media_type\":\"audio\"}"
    )
    .is_none());
    // trailing data after the closing brace
    assert!(track_from_json(
        "{\"path\":\"/a\",\"title\":\"t\",\"artist\":\"a\",\"album\":\"b\",\"genre\":\"c\",\
         \"mtime\":1,\"size\":2,\"media_type\":\"audio\"}x"
    )
    .is_none());
}

#[test]
fn largest_numbers_round_trip() {
    let mut t = sample_track();
    t.mtime = 18446744073709551615;
    t.size = 18446744073709551615;
    let back = track_from_json(&track_to_json(&t)).unwrap();
    assert_eq!(back.mtime, u64::MAX);
    assert_eq!(back.size, u64::MAX);
}
