use mpv_music::codec::track_to_json;
use mpv_music::store::{parse_index, serialize_index};
use mpv_music::track::{MediaType, Track};

fn make_track(n: u64) -> Track {
    Track {
        path: format!("/m/t{}.mp3", n),
        title: format!("Title {}", n),
        artist: "Ann".to_string(),
        album: "First".to_string(),
        genre: "Pop".to_string(),
        mtime: 100 + n,
        size: 2000 + n,
        media_type: MediaType::Audio,
    }
}

#[test]
fn empty_index_round_trip() {
    let text = serialize_index(&Vec::new());
    assert_eq!(text, "");
    let r = parse_index(&text);
    assert_eq!(r.tracks.len(), 0);
    assert!(!r.needs_repair);
}

#[test]
fn index_round_trip_keeps_order() {
    let tracks: Vec<Track> = (0..5).map(make_track).collect();
    let text = serialize_index(&tracks);
    let r = parse_index(&text);
    assert!(!r.needs_repair);
    assert_eq!(r.tracks, tracks);
}

#[test]
fn corruption_repair_keeps_the_valid_lines() {
    let good: Vec<Track> = (0..7).map(make_track).collect();
    let mut text = String::new();
    for (i, t) in good.iter().enumerate() {
        if i == 2 {
            text.push_str("not json at all\n");
        }
        if i == 5 {
            text.push_str("{\"path\":\"/m/broken\n");
        }
        text.push_str(&track_to_json(t));
        text.push('\n');
    }
    text.push_str("{\"path\": 12}\n");
    let r = parse_index(&text);
    assert!(r.needs_repair);
    assert_eq!(r.tracks, good);

    // Rewriting the survivors yields a clean file.
    let repaired = serialize_index(&r.tracks);
    let again = parse_index(&repaired);
    assert!(!again.needs_repair);
    assert_eq!(again.tracks, good);
}

#[test]
fn blank_lines_are_skipped_without_repair() {
    let t = make_track(1);
    let text = format!("\n   \n{}\n\n", track_to_json(&t));
    let r = parse_index(&text);
    assert!(!r.needs_repair);
    assert_eq!(r.tracks.len(), 1);
    assert_eq!(r.tracks[0], t);
}

#[test]
fn crlf_line_endings_are_accepted() {
    let t = make_track(3);
    let text = format!("{}\r\n", track_to_json(&t));
    let r = parse_index(&text);
    assert!(!r.needs_repair);
    assert_eq!(r.tracks.len(), 1);
    assert_eq!(r.tracks[0], t);
}
