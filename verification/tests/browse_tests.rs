use mpv_music::browse::{
    dir_summary, filter_by_tag_values, find_playlists, playlist_preview, tag_summary, tracks_under,
};
use mpv_music::query::TagField;
use mpv_music::track::{MediaType, Track};

fn track(path: &str, title: &str, artist: &str, media_type: MediaType) -> Track {
    Track {
        path: path.to_string(),
        title: title.to_string(),
        artist: artist.to_string(),
        album: "Album".to_string(),
        genre: "Pop".to_string(),
        mtime: 1,
        size: 2,
        media_type,
    }
}

#[test]
fn tag_summary_groups_counts_and_samples() {
    let tracks = vec![
        track("/m/1.mp3", "One", "Ann", MediaType::Audio),
        track("/m/2.mp3", "Two", "Bea", MediaType::Audio),
        track("/m/3.mp3", "Three", "Ann", MediaType::Audio),
    ];
    let groups = tag_summary(&tracks, TagField::Artist);
    assert_eq!(groups.len(), 2);
    assert_eq!(groups[0].value, "Ann");
    assert_eq!(groups[0].count, 2);
    assert_eq!(groups[0].samples, vec!["One".to_string(), "Three".to_string()]);
    assert_eq!(groups[1].value, "Bea");
    assert_eq!(groups[1].count, 1);
}

#[test]
fn blank_tag_values_group_under_the_sentinel() {
    let tracks = vec![track("/m/1.mp3", "One", "   ", MediaType::Audio)];
    let groups = tag_summary(&tracks, TagField::Artist);
    assert_eq!(groups.len(), 1);
    assert_eq!(groups[0].value, "UNKNOWN");
}

#[test]
fn samples_are_capped_at_ten() {
    let tracks: Vec<Track> = (0..13)
        .map(|i| track(&format!("/m/{}.mp3", i), &format!("T{}", i), "Ann", MediaType::Audio))
        .collect();
    let groups = tag_summary(&tracks, TagField::Artist);
    assert_eq!(groups[0].count, 13);
    assert_eq!(groups[0].samples.len(), 10);
}

#[test]
fn selected_tag_values_pick_their_tracks() {
    let tracks = vec![
        track("/m/1.mp3", "One", "Ann", MediaType::Audio),
        track("/m/2.mp3", "Two", "Bea", MediaType::Audio),
        track("/m/3.mp3", "Three", " ", MediaType::Audio),
    ];
    let picked = filter_by_tag_values(
        &tracks,
        TagField::Artist,
        &vec!["Bea".to_string(), "UNKNOWN".to_string()],
    );
    assert_eq!(picked.len(), 2);
    assert_eq!(picked[0].path, "/m/2.mp3");
    assert_eq!(picked[1].path, "/m/3.mp3");
}

#[test]
fn dir_summary_groups_by_parent() {
    let tracks = vec![
        track("/m/rock/a.mp3", "A", "Ann", MediaType::Audio),
        track("/m/jazz/b.mp3", "B", "Bea", MediaType::Audio),
        track("/m/rock/c.mp3", "C", "Cyn", MediaType::Audio),
    ];
    let groups = dir_summary(&tracks);
    assert_eq!(groups.len(), 2);
    assert_eq!(groups[0].path, "/m/rock");
    assert_eq!(groups[0].name, "rock");
    assert_eq!(groups[0].count, 2);
    assert_eq!(groups[0].files, vec!["a.mp3".to_string(), "c.mp3".to_string()]);
    assert_eq!(groups[1].path, "/m/jazz");
    assert_eq!(groups[1].count, 1);
}

#[test]
fn tracks_under_expands_a_picked_directory() {
    let tracks = vec![
        track("/m/rock/a.mp3", "A", "Ann", MediaType::Audio),
        track("/m/jazz/b.mp3", "B", "Bea", MediaType::Audio),
    ];
    let files = tracks_under(&tracks, "/m/rock");
    assert_eq!(files, vec!["/m/rock/a.mp3".to_string()]);
}

#[test]
fn playlist_titles_match_case_insensitively() {
    let tracks = vec![
        track("/m/Morning Mix.m3u", "Morning Mix", "Playlist", MediaType::Playlist),
        track("/m/other.m3u", "Other", "Playlist", MediaType::Playlist),
        track("/m/morning song.mp3", "morning song", "Ann", MediaType::Audio),
    ];
    let hits = find_playlists(&tracks, "MORNING");
    assert_eq!(hits.len(), 1);
    assert_eq!(hits[0].path, "/m/Morning Mix.m3u");
}

#[test]
fn playlist_preview_counts_entries_and_keeps_a_sample() {
    let content = "#EXTM3U\n/a.mp3\n\n# comment\n/b.mp3\r\n/c.mp3\n";
    let (count, sample) = playlist_preview(content, 2);
    assert_eq!(count, 3);
    assert_eq!(sample, vec!["/a.mp3".to_string(), "/b.mp3".to_string()]);
}
