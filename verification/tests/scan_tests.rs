use mpv_music::classify::{normalize_exts, ExtSets};
use mpv_music::config::Config;
use mpv_music::scan::{finish_probe, plan_scan, FileEntry, ScanItem, TagData};
use mpv_music::track::{MediaType, Track};

fn default_sets() -> ExtSets {
    let cfg = Config::default();
    ExtSets {
        audio: normalize_exts(&cfg.audio_exts),
        video: normalize_exts(&cfg.video_exts),
        playlist: normalize_exts(&cfg.playlist_exts),
    }
}

fn cached(path: &str, mtime: u64, size: u64) -> Track {
    Track {
        path: path.to_string(),
        title: "T".to_string(),
        artist: "A".to_string(),
        album: "B".to_string(),
        genre: "G".to_string(),
        mtime,
        size,
        media_type: MediaType::Audio,
    }
}

fn entry(path: &str, mtime: u64, size: u64) -> FileEntry {
    FileEntry { path: path.to_string(), mtime, size }
}

#[test]
fn unchanged_files_are_all_cache_hits() {
    let old = vec![cached("/m/a.mp3", 100, 2000), cached("/m/b.flac", 200, 3000)];
    let entries = vec![entry("/m/a.mp3", 100, 2000), entry("/m/b.flac", 200, 3000)];
    let plan = plan_scan(&entries, &old, &default_sets(), false);
    assert_eq!(plan.len(), 2);
    for (item, want) in plan.iter().zip(old.iter()) {
        match item {
            ScanItem::Ready(t) => assert_eq!(t, want),
            ScanItem::Probe(_) => panic!("a no-op scan must not probe"),
        }
    }
}

#[test]
fn changed_size_forces_a_probe() {
    let old = vec![cached("/m/a.mp3", 100, 2000)];
    let entries = vec![entry("/m/a.mp3", 100, 2001)];
    let plan = plan_scan(&entries, &old, &default_sets(), false);
    assert_eq!(plan.len(), 1);
    match &plan[0] {
        ScanItem::Probe(p) => {
            assert_eq!(p.path, "/m/a.mp3");
            assert_eq!(p.mtime, 100);
            assert_eq!(p.size, 2001);
            assert_eq!(p.media_type, MediaType::Audio);
        }
        ScanItem::Ready(_) => panic!("a stale entry must be re-probed"),
    }
}

#[test]
fn changed_mtime_forces_a_probe() {
    let old = vec![cached("/m/a.mp3", 100, 2000)];
    let entries = vec![entry("/m/a.mp3", 101, 2000)];
    let plan = plan_scan(&entries, &old, &default_sets(), false);
    assert!(matches!(plan[0], ScanItem::Probe(_)));
}

#[test]
fn forced_scan_ignores_the_cache() {
    let old: Vec<Track> = Vec::new();
    let entries = vec![entry("/m/a.mp3", 100, 2000)];
    let plan = plan_scan(&entries, &old, &default_sets(), false);
    assert!(matches!(plan[0], ScanItem::Probe(_)));
}

#[test]
fn unclassified_files_are_skipped() {
    let entries = vec![entry("/m/readme.txt", 1, 1), entry("/m/a.mp3", 2, 2)];
    let plan = plan_scan(&entries, &Vec::new(), &default_sets(), false);
    assert_eq!(plan.len(), 1);
}

#[test]
fn playlists_get_synthetic_fields_without_probing() {
    let entries = vec![entry("/m/road trip.m3u", 5, 6)];
    let plan = plan_scan(&entries, &Vec::new(), &default_sets(), false);
    assert_eq!(plan.len(), 1);
    match &plan[0] {
        ScanItem::Ready(t) => {
            assert_eq!(t.title, "road trip");
            assert_eq!(t.artist, "Playlist");
            assert_eq!(t.album, "Playlists");
            assert_eq!(t.genre, "Playlist");
            assert_eq!(t.media_type, MediaType::Playlist);
            assert_eq!(t.mtime, 5);
            assert_eq!(t.size, 6);
        }
        ScanItem::Probe(_) => panic!("playlists are never probed"),
    }
}

#[test]
fn probe_results_fill_the_track() {
    let entries = vec![entry("/m/song.mp3", 100, 2000)];
    let plan = plan_scan(&entries, &Vec::new(), &default_sets(), false);
    let req = match plan.into_iter().next().unwrap() {
        ScanItem::Probe(p) => p,
        ScanItem::Ready(_) => panic!("expected a probe"),
    };
    let t = finish_probe(
        req,
        Some(TagData {
            title: "Name".to_string(),
            artist: "Who".to_string(),
            album: "Where".to_string(),
            genre: "Jazz".to_string(),
        }),
    );
    assert_eq!(t.path, "/m/song.mp3");
    assert_eq!(t.title, "Name");
    assert_eq!(t.artist, "Who");
    assert_eq!(t.album, "Where");
    assert_eq!(t.genre, "Jazz");
    assert_eq!(t.mtime, 100);
    assert_eq!(t.size, 2000);
    assert_eq!(t.media_type, MediaType::Audio);
}

#[test]
fn failed_probe_falls_back_to_stem_and_sentinel() {
    let entries = vec![entry("/m/deep/no tags.mp3", 1, 2)];
    let plan = plan_scan(&entries, &Vec::new(), &default_sets(), false);
    let req = match plan.into_iter().next().unwrap() {
        ScanItem::Probe(p) => p,
        ScanItem::Ready(_) => panic!("expected a probe"),
    };
    let t = finish_probe(req, None);
    assert_eq!(t.title, "no tags");
    assert_eq!(t.artist, "UNKNOWN");
    assert_eq!(t.album, "UNKNOWN");
    assert_eq!(t.genre, "UNKNOWN");
}

#[test]
fn partial_tags_fall_back_field_by_field() {
    let entries = vec![entry("/m/x.mp3", 1, 2)];
    let plan = plan_scan(&entries, &Vec::new(), &default_sets(), false);
    let req = match plan.into_iter().next().unwrap() {
        ScanItem::Probe(p) => p,
        ScanItem::Ready(_) => panic!("expected a probe"),
    };
    let t = finish_probe(
        req,
        Some(TagData {
            title: "".to_string(),
            artist: "Who".to_string(),
            album: "".to_string(),
            genre: "".to_string(),
        }),
    );
    assert_eq!(t.title, "x");
    assert_eq!(t.artist, "Who");
    assert_eq!(t.album, "UNKNOWN");
    assert_eq!(t.genre, "UNKNOWN");
}
