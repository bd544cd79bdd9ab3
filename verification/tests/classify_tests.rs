use mpv_music::classify::{classify_ext, classify_path, normalize_exts, ExtSets};
use mpv_music::config::Config;
use mpv_music::track::MediaType;

fn strings(words: &[&str]) -> Vec<String> {
    words.iter().map(|w| w.to_string()).collect()
}

fn default_sets() -> ExtSets {
    let cfg = Config::default();
    ExtSets {
        audio: normalize_exts(&cfg.audio_exts),
        video: normalize_exts(&cfg.video_exts),
        playlist: normalize_exts(&cfg.playlist_exts),
    }
}

#[test]
fn uppercase_extension_classifies_as_audio() {
    let sets = default_sets();
    assert_eq!(classify_path("/m/Song.MP3", &sets, false), Some(MediaType::Audio));
}

#[test]
fn classification_precedence_is_audio_playlist_video() {
    let sets = ExtSets {
        audio: strings(&["x"]),
        playlist: strings(&["x", "y"]),
        video: strings(&["x", "y", "z"]),
    };
    assert_eq!(classify_ext(&"x".to_string(), &sets, true), Some(MediaType::Audio));
    assert_eq!(classify_ext(&"y".to_string(), &sets, true), Some(MediaType::Playlist));
    assert_eq!(classify_ext(&"z".to_string(), &sets, true), Some(MediaType::Video));
    assert_eq!(classify_ext(&"w".to_string(), &sets, true), None);
}

#[test]
fn video_needs_the_video_flag() {
    let sets = default_sets();
    assert_eq!(classify_path("/m/movie.mkv", &sets, false), None);
    assert_eq!(classify_path("/m/movie.mkv", &sets, true), Some(MediaType::Video));
}

#[test]
fn playlist_extension_classifies_as_playlist() {
    let sets = default_sets();
    assert_eq!(classify_path("/m/mix.m3u8", &sets, false), Some(MediaType::Playlist));
}

#[test]
fn files_without_usable_extension_are_skipped() {
    let sets = default_sets();
    assert_eq!(classify_path("/m/README", &sets, true), None);
    assert_eq!(classify_path("/m/.mp3", &sets, true), None);
    assert_eq!(classify_path("/m/noise.xyz", &sets, true), None);
}

#[test]
fn extension_sets_are_normalized_before_lookup() {
    let sets = ExtSets {
        audio: normalize_exts(&strings(&[" MP3 ", "FlAc"])),
        playlist: Vec::new(),
        video: Vec::new(),
    };
    assert_eq!(classify_path("/m/a.mp3", &sets, false), Some(MediaType::Audio));
    assert_eq!(classify_path("/m/b.FLAC", &sets, false), Some(MediaType::Audio));
}
