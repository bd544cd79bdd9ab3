use mpv_music::config::{add_music_dir, parse_ext_list, remove_music_dir, Config};
use mpv_music::paths::{file_name, parent_dir};
use mpv_music::player::{common_args, playlist_text, url_args, JsRuntime};

#[test]
fn default_config_values() {
    let cfg = Config::default();
    assert!(cfg.shuffle);
    assert_eq!(cfg.loop_mode, "inf");
    assert_eq!(cfg.volume, 60);
    assert!(cfg.music_dirs.is_empty());
    assert!(!cfg.video_ok);
    assert!(cfg.serial_mode);
    assert!(cfg.audio_exts.contains(&"mp3".to_string()));
    assert!(cfg.video_exts.contains(&"mkv".to_string()));
    assert!(cfg.playlist_exts.contains(&"m3u8".to_string()));
    assert!(!cfg.ytdlp_available);
}

#[test]
fn common_args_for_the_default_config() {
    let cfg = Config::default();
    let args = common_args(&cfg, false);
    assert_eq!(args[0], "--force-window=no");
    assert_eq!(args[1], "--video=no");
    assert!(args.contains(&"--no-video".to_string()));
    assert!(args.contains(&"--volume=60".to_string()));
    assert!(args.contains(&"--shuffle".to_string()));
    assert_eq!(args.last().unwrap(), "--loop-playlist=inf");
    // the banner argument is rewritten with a screen clear
    assert!(args.iter().any(|a| a.starts_with("--term-playing-msg=\u{1b}[H\u{1b}[2J\u{1b}[3J\n")
        && a.ends_with("\n")));
}

#[test]
fn debug_keeps_the_banner_scrollback() {
    let cfg = Config::default();
    let args = common_args(&cfg, true);
    assert!(args.iter().any(|a| a.starts_with("--term-playing-msg=\n")));
}

#[test]
fn loop_mode_variants() {
    let mut cfg = Config::default();
    cfg.loop_mode = "no".to_string();
    let args = common_args(&cfg, false);
    assert!(args.contains(&"--loop-playlist=no".to_string()));
    assert!(args.contains(&"--loop-file=no".to_string()));

    cfg.loop_mode = "track".to_string();
    assert!(common_args(&cfg, false).contains(&"--loop-file=inf".to_string()));

    cfg.loop_mode = "5".to_string();
    assert!(common_args(&cfg, false).contains(&"--loop-playlist=5".to_string()));

    cfg.loop_mode = "whatever".to_string();
    let args = common_args(&cfg, false);
    assert!(!args.iter().any(|a| a.starts_with("--loop")));
}

#[test]
fn url_args_for_a_video_site_stream() {
    let args = url_args(
        "https://www.youtube.com/watch?v=x&list=abc",
        false,
        &"UA".to_string(),
        true,
        JsRuntime::Node,
    );
    assert_eq!(args[0], "--msg-level=ytdl_hook=info");
    assert_eq!(args[1], "--ytdl-format=bestaudio/best");
    assert_eq!(
        args[2],
        "--ytdl-raw-options=yes-playlist=,user-agent=UA,remote-components=ejs:github,js-runtimes=node"
    );
}

#[test]
fn url_args_for_a_local_file_are_empty() {
    let args = url_args("/m/a.mp3", false, &"UA".to_string(), true, JsRuntime::Deno);
    assert!(args.is_empty());
}

#[test]
fn url_args_for_a_plain_stream() {
    let args = url_args("ftp://host/x.mp3", true, &"UA".to_string(), false, JsRuntime::NoneFound);
    assert_eq!(args, vec!["--msg-level=ytdl_hook=info".to_string()]);
}

#[test]
fn playlist_text_lists_each_path() {
    let paths = vec!["/m/a.mp3".to_string(), "/m/b.flac".to_string()];
    assert_eq!(playlist_text(&paths), "#EXTM3U\n/m/a.mp3\n/m/b.flac\n");
    assert_eq!(playlist_text(&Vec::new()), "#EXTM3U\n");
}

#[test]
fn directory_list_edits() {
    let mut dirs: Vec<String> = Vec::new();
    assert!(add_music_dir(&mut dirs, "/m".to_string()));
    assert!(!add_music_dir(&mut dirs, "/m".to_string()));
    assert!(add_music_dir(&mut dirs, "/n".to_string()));
    assert_eq!(dirs, vec!["/m".to_string(), "/n".to_string()]);
    assert!(remove_music_dir(&mut dirs, &"/m".to_string()));
    assert!(!remove_music_dir(&mut dirs, &"/m".to_string()));
    assert_eq!(dirs, vec!["/n".to_string()]);
}

#[test]
fn extension_overrides_are_split_and_trimmed() {
    let exts = parse_ext_list(" mp3 , flac ,, ogg ");
    assert_eq!(exts, vec!["mp3".to_string(), "flac".to_string(), "ogg".to_string()]);
}

#[test]
fn path_helpers() {
    assert_eq!(parent_dir("/m/rock/a.mp3"), Some("/m/rock".to_string()));
    assert_eq!(parent_dir("plain.mp3"), None);
    assert_eq!(file_name("/m/rock/a.mp3"), "a.mp3");
    assert_eq!(file_name("/m/rock/"), "");
}
