//! The user-facing configuration: playback switches, the configured music
//! directories, and the three extension sets. Loading and saving the file
//! itself is outside work; this module owns the defaults and the list edits.

use vstd::prelude::*;
use crate::classify::views_of;
use crate::text::{split_clean, string_from_chars};
use crate::query::comma_pred;

verus! {

/// The configuration the rest of the catalog consumes.
pub struct Config {
    pub shuffle: bool,
    /// One of "playlist", "track", "no", "inf", or a number of repeats.
    pub loop_mode: String,
    pub volume: u8,
    pub music_dirs: Vec<String>,
    pub video_ok: bool,
    pub serial_mode: bool,
    pub ytdlp_ejs_remote_github: bool,
    pub ytdlp_useragent: String,
    pub enable_file_logging: bool,
    pub audio_exts: Vec<String>,
    pub video_exts: Vec<String>,
    pub playlist_exts: Vec<String>,
    pub mpv_default_args: Vec<String>,
    /// Set at startup from a capability check; never persisted.
    pub ytdlp_available: bool,
}

fn string_vec(words: Vec<&str>) -> (r: Vec<String>)
    ensures
        views_of(r@) == words@.map_values(|w: &str| w@),
{
    let ghost wviews = words@.map_values(|w: &str| w@);
    let mut out: Vec<String> = Vec::new();
    let mut i: usize = 0;
    proof {
        assert(views_of(out@) =~= wviews.subrange(0, 0));
    }
    while i < words.len()
        invariant
            0 <= i <= words.len(),
            wviews == words@.map_values(|w: &str| w@),
            views_of(out@) == wviews.subrange(0, i as int),
        decreases words.len() - i,
    {
        let s = words[i].to_owned();
        proof {
            assert(views_of(out@.push(s)) =~= views_of(out@).push(s@));
            assert(wviews.subrange(0, i + 1) =~= wviews.subrange(0, i as int).push(
                wviews[i as int],
            ));
        }
        out.push(s);
        i += 1;
    }
    proof {
        assert(wviews.subrange(0, words.len() as int) =~= wviews);
    }
    out
}

impl Default for Config {
    /// The defaults: shuffle on, endless playlist loop, moderate volume, no
    /// video, serial scanning, the stock extension sets, and no configured
    /// directories (the surrounding program may seed one from the
    /// environment).
    fn default() -> (r: Config)
        ensures
            r.shuffle == true,
            r.loop_mode@ == "inf"@,
            r.volume == 60,
            r.music_dirs@.len() == 0,
            r.video_ok == false,
            r.serial_mode == true,
            r.ytdlp_ejs_remote_github == true,
            r.enable_file_logging == true,
            views_of(r.audio_exts@) == seq![
                "mp3"@,
                "flac"@,
                "wav"@,
                "m4a"@,
                "aac"@,
                "ogg"@,
                "opus"@,
                "wma"@,
                "alac"@,
                "aiff"@,
                "amr"@,
            ],
            views_of(r.video_exts@) == seq![
                "mp4"@,
                "mkv"@,
                "webm"@,
                "avi"@,
                "mov"@,
                "flv"@,
                "wmv"@,
                "mpeg"@,
                "mpg"@,
                "3gp"@,
                "ts"@,
                "vob"@,
                "m4v"@,
            ],
            views_of(r.playlist_exts@) == seq!["m3u"@, "m3u8"@, "pls"@],
            views_of(r.mpv_default_args@) == seq![
                "--no-video"@,
                "--audio-display=no"@,
                "--msg-level=cplayer=warn"@,
                "--display-tags="@,
                "--no-term-osd-bar"@,
                "--term-playing-msg=\u{2554}\u{2550}\u{2550}  MPV-MUSIC  \u{2550}\u{2550}\u{2557}"@,
                "--term-status-msg=\u{25b6} ${?metadata/artist:${metadata/artist} - }${?metadata/title:${metadata/title}}${!metadata/title:${media-title}} \u{2022} ${time-pos} / ${duration} \u{2022} (${percent-pos}%)"@,
            ],
            r.ytdlp_useragent@
                == "Mozilla/5.0 (Windows NT 10.0; Win64; x64; rv:109.0) Gecko/20100101 Firefox/114.0"@,
            r.ytdlp_available == false,
    {
        let audio = string_vec(
            vec!["mp3", "flac", "wav", "m4a", "aac", "ogg", "opus", "wma", "alac", "aiff", "amr"],
        );
        let video = string_vec(
            vec![
                "mp4",
                "mkv",
                "webm",
                "avi",
                "mov",
                "flv",
                "wmv",
                "mpeg",
                "mpg",
                "3gp",
                "ts",
                "vob",
                "m4v",
            ],
        );
        let playlist = string_vec(vec!["m3u", "m3u8", "pls"]);
        let mpv_args = string_vec(
            vec![
                "--no-video",
                "--audio-display=no",
                "--msg-level=cplayer=warn",
                "--display-tags=",
                "--no-term-osd-bar",
                "--term-playing-msg=\u{2554}\u{2550}\u{2550}  MPV-MUSIC  \u{2550}\u{2550}\u{2557}",
                "--term-status-msg=\u{25b6} ${?metadata/artist:${metadata/artist} - }${?metadata/title:${metadata/title}}${!metadata/title:${media-title}} \u{2022} ${time-pos} / ${duration} \u{2022} (${percent-pos}%)",
            ],
        );
        proof {
            assert(views_of(audio@) =~= seq![
                "mp3"@,
                "flac"@,
                "wav"@,
                "m4a"@,
                "aac"@,
                "ogg"@,
                "opus"@,
                "wma"@,
                "alac"@,
                "aiff"@,
                "amr"@,
            ]);
            assert(views_of(video@) =~= seq![
                "mp4"@,
                "mkv"@,
                "webm"@,
                "avi"@,
                "mov"@,
                "flv"@,
                "wmv"@,
                "mpeg"@,
                "mpg"@,
                "3gp"@,
                "ts"@,
                "vob"@,
                "m4v"@,
            ]);
            assert(views_of(playlist@) =~= seq!["m3u"@, "m3u8"@, "pls"@]);
            assert(views_of(mpv_args@) =~= seq![
                "--no-video"@,
                "--audio-display=no"@,
                "--msg-level=cplayer=warn"@,
                "--display-tags="@,
                "--no-term-osd-bar"@,
                "--term-playing-msg=\u{2554}\u{2550}\u{2550}  MPV-MUSIC  \u{2550}\u{2550}\u{2557}"@,
                "--term-status-msg=\u{25b6} ${?metadata/artist:${metadata/artist} - }${?metadata/title:${metadata/title}}${!metadata/title:${media-title}} \u{2022} ${time-pos} / ${duration} \u{2022} (${percent-pos}%)"@,
            ]);
        }
        Config {
            shuffle: true,
            loop_mode: "inf".to_owned(),
            volume: 60,
            music_dirs: Vec::new(),
            video_ok: false,
            serial_mode: true,
            ytdlp_ejs_remote_github: true,
            ytdlp_useragent:
                "Mozilla/5.0 (Windows NT 10.0; Win64; x64; rv:109.0) Gecko/20100101 Firefox/114.0".to_owned(),
            enable_file_logging: true,
            audio_exts: audio,
            video_exts: video,
            playlist_exts: playlist,
            mpv_default_args: mpv_args,
            ytdlp_available: false,
        }
    }
}

/// Add a directory to the configured list unless it is already there;
/// reports whether the list changed.
pub fn add_music_dir(dirs: &mut Vec<String>, dir: String) -> (r: bool)
    ensures
        r == !views_of(old(dirs)@).contains(dir@),
        r ==> final(dirs)@ == old(dirs)@.push(dir),
        !r ==> final(dirs)@ == old(dirs)@,
{
    let mut i: usize = 0;
    while i < dirs.len()
        invariant
            0 <= i <= dirs.len(),
            forall|j: int| 0 <= j < i ==> views_of(dirs@)[j] != dir@,
        decreases dirs.len() - i,
    {
        if dir.eq(&dirs[i]) {
            proof {
                assert(views_of(dirs@)[i as int] == dir@);
            }
            return false;
        }
        i += 1;
    }
    proof {
        if views_of(dirs@).contains(dir@) {
            let w = choose|j: int| 0 <= j < views_of(dirs@).len() && views_of(dirs@)[j] == dir@;
            assert(views_of(dirs@)[w] == dir@);
        }
    }
    dirs.push(dir);
    true
}

/// Remove every occurrence of a directory from the configured list; reports
/// whether anything was removed.
pub fn remove_music_dir(dirs: &mut Vec<String>, dir: &String) -> (r: bool)
    ensures
        views_of(final(dirs)@) == views_of(old(dirs)@).filter(|d: Seq<char>| d != dir@),
        r == views_of(old(dirs)@).contains(dir@),
{
    let ghost dviews = views_of(dirs@);
    let ghost keep = |d: Seq<char>| d != dir@;
    let mut out: Vec<String> = Vec::new();
    let mut found = false;
    let mut i: usize = 0;
    proof {
        reveal(Seq::filter);
        assert(views_of(out@) =~= dviews.subrange(0, 0).filter(keep));
    }
    while i < dirs.len()
        invariant
            0 <= i <= dirs.len(),
            dviews == views_of(dirs@),
            keep == (|d: Seq<char>| d != dir@),
            views_of(out@) == dviews.subrange(0, i as int).filter(keep),
            found == exists|j: int| 0 <= j < i && dviews[j] == dir@,
        decreases dirs.len() - i,
    {
        proof {
            let prev = dviews.subrange(0, i as int);
            let next = dviews.subrange(0, i + 1);
            assert(next =~= prev.push(dviews[i as int]));
            reveal(Seq::filter);
            assert(next.drop_last() =~= prev);
            assert(next.filter(keep) == if keep(dviews[i as int]) {
                prev.filter(keep).push(dviews[i as int])
            } else {
                prev.filter(keep)
            });
        }
        if dir.eq(&dirs[i]) {
            found = true;
        } else {
            let s = dirs[i].clone();
            proof {
                assert(views_of(out@.push(s)) =~= views_of(out@).push(s@));
            }
            out.push(s);
        }
        i += 1;
    }
    proof {
        assert(dviews.subrange(0, dirs.len() as int) =~= dviews);
        if found {
            let w = choose|j: int| 0 <= j < dirs@.len() && dviews[j] == dir@;
            assert(dviews.contains(dir@));
        }
        if dviews.contains(dir@) {
            let w = choose|j: int| 0 <= j < dviews.len() && dviews[j] == dir@;
            assert(dviews[w] == dir@);
        }
    }
    *dirs = out;
    found
}

/// Parse a comma-separated extension override: split, trim, drop empties.
pub fn parse_ext_list(input: &str) -> (r: Vec<String>)
    ensures
        views_of(r@) == split_clean(input@, comma_pred()),
{
    let chars = crate::text::chars_of(input);
    let mut seps: Vec<char> = Vec::new();
    seps.push(',');
    let pieces = crate::text::split_clean_chars(&chars, &seps);
    proof {
        let sep_fn = |c: char| seps@.contains(c);
        assert(seps@ =~= seq![',']);
        assert forall|c: char| #[trigger] sep_fn(c) == comma_pred()(c) by {
            if seps@.contains(c) {
                let w = choose|i: int| 0 <= i < seps@.len() && seps@[i] == c;
                assert(seps@[w] == c);
            }
            if c == ',' {
                assert(seps@[0] == c);
                assert(seps@.contains(c));
            }
        }
        assert(sep_fn =~= comma_pred());
    }
    let ghost pviews = pieces@.map_values(|p: Vec<char>| p@);
    let mut out: Vec<String> = Vec::new();
    let mut k: usize = 0;
    proof {
        assert(views_of(out@) =~= pviews.subrange(0, 0));
    }
    while k < pieces.len()
        invariant
            0 <= k <= pieces.len(),
            pviews == pieces@.map_values(|p: Vec<char>| p@),
            views_of(out@) == pviews.subrange(0, k as int),
        decreases pieces.len() - k,
    {
        let s = string_from_chars(&pieces[k]);
        proof {
            assert(views_of(out@.push(s)) =~= views_of(out@).push(s@));
            assert(pviews.subrange(0, k + 1) =~= pviews.subrange(0, k as int).push(
                pviews[k as int],
            ));
        }
        out.push(s);
        k += 1;
    }
    proof {
        assert(pviews.subrange(0, pieces.len() as int) =~= pviews);
    }
    out
}

} // verus!
