//! Extension-based media classification: an extension is looked up, after
//! lowercasing, in the configured audio, playlist and video extension sets,
//! in that order of precedence; video counts only when video is enabled.

use vstd::prelude::*;
use crate::track::MediaType;
use crate::text::{chars_of, lower_of, string_from_chars, to_lower, trim, trim_chars};
use crate::paths::extension_of;

verus! {

/// The three configured extension sets, already normalized to lowercase.
pub struct ExtSets {
    pub audio: Vec<String>,
    pub video: Vec<String>,
    pub playlist: Vec<String>,
}

/// Whether `x` is one of the extensions in `exts`.
pub open spec fn set_has(exts: Seq<Seq<char>>, x: Seq<char>) -> bool {
    exists|i: int| 0 <= i < exts.len() && exts[i] == x
}

/// The views of a list of strings.
pub open spec fn views_of(v: Seq<String>) -> Seq<Seq<char>> {
    v.map_values(|e: String| e@)
}

/// Membership test against an extension list.
fn list_has(exts: &Vec<String>, x: &String) -> (r: bool)
    ensures
        r == set_has(views_of(exts@), x@),
{
    let mut i: usize = 0;
    while i < exts.len()
        invariant
            0 <= i <= exts.len(),
            forall|j: int| 0 <= j < i ==> views_of(exts@)[j] != x@,
            forall|j: int| 0 <= j < exts@.len() ==> views_of(exts@)[j] == exts@[j]@,
        decreases exts.len() - i,
    {
        if x.eq(&exts[i]) {
            proof {
                assert(views_of(exts@)[i as int] == exts@[i as int]@);
            }
            return true;
        }
        i += 1;
    }
    false
}

/// The media type an already-lowercased extension classifies to: audio first,
/// then playlist, then video when enabled; anything else is skipped.
pub open spec fn spec_classify(
    ext: Seq<char>,
    audio: Seq<Seq<char>>,
    playlist: Seq<Seq<char>>,
    video: Seq<Seq<char>>,
    video_ok: bool,
) -> Option<MediaType> {
    if set_has(audio, ext) {
        Some(MediaType::Audio)
    } else if set_has(playlist, ext) {
        Some(MediaType::Playlist)
    } else if video_ok && set_has(video, ext) {
        Some(MediaType::Video)
    } else {
        None
    }
}

/// Classify an already-lowercased extension against the configured sets.
pub fn classify_ext(ext_lower: &String, sets: &ExtSets, video_ok: bool) -> (r: Option<MediaType>)
    ensures
        r == spec_classify(
            ext_lower@,
            views_of(sets.audio@),
            views_of(sets.playlist@),
            views_of(sets.video@),
            video_ok,
        ),
{
    if list_has(&sets.audio, ext_lower) {
        Some(MediaType::Audio)
    } else if list_has(&sets.playlist, ext_lower) {
        Some(MediaType::Playlist)
    } else if video_ok && list_has(&sets.video, ext_lower) {
        Some(MediaType::Video)
    } else {
        None
    }
}

/// How a path classifies: by its extension, lowercased, against the sets.
pub open spec fn spec_classify_path(
    path: Seq<char>,
    audio: Seq<Seq<char>>,
    playlist: Seq<Seq<char>>,
    video: Seq<Seq<char>>,
    video_ok: bool,
) -> Option<MediaType> {
    match extension_of(path) {
        None => None,
        Some(e) => spec_classify(lower_of(e), audio, playlist, video, video_ok),
    }
}

/// Classify a path: a file with no extension is skipped; otherwise its
/// extension, lowercased, decides.
pub fn classify_path(path: &str, sets: &ExtSets, video_ok: bool) -> (r: Option<MediaType>)
    ensures
        r == spec_classify_path(
            path@,
            views_of(sets.audio@),
            views_of(sets.playlist@),
            views_of(sets.video@),
            video_ok,
        ),
{
    let (_, ext, _) = crate::paths::split_path(path);
    match ext {
        None => None,
        Some(e) => {
            let es = string_from_chars(&e);
            let low = to_lower(es.as_str());
            classify_ext(&low, sets, video_ok)
        },
    }
}

/// Normalize configured extensions as the scanner consumes them: each entry
/// trimmed, then lowercased.
pub fn normalize_exts(exts: &Vec<String>) -> (r: Vec<String>)
    ensures
        views_of(r@) == views_of(exts@).map_values(|e: Seq<char>| lower_of(trim(e))),
{
    let mut out: Vec<String> = Vec::new();
    let mut i: usize = 0;
    proof {
        assert(views_of(out@) =~= views_of(exts@).subrange(0, 0).map_values(
            |e: Seq<char>| lower_of(trim(e)),
        ));
    }
    while i < exts.len()
        invariant
            0 <= i <= exts.len(),
            views_of(out@) == views_of(exts@).subrange(0, i as int).map_values(
                |e: Seq<char>| lower_of(trim(e)),
            ),
        decreases exts.len() - i,
    {
        let cs = chars_of(exts[i].as_str());
        let t = trim_chars(&cs);
        let ts = string_from_chars(&t);
        let low = to_lower(ts.as_str());
        proof {
            let f = |e: Seq<char>| lower_of(trim(e));
            assert(low@ == f(views_of(exts@)[i as int]));
            assert(views_of(out@.push(low)) =~= views_of(out@).push(low@));
            assert(views_of(exts@).subrange(0, i + 1).map_values(f) =~= views_of(
                exts@,
            ).subrange(0, i as int).map_values(f).push(f(views_of(exts@)[i as int])));
        }
        out.push(low);
        i += 1;
    }
    proof {
        assert(views_of(exts@).subrange(0, exts.len() as int) =~= views_of(exts@));
    }
    out
}

} // verus!
