//! Incremental scan planning. Given the files found on disk (path, mtime,
//! size), the prior snapshot and the extension sets, the planner decides per
//! file: skip it, reuse the cached track verbatim, build a synthetic playlist
//! track, or request a metadata probe. Probing itself is outside work; its
//! result comes back through `finish_probe`, which applies the fallback
//! rules.

use vstd::prelude::*;
use crate::track::{MediaType, Track, TrackView};
use crate::classify::{spec_classify_path, classify_path, views_of, ExtSets};
use crate::paths::{split_path, stem_of};
use crate::text::string_from_chars;

verus! {

/// One file met during the directory walk: its path and the metadata the walk
/// already carries.
pub struct FileEntry {
    pub path: String,
    pub mtime: u64,
    pub size: u64,
}

/// The mathematical value of a `FileEntry`.
pub ghost struct FileEntryView {
    pub path: Seq<char>,
    pub mtime: u64,
    pub size: u64,
}

impl View for FileEntry {
    type V = FileEntryView;

    open spec fn view(&self) -> FileEntryView {
        FileEntryView { path: self.path@, mtime: self.mtime, size: self.size }
    }
}

/// A pending metadata probe: the track is built once the probe returns.
pub struct ProbeRequest {
    pub path: String,
    pub mtime: u64,
    pub size: u64,
    pub media_type: MediaType,
}

/// The mathematical value of a `ProbeRequest`.
pub ghost struct ProbeRequestView {
    pub path: Seq<char>,
    pub mtime: u64,
    pub size: u64,
    pub media_type: MediaType,
}

impl View for ProbeRequest {
    type V = ProbeRequestView;

    open spec fn view(&self) -> ProbeRequestView {
        ProbeRequestView {
            path: self.path@,
            mtime: self.mtime,
            size: self.size,
            media_type: self.media_type,
        }
    }
}

/// What the planner decides for one classified file: a finished track (a
/// cache hit or a synthetic playlist record), or a probe to run.
pub enum ScanItem {
    Ready(Track),
    Probe(ProbeRequest),
}

/// The mathematical value of a `ScanItem`.
pub ghost enum ScanItemView {
    Ready(TrackView),
    Probe(ProbeRequestView),
}

impl View for ScanItem {
    type V = ScanItemView;

    open spec fn view(&self) -> ScanItemView {
        match self {
            ScanItem::Ready(t) => ScanItemView::Ready(t@),
            ScanItem::Probe(p) => ScanItemView::Probe(p@),
        }
    }
}

/// The tag fields a metadata probe extracted; a missing field is an empty
/// string, never an error.
pub struct TagData {
    pub title: String,
    pub artist: String,
    pub album: String,
    pub genre: String,
}

/// The prior snapshot's record for a path: the first track carrying it.
pub open spec fn find_track(ts: Seq<TrackView>, path: Seq<char>) -> Option<TrackView>
    decreases ts.len(),
{
    if ts.len() == 0 {
        None
    } else if ts[0].path == path {
        Some(ts[0])
    } else {
        find_track(ts.drop_first(), path)
    }
}

/// The literal tag values of a synthetic playlist record.
pub open spec fn playlist_word() -> Seq<char> {
    seq!['P', 'l', 'a', 'y', 'l', 'i', 's', 't']
}

/// The album value of a synthetic playlist record.
pub open spec fn playlists_word() -> Seq<char> {
    seq!['P', 'l', 'a', 'y', 'l', 'i', 's', 't', 's']
}

/// The sentinel for a tag the probe could not supply.
pub open spec fn unknown_word() -> Seq<char> {
    seq!['U', 'N', 'K', 'N', 'O', 'W', 'N']
}

/// The synthetic track for a playlist file: never probed.
pub open spec fn spec_playlist_track(e: FileEntryView) -> TrackView {
    TrackView {
        path: e.path,
        title: stem_of(e.path),
        artist: playlist_word(),
        album: playlists_word(),
        genre: playlist_word(),
        mtime: e.mtime,
        size: e.size,
        media_type: MediaType::Playlist,
    }
}

/// What the planner decides for one file: `None` skips it (unclassified
/// extension); a cached track with unchanged mtime and size is reused
/// verbatim; a playlist is rebuilt synthetically; anything else is probed.
pub open spec fn spec_plan_one(
    e: FileEntryView,
    old: Seq<TrackView>,
    audio: Seq<Seq<char>>,
    playlist: Seq<Seq<char>>,
    video: Seq<Seq<char>>,
    video_ok: bool,
) -> Option<ScanItemView> {
    match spec_classify_path(e.path, audio, playlist, video, video_ok) {
        None => None,
        Some(mt) => {
            let hit = match find_track(old, e.path) {
                Some(t) => t.mtime == e.mtime && t.size == e.size,
                None => false,
            };
            if hit {
                Some(ScanItemView::Ready(find_track(old, e.path)->Some_0))
            } else if mt == MediaType::Playlist {
                Some(ScanItemView::Ready(spec_playlist_track(e)))
            } else {
                Some(
                    ScanItemView::Probe(
                        ProbeRequestView {
                            path: e.path,
                            mtime: e.mtime,
                            size: e.size,
                            media_type: mt,
                        },
                    ),
                )
            }
        },
    }
}

/// The whole plan for a scan, in file order.
pub open spec fn spec_plan(
    entries: Seq<FileEntryView>,
    old: Seq<TrackView>,
    audio: Seq<Seq<char>>,
    playlist: Seq<Seq<char>>,
    video: Seq<Seq<char>>,
    video_ok: bool,
) -> Seq<ScanItemView>
    decreases entries.len(),
{
    if entries.len() == 0 {
        Seq::empty()
    } else {
        let rest = spec_plan(entries.drop_first(), old, audio, playlist, video, video_ok);
        match spec_plan_one(entries[0], old, audio, playlist, video, video_ok) {
            None => rest,
            Some(item) => seq![item] + rest,
        }
    }
}

/// Find the prior snapshot's record for a path.
fn lookup_track<'a>(old: &'a Vec<Track>, path: &String) -> (r: Option<&'a Track>)
    ensures
        match r {
            Some(t) => find_track(old@.map_values(|t: Track| t@), path@) == Some(t@),
            None => find_track(old@.map_values(|t: Track| t@), path@) is None,
        },
{
    let ghost views = old@.map_values(|t: Track| t@);
    let mut i: usize = 0;
    proof {
        assert(views.skip(0) =~= views);
    }
    while i < old.len()
        invariant
            0 <= i <= old.len(),
            views == old@.map_values(|t: Track| t@),
            find_track(views, path@) == find_track(views.skip(i as int), path@),
        decreases old.len() - i,
    {
        proof {
            assert(views.skip(i as int)[0] == views[i as int]);
            assert(views.skip(i as int).drop_first() =~= views.skip(i + 1));
        }
        if old[i].path.eq(path) {
            return Some(&old[i]);
        }
        i += 1;
    }
    proof {
        assert(views.skip(old.len() as int) =~= Seq::<TrackView>::empty());
    }
    None
}

/// Build the synthetic track for a playlist file.
fn playlist_track(e: &FileEntry) -> (r: Track)
    ensures
        r@ == spec_playlist_track(e@),
{
    let (_, _, stem) = split_path(e.path.as_str());
    let r = Track {
        path: e.path.clone(),
        title: string_from_chars(&stem),
        artist: crate::text::string_from_chars(&word_playlist()),
        album: crate::text::string_from_chars(&word_playlists()),
        genre: crate::text::string_from_chars(&word_playlist()),
        mtime: e.mtime,
        size: e.size,
        media_type: MediaType::Playlist,
    };
    r
}

fn word_playlist() -> (r: Vec<char>)
    ensures
        r@ == playlist_word(),
{
    let r = crate::text::chars_of("Playlist");
    proof {
        reveal_strlit("Playlist");
        assert(r@ =~= playlist_word());
    }
    r
}

fn word_playlists() -> (r: Vec<char>)
    ensures
        r@ == playlists_word(),
{
    let r = crate::text::chars_of("Playlists");
    proof {
        reveal_strlit("Playlists");
        assert(r@ =~= playlists_word());
    }
    r
}

fn word_unknown() -> (r: Vec<char>)
    ensures
        r@ == unknown_word(),
{
    let r = crate::text::chars_of("UNKNOWN");
    proof {
        reveal_strlit("UNKNOWN");
        assert(r@ =~= unknown_word());
    }
    r
}

/// Plan a scan over the files found on disk: classify each, reuse unchanged
/// cached records, rebuild playlists, and request probes for the rest. A
/// forced full scan passes an empty prior snapshot.
pub fn plan_scan(entries: &Vec<FileEntry>, old: &Vec<Track>, sets: &ExtSets, video_ok: bool) -> (r:
    Vec<ScanItem>)
    ensures
        r@.map_values(|x: ScanItem| x@) == spec_plan(
            entries@.map_values(|e: FileEntry| e@),
            old@.map_values(|t: Track| t@),
            views_of(sets.audio@),
            views_of(sets.playlist@),
            views_of(sets.video@),
            video_ok,
        ),
{
    let ghost eviews = entries@.map_values(|e: FileEntry| e@);
    let ghost oviews = old@.map_values(|t: Track| t@);
    let ghost audio = views_of(sets.audio@);
    let ghost playlist = views_of(sets.playlist@);
    let ghost video = views_of(sets.video@);
    let mut out: Vec<ScanItem> = Vec::new();
    let mut i: usize = 0;
    proof {
        assert(eviews.skip(0) =~= eviews);
        assert(out@.map_values(|x: ScanItem| x@) =~= Seq::<ScanItemView>::empty());
        assert(Seq::<ScanItemView>::empty() + spec_plan(eviews, oviews, audio, playlist, video,
        video_ok) =~= spec_plan(eviews, oviews, audio, playlist, video, video_ok));
    }
    while i < entries.len()
        invariant
            0 <= i <= entries.len(),
            eviews == entries@.map_values(|e: FileEntry| e@),
            oviews == old@.map_values(|t: Track| t@),
            audio == views_of(sets.audio@),
            playlist == views_of(sets.playlist@),
            video == views_of(sets.video@),
            spec_plan(eviews, oviews, audio, playlist, video, video_ok) == out@.map_values(
                |x: ScanItem| x@,
            ) + spec_plan(eviews.skip(i as int), oviews, audio, playlist, video, video_ok),
        decreases entries.len() - i,
    {
        proof {
            assert(eviews.skip(i as int)[0] == eviews[i as int]);
            assert(eviews.skip(i as int).drop_first() =~= eviews.skip(i + 1));
        }
        let e = &entries[i];
        let item: Option<ScanItem> = match classify_path(e.path.as_str(), sets, video_ok) {
            None => None,
            Some(mt) => {
                let cached = lookup_track(old, &e.path);
                let hit = match cached {
                    Some(t) => t.mtime == e.mtime && t.size == e.size,
                    None => false,
                };
                if hit {
                    match cached {
                        Some(t) => Some(ScanItem::Ready(t.duplicate())),
                        None => None,
                    }
                } else if matches!(mt, MediaType::Playlist) {
                    Some(ScanItem::Ready(playlist_track(e)))
                } else {
                    Some(
                        ScanItem::Probe(
                            ProbeRequest {
                                path: e.path.clone(),
                                mtime: e.mtime,
                                size: e.size,
                                media_type: mt,
                            },
                        ),
                    )
                }
            },
        };
        match item {
            Some(x) => {
                proof {
                    let one = spec_plan_one(
                        eviews[i as int],
                        oviews,
                        audio,
                        playlist,
                        video,
                        video_ok,
                    );
                    assert(one == Some(x@));
                    assert((out@.push(x)).map_values(|y: ScanItem| y@) =~= out@.map_values(
                        |y: ScanItem| y@,
                    ).push(x@));
                    assert(out@.map_values(|y: ScanItem| y@).push(x@) + spec_plan(
                        eviews.skip(i + 1),
                        oviews,
                        audio,
                        playlist,
                        video,
                        video_ok,
                    ) =~= out@.map_values(|y: ScanItem| y@) + (seq![x@] + spec_plan(
                        eviews.skip(i + 1),
                        oviews,
                        audio,
                        playlist,
                        video,
                        video_ok,
                    )));
                }
                out.push(x);
            },
            None => {
                proof {
                    assert(spec_plan_one(eviews[i as int], oviews, audio, playlist, video,
                    video_ok) is None);
                }
            },
        }
        i += 1;
    }
    proof {
        assert(eviews.skip(entries.len() as int) =~= Seq::<FileEntryView>::empty());
        assert(out@.map_values(|x: ScanItem| x@) + Seq::<ScanItemView>::empty() =~= out@
            .map_values(|x: ScanItem| x@));
    }
    out
}

proof fn lemma_find_unique(old: Seq<TrackView>, k: int)
    requires
        0 <= k < old.len(),
        forall|i: int| 0 <= i < k ==> old[i].path != old[k].path,
    ensures
        find_track(old, old[k].path) == Some(old[k]),
    decreases k,
{
    if k > 0 {
        assert(old[0].path != old[k].path);
        assert(old.drop_first()[k - 1] == old[k]);
        assert(forall|i: int|
            0 <= i < k - 1 ==> #[trigger] old.drop_first()[i] == old[i + 1]);
        lemma_find_unique(old.drop_first(), k - 1);
    }
}

proof fn lemma_find_is_match(old: Seq<TrackView>, path: Seq<char>)
    requires
        find_track(old, path) is Some,
    ensures
        exists|i: int|
            0 <= i < old.len() && old[i] == find_track(old, path)->Some_0 && #[trigger] old[
            i].path == path,
    decreases old.len(),
{
    if old[0].path == path {
        assert(old[0].path == path);
    } else {
        lemma_find_is_match(old.drop_first(), path);
        let w = choose|i: int|
            0 <= i < old.drop_first().len() && old.drop_first()[i] == find_track(
                old.drop_first(),
                path,
            )->Some_0 && #[trigger] old.drop_first()[i].path == path;
        assert(old[w + 1] == old.drop_first()[w]);
    }
}

/// A scan over an unchanged tree is a no-op: when the files on disk are
/// exactly the indexed tracks, with their recorded mtimes and sizes, the plan
/// reuses every cached record verbatim and requests no probe at all.
pub proof fn lemma_noop_scan(
    entries: Seq<FileEntryView>,
    old: Seq<TrackView>,
    audio: Seq<Seq<char>>,
    playlist: Seq<Seq<char>>,
    video: Seq<Seq<char>>,
    video_ok: bool,
)
    requires
        entries.len() == old.len(),
        forall|i: int|
            0 <= i < old.len() ==> (#[trigger] entries[i]).path == old[i].path && entries[i].mtime
                == old[i].mtime && entries[i].size == old[i].size,
        forall|i: int, j: int| 0 <= i < j < old.len() ==> old[i].path != old[j].path,
        forall|i: int|
            0 <= i < old.len() ==> spec_classify_path(
                (#[trigger] old[i]).path,
                audio,
                playlist,
                video,
                video_ok,
            ) is Some,
    ensures
        spec_plan(entries, old, audio, playlist, video, video_ok) == old.map_values(
            |t: TrackView| ScanItemView::Ready(t),
        ),
{
    lemma_noop_scan_suffix(entries, old, audio, playlist, video, video_ok, 0);
    assert(entries.skip(0) =~= entries);
    assert(old.skip(0) =~= old);
}

proof fn lemma_noop_scan_suffix(
    entries: Seq<FileEntryView>,
    old: Seq<TrackView>,
    audio: Seq<Seq<char>>,
    playlist: Seq<Seq<char>>,
    video: Seq<Seq<char>>,
    video_ok: bool,
    k: int,
)
    requires
        0 <= k <= entries.len(),
        entries.len() == old.len(),
        forall|i: int|
            0 <= i < old.len() ==> (#[trigger] entries[i]).path == old[i].path && entries[i].mtime
                == old[i].mtime && entries[i].size == old[i].size,
        forall|i: int, j: int| 0 <= i < j < old.len() ==> old[i].path != old[j].path,
        forall|i: int|
            0 <= i < old.len() ==> spec_classify_path(
                (#[trigger] old[i]).path,
                audio,
                playlist,
                video,
                video_ok,
            ) is Some,
    ensures
        spec_plan(entries.skip(k), old, audio, playlist, video, video_ok) == old.skip(
            k,
        ).map_values(|t: TrackView| ScanItemView::Ready(t)),
    decreases entries.len() - k,
{
    if k == entries.len() {
        assert(entries.skip(k) =~= Seq::<FileEntryView>::empty());
        assert(old.skip(k).map_values(|t: TrackView| ScanItemView::Ready(t))
            =~= Seq::<ScanItemView>::empty());
    } else {
        let suf = entries.skip(k);
        assert(suf[0] == entries[k]);
        assert(suf.drop_first() =~= entries.skip(k + 1));
        assert(entries[k].path == old[k].path);
        lemma_find_unique(old, k);
        assert(find_track(old, entries[k].path) == Some(old[k]));
        assert(spec_plan_one(entries[k], old, audio, playlist, video, video_ok) == Some(
            ScanItemView::Ready(old[k]),
        ));
        lemma_noop_scan_suffix(entries, old, audio, playlist, video, video_ok, k + 1);
        assert(old.skip(k).map_values(|t: TrackView| ScanItemView::Ready(t)) =~= seq![
            ScanItemView::Ready(old[k]),
        ] + old.skip(k + 1).map_values(|t: TrackView| ScanItemView::Ready(t)));
    }
}

/// A changed file is never reused: when the index holds a record for the path
/// but its size or mtime differs from what the walk now reports, the plan
/// requests a fresh probe for an audio or video file, carrying the new
/// metadata.
pub proof fn lemma_stale_reprobe(
    e: FileEntryView,
    old: Seq<TrackView>,
    audio: Seq<Seq<char>>,
    playlist: Seq<Seq<char>>,
    video: Seq<Seq<char>>,
    video_ok: bool,
)
    requires
        forall|i: int|
            0 <= i < old.len() && (#[trigger] old[i]).path == e.path ==> old[i].mtime != e.mtime
                || old[i].size != e.size,
        spec_classify_path(e.path, audio, playlist, video, video_ok) is Some,
        spec_classify_path(e.path, audio, playlist, video, video_ok) != Some(MediaType::Playlist),
    ensures
        spec_plan_one(e, old, audio, playlist, video, video_ok) == Some(
            ScanItemView::Probe(
                ProbeRequestView {
                    path: e.path,
                    mtime: e.mtime,
                    size: e.size,
                    media_type: spec_classify_path(
                        e.path,
                        audio,
                        playlist,
                        video,
                        video_ok,
                    )->Some_0,
                },
            ),
        ),
{
    if find_track(old, e.path) is Some {
        lemma_find_is_match(old, e.path);
    }
}

/// The track a finished probe yields: empty fields fall back to the file
/// stem for the title and to the UNKNOWN sentinel for the other tags.
pub open spec fn spec_finish(
    req: ProbeRequestView,
    title: Seq<char>,
    artist: Seq<char>,
    album: Seq<char>,
    genre: Seq<char>,
) -> TrackView {
    TrackView {
        path: req.path,
        title: if title.len() == 0 {
            stem_of(req.path)
        } else {
            title
        },
        artist: if artist.len() == 0 {
            unknown_word()
        } else {
            artist
        },
        album: if album.len() == 0 {
            unknown_word()
        } else {
            album
        },
        genre: if genre.len() == 0 {
            unknown_word()
        } else {
            genre
        },
        mtime: req.mtime,
        size: req.size,
        media_type: req.media_type,
    }
}

/// Build the track for a probed file. A failed or empty probe hands in
/// `None`, which acts exactly like four empty fields.
pub fn finish_probe(req: ProbeRequest, tags: Option<TagData>) -> (r: Track)
    ensures
        r@ == match tags {
            Some(g) => spec_finish(req@, g.title@, g.artist@, g.album@, g.genre@),
            None => spec_finish(
                req@,
                Seq::<char>::empty(),
                Seq::<char>::empty(),
                Seq::<char>::empty(),
                Seq::<char>::empty(),
            ),
        },
{
    let g = match tags {
        Some(g) => g,
        None => TagData {
            title: String::new(),
            artist: String::new(),
            album: String::new(),
            genre: String::new(),
        },
    };
    let title = if g.title.as_str().unicode_len() == 0 {
        let (_, _, stem) = split_path(req.path.as_str());
        string_from_chars(&stem)
    } else {
        g.title
    };
    let artist = if g.artist.as_str().unicode_len() == 0 {
        string_from_chars(&word_unknown())
    } else {
        g.artist
    };
    let album = if g.album.as_str().unicode_len() == 0 {
        string_from_chars(&word_unknown())
    } else {
        g.album
    };
    let genre = if g.genre.as_str().unicode_len() == 0 {
        string_from_chars(&word_unknown())
    } else {
        g.genre
    };
    Track {
        path: req.path,
        title,
        artist,
        album,
        genre,
        mtime: req.mtime,
        size: req.size,
        media_type: req.media_type,
    }
}

} // verus!
