//! Interactive browsing support: grouping tracks by tag value or by parent
//! directory, selecting tracks back out of a picked group, and summarizing a
//! playlist file's entries.

use vstd::prelude::*;
use crate::track::{MediaType, Track, TrackView};
use crate::classify::views_of;
use crate::query::{field_of, TagField};
use crate::scan::unknown_word;
use crate::text::{contains_seq, is_blank, lower_of, split_by, split_chars};

verus! {

/// The value a track contributes to tag grouping: a blank tag counts as the
/// UNKNOWN sentinel.
pub open spec fn clean_tag(v: Seq<char>) -> Seq<char> {
    if is_blank(v) {
        unknown_word()
    } else {
        v
    }
}

/// The cleaned value of a track's tag field.
pub open spec fn clean_field(t: TrackView, f: TagField) -> Seq<char> {
    clean_tag(field_of(t, f))
}

/// How many tracks of the collection carry this cleaned value in the field.
pub open spec fn count_with_value(ts: Seq<TrackView>, f: TagField, v: Seq<char>) -> int
    decreases ts.len(),
{
    if ts.len() == 0 {
        0
    } else {
        count_with_value(ts.drop_last(), f, v) + if clean_field(ts.last(), f) == v {
            1int
        } else {
            0int
        }
    }
}

/// The first titles (up to ten) of the tracks carrying this cleaned value.
pub open spec fn samples_with_value(ts: Seq<TrackView>, f: TagField, v: Seq<char>) -> Seq<
    Seq<char>,
>
    decreases ts.len(),
{
    if ts.len() == 0 {
        Seq::empty()
    } else {
        let prev = samples_with_value(ts.drop_last(), f, v);
        if clean_field(ts.last(), f) == v && prev.len() < 10 {
            prev.push(ts.last().title)
        } else {
            prev
        }
    }
}

/// The distinct cleaned values of a field, first occurrence first.
pub open spec fn distinct_clean_vals(ts: Seq<TrackView>, f: TagField) -> Seq<Seq<char>>
    decreases ts.len(),
{
    if ts.len() == 0 {
        Seq::empty()
    } else {
        let prev = distinct_clean_vals(ts.drop_last(), f);
        if prev.contains(clean_field(ts.last(), f)) {
            prev
        } else {
            prev.push(clean_field(ts.last(), f))
        }
    }
}

/// One tag value's summary: the value, how many tracks carry it, and sample
/// titles for a preview.
pub struct TagGroup {
    pub value: String,
    pub count: usize,
    pub samples: Vec<String>,
}

fn clean_field_exec(t: &Track, f: TagField) -> (r: String)
    ensures
        r@ == clean_field(t@, f),
{
    let raw = match f {
        TagField::Genre => &t.genre,
        TagField::Artist => &t.artist,
        TagField::Album => &t.album,
    };
    let chars = crate::text::chars_of(raw.as_str());
    if crate::text::chars_blank(&chars) {
        let u = crate::text::chars_of("UNKNOWN");
        proof {
            reveal_strlit("UNKNOWN");
            assert(u@ =~= unknown_word());
        }
        crate::text::string_from_chars(&u)
    } else {
        raw.clone()
    }
}

fn count_value(ts: &Vec<Track>, f: TagField, v: &String) -> (r: usize)
    ensures
        r == count_with_value(ts@.map_values(|t: Track| t@), f, v@),
{
    let ghost tviews = ts@.map_values(|t: Track| t@);
    let mut n: usize = 0;
    let mut i: usize = 0;
    proof {
        assert(tviews.subrange(0, 0) =~= Seq::<TrackView>::empty());
    }
    while i < ts.len()
        invariant
            0 <= i <= ts.len(),
            tviews == ts@.map_values(|t: Track| t@),
            n == count_with_value(tviews.subrange(0, i as int), f, v@),
            n <= i,
        decreases ts.len() - i,
    {
        let cv = clean_field_exec(&ts[i], f);
        proof {
            let prev = tviews.subrange(0, i as int);
            let next = tviews.subrange(0, i + 1);
            assert(next =~= prev.push(tviews[i as int]));
            assert(next.drop_last() =~= prev);
            assert(next.last() == tviews[i as int]);
        }
        if cv.eq(v) {
            n += 1;
        }
        i += 1;
    }
    proof {
        assert(tviews.subrange(0, ts.len() as int) =~= tviews);
    }
    n
}

fn samples_for_value(ts: &Vec<Track>, f: TagField, v: &String) -> (r: Vec<String>)
    ensures
        views_of(r@) == samples_with_value(ts@.map_values(|t: Track| t@), f, v@),
{
    let ghost tviews = ts@.map_values(|t: Track| t@);
    let mut out: Vec<String> = Vec::new();
    let mut i: usize = 0;
    proof {
        assert(tviews.subrange(0, 0) =~= Seq::<TrackView>::empty());
        assert(views_of(out@) =~= samples_with_value(tviews.subrange(0, 0), f, v@));
    }
    while i < ts.len()
        invariant
            0 <= i <= ts.len(),
            tviews == ts@.map_values(|t: Track| t@),
            views_of(out@) == samples_with_value(tviews.subrange(0, i as int), f, v@),
        decreases ts.len() - i,
    {
        let cv = clean_field_exec(&ts[i], f);
        proof {
            let prev = tviews.subrange(0, i as int);
            let next = tviews.subrange(0, i + 1);
            assert(next =~= prev.push(tviews[i as int]));
            assert(next.drop_last() =~= prev);
            assert(next.last() == tviews[i as int]);
        }
        if cv.eq(v) && out.len() < 10 {
            let s = ts[i].title.clone();
            proof {
                assert(views_of(out@.push(s)) =~= views_of(out@).push(s@));
            }
            out.push(s);
        }
        i += 1;
    }
    proof {
        assert(tviews.subrange(0, ts.len() as int) =~= tviews);
    }
    out
}

fn distinct_clean_values(ts: &Vec<Track>, f: TagField) -> (r: Vec<String>)
    ensures
        views_of(r@) == distinct_clean_vals(ts@.map_values(|t: Track| t@), f),
{
    let ghost tviews = ts@.map_values(|t: Track| t@);
    let mut out: Vec<String> = Vec::new();
    let mut i: usize = 0;
    proof {
        assert(tviews.subrange(0, 0) =~= Seq::<TrackView>::empty());
        assert(views_of(out@) =~= distinct_clean_vals(tviews.subrange(0, 0), f));
    }
    while i < ts.len()
        invariant
            0 <= i <= ts.len(),
            tviews == ts@.map_values(|t: Track| t@),
            views_of(out@) == distinct_clean_vals(tviews.subrange(0, i as int), f),
        decreases ts.len() - i,
    {
        let cv = clean_field_exec(&ts[i], f);
        proof {
            let prev = tviews.subrange(0, i as int);
            let next = tviews.subrange(0, i + 1);
            assert(next =~= prev.push(tviews[i as int]));
            assert(next.drop_last() =~= prev);
            assert(next.last() == tviews[i as int]);
        }
        let mut seen = false;
        let mut j: usize = 0;
        while j < out.len()
            invariant
                0 <= j <= out.len(),
                seen == exists|k: int| 0 <= k < j && views_of(out@)[k] == cv@,
            decreases out.len() - j,
        {
            if cv.eq(&out[j]) {
                proof {
                    assert(views_of(out@)[j as int] == cv@);
                }
                seen = true;
            }
            j += 1;
        }
        proof {
            if seen {
                let w = choose|k: int| 0 <= k < out@.len() && views_of(out@)[k] == cv@;
                assert(views_of(out@).contains(cv@));
            }
            if views_of(out@).contains(cv@) {
                let w = choose|k: int|
                    0 <= k < views_of(out@).len() && views_of(out@)[k] == cv@;
                assert(views_of(out@)[w] == cv@);
            }
        }
        if !seen {
            proof {
                assert(views_of(out@.push(cv)) =~= views_of(out@).push(cv@));
            }
            out.push(cv);
        }
        i += 1;
    }
    proof {
        assert(tviews.subrange(0, ts.len() as int) =~= tviews);
    }
    out
}

/// Summarize a tag field across the collection: one group per distinct
/// cleaned value, in first-occurrence order, with its track count and up to
/// ten sample titles.
pub fn tag_summary(ts: &Vec<Track>, f: TagField) -> (r: Vec<TagGroup>)
    ensures
        ({
            let tviews = ts@.map_values(|t: Track| t@);
            let vals = distinct_clean_vals(tviews, f);
            &&& r@.len() == vals.len()
            &&& forall|k: int|
                0 <= k < r@.len() ==> (#[trigger] r@[k]).value@ == vals[k] && r@[k].count
                    == count_with_value(tviews, f, vals[k]) && views_of(r@[k].samples@)
                    == samples_with_value(tviews, f, vals[k])
        }),
{
    let ghost tviews = ts@.map_values(|t: Track| t@);
    let vals = distinct_clean_values(ts, f);
    let mut out: Vec<TagGroup> = Vec::new();
    let mut i: usize = 0;
    while i < vals.len()
        invariant
            0 <= i <= vals.len(),
            tviews == ts@.map_values(|t: Track| t@),
            views_of(vals@) == distinct_clean_vals(tviews, f),
            out@.len() == i,
            forall|k: int|
                0 <= k < i ==> (#[trigger] out@[k]).value@ == views_of(vals@)[k] && out@[k].count
                    == count_with_value(tviews, f, views_of(vals@)[k]) && views_of(
                    out@[k].samples@,
                ) == samples_with_value(tviews, f, views_of(vals@)[k]),
        decreases vals.len() - i,
    {
        let v = vals[i].clone();
        let count = count_value(ts, f, &v);
        let samples = samples_for_value(ts, f, &v);
        out.push(TagGroup { value: v, count, samples });
        i += 1;
    }
    out
}

/// The tracks whose cleaned value in the field is one of the selected
/// values, in collection order.
pub fn filter_by_tag_values(ts: &Vec<Track>, f: TagField, selected: &Vec<String>) -> (r: Vec<
    Track,
>)
    ensures
        r@.map_values(|t: Track| t@) == ts@.map_values(|t: Track| t@).filter(
            |t: TrackView| views_of(selected@).contains(clean_field(t, f)),
        ),
{
    let ghost tviews = ts@.map_values(|t: Track| t@);
    let ghost pred = |t: TrackView| views_of(selected@).contains(clean_field(t, f));
    let mut out: Vec<Track> = Vec::new();
    let mut i: usize = 0;
    proof {
        reveal(Seq::filter);
        assert(tviews.subrange(0, 0) =~= Seq::<TrackView>::empty());
        assert(out@.map_values(|t: Track| t@) =~= tviews.subrange(0, 0).filter(pred));
    }
    while i < ts.len()
        invariant
            0 <= i <= ts.len(),
            tviews == ts@.map_values(|t: Track| t@),
            pred == (|t: TrackView| views_of(selected@).contains(clean_field(t, f))),
            out@.map_values(|t: Track| t@) == tviews.subrange(0, i as int).filter(pred),
        decreases ts.len() - i,
    {
        proof {
            let prev = tviews.subrange(0, i as int);
            let next = tviews.subrange(0, i + 1);
            assert(next =~= prev.push(tviews[i as int]));
            reveal(Seq::filter);
            assert(next.drop_last() =~= prev);
            assert(next.filter(pred) == if pred(tviews[i as int]) {
                prev.filter(pred).push(tviews[i as int])
            } else {
                prev.filter(pred)
            });
        }
        let cv = clean_field_exec(&ts[i], f);
        let mut hit = false;
        let mut j: usize = 0;
        while j < selected.len()
            invariant
                0 <= j <= selected.len(),
                hit == exists|k: int| 0 <= k < j && views_of(selected@)[k] == cv@,
            decreases selected.len() - j,
        {
            if cv.eq(&selected[j]) {
                proof {
                    assert(views_of(selected@)[j as int] == cv@);
                }
                hit = true;
            }
            j += 1;
        }
        proof {
            if hit {
                let w = choose|k: int|
                    0 <= k < selected@.len() && views_of(selected@)[k] == cv@;
                assert(views_of(selected@).contains(cv@));
            }
            if views_of(selected@).contains(cv@) {
                let w = choose|k: int|
                    0 <= k < views_of(selected@).len() && views_of(selected@)[k] == cv@;
                assert(views_of(selected@)[w] == cv@);
            }
        }
        if hit {
            let t = ts[i].duplicate();
            proof {
                assert((out@.push(t)).map_values(|x: Track| x@) =~= out@.map_values(
                    |x: Track| x@,
                ).push(t@));
            }
            out.push(t);
        }
        i += 1;
    }
    proof {
        assert(tviews.subrange(0, ts.len() as int) =~= tviews);
    }
    out
}

/// Whether `pre` is a prefix of `s`.
pub open spec fn starts_with(s: Seq<char>, pre: Seq<char>) -> bool {
    pre.len() <= s.len() && s.take(pre.len() as int) == pre
}

pub fn starts_with_chars(s: &Vec<char>, pre: &Vec<char>) -> (r: bool)
    ensures
        r == starts_with(s@, pre@),
{
    if pre.len() > s.len() {
        return false;
    }
    let mut i: usize = 0;
    while i < pre.len()
        invariant
            0 <= i <= pre.len() <= s.len(),
            forall|j: int| 0 <= j < i ==> s@[j] == pre@[j],
        decreases pre.len() - i,
    {
        if s[i] != pre[i] {
            proof {
                assert(s@.take(pre@.len() as int)[i as int] != pre@[i as int]);
            }
            return false;
        }
        i += 1;
    }
    proof {
        assert(s@.take(pre@.len() as int) =~= pre@);
    }
    true
}

/// The paths of the tracks lying under the picked directory prefix, in
/// collection order.
pub fn tracks_under(ts: &Vec<Track>, dir: &str) -> (r: Vec<String>)
    ensures
        views_of(r@) == ts@.map_values(|t: Track| t@.path).filter(
            |p: Seq<char>| starts_with(p, dir@),
        ),
{
    let ghost paths = ts@.map_values(|t: Track| t@.path);
    let ghost pred = |p: Seq<char>| starts_with(p, dir@);
    let dchars = crate::text::chars_of(dir);
    let mut out: Vec<String> = Vec::new();
    let mut i: usize = 0;
    proof {
        reveal(Seq::filter);
        assert(paths.subrange(0, 0) =~= Seq::<Seq<char>>::empty());
        assert(views_of(out@) =~= paths.subrange(0, 0).filter(pred));
    }
    while i < ts.len()
        invariant
            0 <= i <= ts.len(),
            paths == ts@.map_values(|t: Track| t@.path),
            pred == (|p: Seq<char>| starts_with(p, dir@)),
            dchars@ == dir@,
            views_of(out@) == paths.subrange(0, i as int).filter(pred),
        decreases ts.len() - i,
    {
        proof {
            let prev = paths.subrange(0, i as int);
            let next = paths.subrange(0, i + 1);
            assert(next =~= prev.push(paths[i as int]));
            reveal(Seq::filter);
            assert(next.drop_last() =~= prev);
            assert(next.filter(pred) == if pred(paths[i as int]) {
                prev.filter(pred).push(paths[i as int])
            } else {
                prev.filter(pred)
            });
        }
        let pchars = crate::text::chars_of(ts[i].path.as_str());
        if starts_with_chars(&pchars, &dchars) {
            let s = ts[i].path.clone();
            proof {
                assert(views_of(out@.push(s)) =~= views_of(out@).push(s@));
            }
            out.push(s);
        }
        i += 1;
    }
    proof {
        assert(paths.subrange(0, ts.len() as int) =~= paths);
    }
    out
}

/// The playlist tracks whose title contains the query, case-insensitively.
pub fn find_playlists(ts: &Vec<Track>, name: &str) -> (r: Vec<Track>)
    ensures
        r@.map_values(|t: Track| t@) == ts@.map_values(|t: Track| t@).filter(
            |t: TrackView| t.media_type == MediaType::Playlist && contains_seq(
                lower_of(t.title),
                lower_of(name@),
            ),
        ),
{
    let ghost tviews = ts@.map_values(|t: Track| t@);
    let ghost pred = |t: TrackView| t.media_type == MediaType::Playlist && contains_seq(
        lower_of(t.title),
        lower_of(name@),
    );
    let name_low = crate::text::to_lower(name);
    let needle = crate::text::chars_of(name_low.as_str());
    let mut out: Vec<Track> = Vec::new();
    let mut i: usize = 0;
    proof {
        reveal(Seq::filter);
        assert(tviews.subrange(0, 0) =~= Seq::<TrackView>::empty());
        assert(out@.map_values(|t: Track| t@) =~= tviews.subrange(0, 0).filter(pred));
    }
    while i < ts.len()
        invariant
            0 <= i <= ts.len(),
            tviews == ts@.map_values(|t: Track| t@),
            pred == (|t: TrackView| t.media_type == MediaType::Playlist && contains_seq(
                lower_of(t.title),
                lower_of(name@),
            )),
            needle@ == lower_of(name@),
            out@.map_values(|t: Track| t@) == tviews.subrange(0, i as int).filter(pred),
        decreases ts.len() - i,
    {
        proof {
            let prev = tviews.subrange(0, i as int);
            let next = tviews.subrange(0, i + 1);
            assert(next =~= prev.push(tviews[i as int]));
            reveal(Seq::filter);
            assert(next.drop_last() =~= prev);
            assert(next.filter(pred) == if pred(tviews[i as int]) {
                prev.filter(pred).push(tviews[i as int])
            } else {
                prev.filter(pred)
            });
        }
        let is_pl = matches!(ts[i].media_type, MediaType::Playlist);
        let hit = if is_pl {
            let tl = crate::text::to_lower(ts[i].title.as_str());
            let hay = crate::text::chars_of(tl.as_str());
            crate::text::chars_contain(&hay, &needle)
        } else {
            false
        };
        if hit {
            let t = ts[i].duplicate();
            proof {
                assert((out@.push(t)).map_values(|x: Track| x@) =~= out@.map_values(
                    |x: Track| x@,
                ).push(t@));
            }
            out.push(t);
        }
        i += 1;
    }
    proof {
        assert(tviews.subrange(0, ts.len() as int) =~= tviews);
    }
    out
}

/// The directory a track is grouped under: its path's parent, or empty for
/// a bare file name.
pub open spec fn dir_of(t: TrackView) -> Seq<char> {
    match crate::paths::parent_of(t.path) {
        Some(p) => p,
        None => Seq::empty(),
    }
}

/// How many tracks lie directly in the directory.
pub open spec fn count_in_dir(ts: Seq<TrackView>, d: Seq<char>) -> int
    decreases ts.len(),
{
    if ts.len() == 0 {
        0
    } else {
        count_in_dir(ts.drop_last(), d) + if dir_of(ts.last()) == d {
            1int
        } else {
            0int
        }
    }
}

/// The file names of the tracks lying directly in the directory, in order.
pub open spec fn files_in_dir(ts: Seq<TrackView>, d: Seq<char>) -> Seq<Seq<char>>
    decreases ts.len(),
{
    if ts.len() == 0 {
        Seq::empty()
    } else {
        let prev = files_in_dir(ts.drop_last(), d);
        if dir_of(ts.last()) == d {
            prev.push(crate::paths::file_name_of(ts.last().path))
        } else {
            prev
        }
    }
}

/// The distinct directories of the collection, first occurrence first.
pub open spec fn distinct_dirs(ts: Seq<TrackView>) -> Seq<Seq<char>>
    decreases ts.len(),
{
    if ts.len() == 0 {
        Seq::empty()
    } else {
        let prev = distinct_dirs(ts.drop_last());
        if prev.contains(dir_of(ts.last())) {
            prev
        } else {
            prev.push(dir_of(ts.last()))
        }
    }
}

/// One directory's summary: its path, its display name (the last path
/// component), and the names of the files it holds.
pub struct DirGroup {
    pub path: String,
    pub name: String,
    pub count: usize,
    pub files: Vec<String>,
}

fn dir_of_exec(t: &Track) -> (r: String)
    ensures
        r@ == dir_of(t@),
{
    match crate::paths::parent_dir(t.path.as_str()) {
        Some(p) => p,
        None => String::new(),
    }
}

fn count_dir(ts: &Vec<Track>, d: &String) -> (r: usize)
    ensures
        r == count_in_dir(ts@.map_values(|t: Track| t@), d@),
{
    let ghost tviews = ts@.map_values(|t: Track| t@);
    let mut n: usize = 0;
    let mut i: usize = 0;
    proof {
        assert(tviews.subrange(0, 0) =~= Seq::<TrackView>::empty());
    }
    while i < ts.len()
        invariant
            0 <= i <= ts.len(),
            tviews == ts@.map_values(|t: Track| t@),
            n == count_in_dir(tviews.subrange(0, i as int), d@),
            n <= i,
        decreases ts.len() - i,
    {
        let dv = dir_of_exec(&ts[i]);
        proof {
            let prev = tviews.subrange(0, i as int);
            let next = tviews.subrange(0, i + 1);
            assert(next =~= prev.push(tviews[i as int]));
            assert(next.drop_last() =~= prev);
            assert(next.last() == tviews[i as int]);
        }
        if dv.eq(d) {
            n += 1;
        }
        i += 1;
    }
    proof {
        assert(tviews.subrange(0, ts.len() as int) =~= tviews);
    }
    n
}

fn files_of_dir(ts: &Vec<Track>, d: &String) -> (r: Vec<String>)
    ensures
        views_of(r@) == files_in_dir(ts@.map_values(|t: Track| t@), d@),
{
    let ghost tviews = ts@.map_values(|t: Track| t@);
    let mut out: Vec<String> = Vec::new();
    let mut i: usize = 0;
    proof {
        assert(tviews.subrange(0, 0) =~= Seq::<TrackView>::empty());
        assert(views_of(out@) =~= files_in_dir(tviews.subrange(0, 0), d@));
    }
    while i < ts.len()
        invariant
            0 <= i <= ts.len(),
            tviews == ts@.map_values(|t: Track| t@),
            views_of(out@) == files_in_dir(tviews.subrange(0, i as int), d@),
        decreases ts.len() - i,
    {
        let dv = dir_of_exec(&ts[i]);
        proof {
            let prev = tviews.subrange(0, i as int);
            let next = tviews.subrange(0, i + 1);
            assert(next =~= prev.push(tviews[i as int]));
            assert(next.drop_last() =~= prev);
            assert(next.last() == tviews[i as int]);
        }
        if dv.eq(d) {
            let nm = crate::paths::file_name(ts[i].path.as_str());
            proof {
                assert(views_of(out@.push(nm)) =~= views_of(out@).push(nm@));
            }
            out.push(nm);
        }
        i += 1;
    }
    proof {
        assert(tviews.subrange(0, ts.len() as int) =~= tviews);
    }
    out
}

/// Group the collection by parent directory: one group per distinct
/// directory, in first-occurrence order, with the file names it holds.
pub fn dir_summary(ts: &Vec<Track>) -> (r: Vec<DirGroup>)
    ensures
        ({
            let tviews = ts@.map_values(|t: Track| t@);
            let dirs = distinct_dirs(tviews);
            &&& r@.len() == dirs.len()
            &&& forall|k: int|
                0 <= k < r@.len() ==> (#[trigger] r@[k]).path@ == dirs[k] && r@[k].name@
                    == crate::paths::file_name_of(dirs[k]) && r@[k].count == count_in_dir(
                    tviews,
                    dirs[k],
                ) && views_of(r@[k].files@) == files_in_dir(tviews, dirs[k])
        }),
{
    let ghost tviews = ts@.map_values(|t: Track| t@);
    let mut dirs: Vec<String> = Vec::new();
    let mut i: usize = 0;
    proof {
        assert(tviews.subrange(0, 0) =~= Seq::<TrackView>::empty());
        assert(views_of(dirs@) =~= distinct_dirs(tviews.subrange(0, 0)));
    }
    while i < ts.len()
        invariant
            0 <= i <= ts.len(),
            tviews == ts@.map_values(|t: Track| t@),
            views_of(dirs@) == distinct_dirs(tviews.subrange(0, i as int)),
        decreases ts.len() - i,
    {
        let dv = dir_of_exec(&ts[i]);
        proof {
            let prev = tviews.subrange(0, i as int);
            let next = tviews.subrange(0, i + 1);
            assert(next =~= prev.push(tviews[i as int]));
            assert(next.drop_last() =~= prev);
            assert(next.last() == tviews[i as int]);
        }
        let mut seen = false;
        let mut j: usize = 0;
        while j < dirs.len()
            invariant
                0 <= j <= dirs.len(),
                seen == exists|k: int| 0 <= k < j && views_of(dirs@)[k] == dv@,
            decreases dirs.len() - j,
        {
            if dv.eq(&dirs[j]) {
                proof {
                    assert(views_of(dirs@)[j as int] == dv@);
                }
                seen = true;
            }
            j += 1;
        }
        proof {
            if seen {
                let w = choose|k: int| 0 <= k < dirs@.len() && views_of(dirs@)[k] == dv@;
                assert(views_of(dirs@).contains(dv@));
            }
            if views_of(dirs@).contains(dv@) {
                let w = choose|k: int|
                    0 <= k < views_of(dirs@).len() && views_of(dirs@)[k] == dv@;
                assert(views_of(dirs@)[w] == dv@);
            }
        }
        if !seen {
            proof {
                assert(views_of(dirs@.push(dv)) =~= views_of(dirs@).push(dv@));
            }
            dirs.push(dv);
        }
        i += 1;
    }
    proof {
        assert(tviews.subrange(0, ts.len() as int) =~= tviews);
    }
    let mut out: Vec<DirGroup> = Vec::new();
    let mut k: usize = 0;
    while k < dirs.len()
        invariant
            0 <= k <= dirs.len(),
            tviews == ts@.map_values(|t: Track| t@),
            views_of(dirs@) == distinct_dirs(tviews),
            out@.len() == k,
            forall|m: int|
                0 <= m < k ==> (#[trigger] out@[m]).path@ == views_of(dirs@)[m] && out@[m].name@
                    == crate::paths::file_name_of(views_of(dirs@)[m]) && out@[m].count
                    == count_in_dir(tviews, views_of(dirs@)[m]) && views_of(out@[m].files@)
                    == files_in_dir(tviews, views_of(dirs@)[m]),
        decreases dirs.len() - k,
    {
        let d = dirs[k].clone();
        let name = crate::paths::file_name(d.as_str());
        let count = count_dir(ts, &d);
        let files = files_of_dir(ts, &d);
        out.push(DirGroup { path: d, name, count, files });
        k += 1;
    }
    out
}

/// Whether a playlist line counts: not a comment and not blank, after any
/// carriage return is stripped.
pub open spec fn playlist_line_keeps(l: Seq<char>) -> bool {
    !(l.len() > 0 && l[0] == '#') && !is_blank(l)
}

/// The entries of a playlist file's text: its non-comment, non-blank lines.
pub open spec fn playlist_entries(text: Seq<char>) -> Seq<Seq<char>> {
    split_by(text, crate::store::nl_pred()).map_values(
        |l: Seq<char>| crate::store::strip_cr(l),
    ).filter(|l: Seq<char>| playlist_line_keeps(l))
}

/// Count a playlist's entries and keep the first few for a preview.
pub fn playlist_preview(text: &str, keep: usize) -> (r: (usize, Vec<String>))
    ensures
        r.0 == playlist_entries(text@).len(),
        ({
            let entries = playlist_entries(text@);
            views_of(r.1@) == if entries.len() <= keep {
                entries
            } else {
                entries.take(keep as int)
            }
        }),
{
    let chars = crate::text::chars_of(text);
    let mut seps: Vec<char> = Vec::new();
    seps.push('\n');
    let pieces = split_chars(&chars, &seps);
    proof {
        let sep_fn = |c: char| seps@.contains(c);
        assert(seps@ =~= seq!['\n']);
        assert forall|c: char| #[trigger] sep_fn(c) == crate::store::nl_pred()(c) by {
            if seps@.contains(c) {
                let w = choose|i: int| 0 <= i < seps@.len() && seps@[i] == c;
                assert(seps@[w] == c);
            }
            if c == '\n' {
                assert(seps@[0] == c);
                assert(seps@.contains(c));
            }
        }
        assert(sep_fn =~= crate::store::nl_pred());
    }
    let ghost pviews = pieces@.map_values(|p: Vec<char>| p@);
    let ghost stripper = |l: Seq<char>| crate::store::strip_cr(l);
    let ghost keeper = |l: Seq<char>| playlist_line_keeps(l);
    let mut count: usize = 0;
    let mut samples: Vec<String> = Vec::new();
    let mut i: usize = 0;
    proof {
        reveal(Seq::filter);
        assert(pviews.subrange(0, 0) =~= Seq::<Seq<char>>::empty());
        assert(pviews.subrange(0, 0).map_values(stripper).filter(keeper)
            =~= Seq::<Seq<char>>::empty());
        assert(views_of(samples@) =~= Seq::<Seq<char>>::empty());
    }
    while i < pieces.len()
        invariant
            0 <= i <= pieces.len(),
            pviews == pieces@.map_values(|p: Vec<char>| p@),
            stripper == (|l: Seq<char>| crate::store::strip_cr(l)),
            keeper == (|l: Seq<char>| playlist_line_keeps(l)),
            count == pviews.subrange(0, i as int).map_values(stripper).filter(keeper).len(),
            count <= i,
            views_of(samples@) == ({
                let valid = pviews.subrange(0, i as int).map_values(stripper).filter(keeper);
                if valid.len() <= keep {
                    valid
                } else {
                    valid.take(keep as int)
                }
            }),
        decreases pieces.len() - i,
    {
        proof {
            let prev = pviews.subrange(0, i as int).map_values(stripper);
            let next = pviews.subrange(0, i + 1).map_values(stripper);
            assert(pviews.subrange(0, i + 1) =~= pviews.subrange(0, i as int).push(
                pviews[i as int],
            ));
            assert(next =~= prev.push(stripper(pviews[i as int])));
            reveal(Seq::filter);
            assert(next.drop_last() =~= prev);
            assert(next.filter(keeper) == if keeper(stripper(pviews[i as int])) {
                prev.filter(keeper).push(stripper(pviews[i as int]))
            } else {
                prev.filter(keeper)
            });
            assert(pviews[i as int] == pieces@[i as int]@);
        }
        let piece = &pieces[i];
        let plen: usize = if piece.len() > 0 && piece[piece.len() - 1] == '\r' {
            piece.len() - 1
        } else {
            piece.len()
        };
        let line = crate::text::prefix_chars(piece, plen);
        proof {
            if pviews[i as int].len() > 0 && pviews[i as int][pviews[i as int].len() - 1]
                == '\r' {
                assert(line@ =~= pviews[i as int].drop_last());
            } else {
                assert(line@ =~= pviews[i as int]);
            }
            assert(line@ == crate::store::strip_cr(pviews[i as int]));
        }
        let is_comment = line.len() > 0 && line[0] == '#';
        if !is_comment && !crate::text::chars_blank(&line) {
            count += 1;
            if samples.len() < keep {
                let s = crate::text::string_from_chars(&line);
                proof {
                    assert(views_of(samples@.push(s)) =~= views_of(samples@).push(s@));
                    let prev_valid = pviews.subrange(0, i as int).map_values(stripper).filter(
                        keeper,
                    );
                    let next_valid = pviews.subrange(0, i + 1).map_values(stripper).filter(
                        keeper,
                    );
                    if next_valid.len() > keep {
                        assert(next_valid.take(keep as int) =~= prev_valid.take(keep as int));
                    } else if next_valid.len() == prev_valid.len() + 1 && prev_valid.len() > keep {
                        assert(false);
                    }
                }
                samples.push(s);
            } else {
                proof {
                    let prev_valid = pviews.subrange(0, i as int).map_values(stripper).filter(
                        keeper,
                    );
                    let next_valid = pviews.subrange(0, i + 1).map_values(stripper).filter(
                        keeper,
                    );
                    assert(next_valid.take(keep as int) =~= if prev_valid.len() <= keep {
                        prev_valid
                    } else {
                        prev_valid.take(keep as int)
                    });
                }
            }
        }
        i += 1;
    }
    proof {
        assert(pviews.subrange(0, pieces.len() as int) =~= pviews);
    }
    (count, samples)
}

} // verus!
