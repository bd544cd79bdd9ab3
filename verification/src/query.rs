//! Query resolution: up to four optional field filters (genre, artist,
//! album, title), each a comma-separated list of case-insensitive terms. An
//! exact pass compares terms against the field's `;`/`,`-separated sub-values
//! after trimming; a partial pass looks for substrings; the title filter is
//! always a substring filter. When a single-term query finds no exact match
//! and its partial matches span several values of the one active tag field,
//! resolution asks for clarification instead of guessing.

use vstd::prelude::*;
use crate::track::{Track, TrackView};
use crate::classify::views_of;
use crate::text::{chars_contain, chars_eq, chars_of, contains_seq, lower_of, split_by};
use crate::text::{split_chars, split_clean, split_clean_chars, string_from_chars, to_lower, trim};
use crate::text::trim_chars;

verus! {

/// One field filter: its terms, lowercased, trimmed and non-empty, and
/// whether the raw input held a comma (a multi-value filter skips the exact
/// pass).
pub struct FieldQuery {
    pub terms: Vec<String>,
    pub multi: bool,
}

/// The mathematical value of a `FieldQuery`.
pub ghost struct FieldQueryView {
    pub terms: Seq<Seq<char>>,
    pub multi: bool,
}

impl View for FieldQuery {
    type V = FieldQueryView;

    open spec fn view(&self) -> FieldQueryView {
        FieldQueryView { terms: views_of(self.terms@), multi: self.multi }
    }
}

/// A whole query: three tag-field filters and the always-partial title
/// filter, already lowercased.
pub struct Query {
    pub genre: Option<FieldQuery>,
    pub artist: Option<FieldQuery>,
    pub album: Option<FieldQuery>,
    pub title: Option<String>,
}

/// The mathematical value of a `Query`.
pub ghost struct QueryView {
    pub genre: Option<FieldQueryView>,
    pub artist: Option<FieldQueryView>,
    pub album: Option<FieldQueryView>,
    pub title: Option<Seq<char>>,
}

impl View for Query {
    type V = QueryView;

    open spec fn view(&self) -> QueryView {
        QueryView {
            genre: match self.genre {
                Some(ref f) => Some(f@),
                None => None,
            },
            artist: match self.artist {
                Some(ref f) => Some(f@),
                None => None,
            },
            album: match self.album {
                Some(ref f) => Some(f@),
                None => None,
            },
            title: match self.title {
                Some(ref t) => Some(t@),
                None => None,
            },
        }
    }
}

/// The term separator of a query input.
pub open spec fn comma_pred() -> spec_fn(char) -> bool {
    |c: char| c == ','
}

/// The sub-value separators of a tag field's text.
pub open spec fn subvalue_pred() -> spec_fn(char) -> bool {
    |c: char| c == ';' || c == ','
}

/// What a raw field filter prepares to: the input lowercased, split on
/// commas, trimmed, with empty terms dropped.
pub open spec fn spec_field_query(raw: Seq<char>) -> FieldQueryView {
    FieldQueryView { terms: split_clean(lower_of(raw), comma_pred()), multi: raw.contains(',') }
}

/// Prepare one raw field filter.
pub fn field_query(raw: &str) -> (r: FieldQuery)
    ensures
        r@ == spec_field_query(raw@),
{
    let raw_chars = chars_of(raw);
    let mut multi = false;
    let mut i: usize = 0;
    while i < raw_chars.len()
        invariant
            0 <= i <= raw_chars.len(),
            raw_chars@ == raw@,
            multi == exists|j: int| 0 <= j < i && raw@[j] == ',',
        decreases raw_chars.len() - i,
    {
        if raw_chars[i] == ',' {
            multi = true;
        }
        i += 1;
    }
    proof {
        if multi {
            let w = choose|j: int| 0 <= j < raw@.len() && raw@[j] == ',';
            assert(raw@.contains(','));
        }
        if raw@.contains(',') {
            let w = choose|j: int| 0 <= j < raw@.len() && raw@[j] == ',';
            assert(raw@[w] == ',');
        }
    }
    let low = to_lower(raw);
    let low_chars = chars_of(low.as_str());
    let mut seps: Vec<char> = Vec::new();
    seps.push(',');
    let pieces = split_clean_chars(&low_chars, &seps);
    proof {
        let sep_fn = |c: char| seps@.contains(c);
        assert(seps@ =~= seq![',']);
        assert forall|c: char| #[trigger] sep_fn(c) == comma_pred()(c) by {
            if seps@.contains(c) {
                let w = choose|i: int| 0 <= i < seps@.len() && seps@[i] == c;
                assert(seps@[w] == c);
            }
            if c == ',' {
                assert(seps@[0] == c);
                assert(seps@.contains(c));
            }
        }
        assert(sep_fn =~= comma_pred());
    }
    let mut terms: Vec<String> = Vec::new();
    let mut k: usize = 0;
    let ghost pviews = pieces@.map_values(|p: Vec<char>| p@);
    proof {
        assert(views_of(terms@) =~= pviews.subrange(0, 0));
    }
    while k < pieces.len()
        invariant
            0 <= k <= pieces.len(),
            pviews == pieces@.map_values(|p: Vec<char>| p@),
            views_of(terms@) == pviews.subrange(0, k as int),
        decreases pieces.len() - k,
    {
        let s = string_from_chars(&pieces[k]);
        proof {
            assert(views_of(terms@.push(s)) =~= views_of(terms@).push(s@));
            assert(pviews.subrange(0, k + 1) =~= pviews.subrange(0, k as int).push(
                pviews[k as int],
            ));
        }
        terms.push(s);
        k += 1;
    }
    proof {
        assert(pviews.subrange(0, pieces.len() as int) =~= pviews);
    }
    FieldQuery { terms, multi }
}

/// Whether a term equals, after trimming, one of the `;`/`,`-separated
/// sub-values of an already-lowercased field text.
pub open spec fn term_in_subvalues(field_low: Seq<char>, term: Seq<char>) -> bool {
    exists|i: int|
        0 <= i < split_by(field_low, subvalue_pred()).len() && trim(
            #[trigger] split_by(field_low, subvalue_pred())[i],
        ) == term
}

/// The exact pass on one field: some term hits some sub-value exactly.
pub open spec fn exact_field_match(field_low: Seq<char>, terms: Seq<Seq<char>>) -> bool {
    exists|j: int| 0 <= j < terms.len() && term_in_subvalues(field_low, #[trigger] terms[j])
}

/// The partial pass on one field: some term is a substring of the field's
/// whole lowercased text.
pub open spec fn partial_field_match(field_low: Seq<char>, terms: Seq<Seq<char>>) -> bool {
    exists|j: int| 0 <= j < terms.len() && contains_seq(field_low, #[trigger] terms[j])
}

/// One optional field filter against a raw field value.
pub open spec fn opt_field_match(
    field_raw: Seq<char>,
    f: Option<FieldQueryView>,
    exact: bool,
) -> bool {
    match f {
        None => true,
        Some(q) => if exact {
            exact_field_match(lower_of(field_raw), q.terms)
        } else {
            partial_field_match(lower_of(field_raw), q.terms)
        },
    }
}

/// The title filter: always a substring of the lowercased title.
pub open spec fn title_match(title_raw: Seq<char>, t: Option<Seq<char>>) -> bool {
    match t {
        None => true,
        Some(term) => contains_seq(lower_of(title_raw), term),
    }
}

/// Whether a track satisfies every active filter of a query, under the given
/// pass (filters are ANDed; terms within a filter are ORed).
pub open spec fn track_matches(t: TrackView, q: QueryView, exact: bool) -> bool {
    opt_field_match(t.genre, q.genre, exact) && opt_field_match(t.artist, q.artist, exact)
        && opt_field_match(t.album, q.album, exact) && title_match(t.title, q.title)
}

fn exact_match_exec(field_low: &Vec<char>, terms: &Vec<String>) -> (r: bool)
    ensures
        r == exact_field_match(field_low@, views_of(terms@)),
{
    let mut seps: Vec<char> = Vec::new();
    seps.push(';');
    seps.push(',');
    let pieces = split_chars(field_low, &seps);
    proof {
        let sep_fn = |c: char| seps@.contains(c);
        assert(seps@ =~= seq![';', ',']);
        assert forall|c: char| #[trigger] sep_fn(c) == subvalue_pred()(c) by {
            if seps@.contains(c) {
                let w = choose|i: int| 0 <= i < seps@.len() && seps@[i] == c;
                assert(seps@[w] == c);
            }
            if c == ';' {
                assert(seps@[0] == c);
                assert(seps@.contains(c));
            }
            if c == ',' {
                assert(seps@[1] == c);
                assert(seps@.contains(c));
            }
        }
        assert(sep_fn =~= subvalue_pred());
    }
    let ghost pviews = pieces@.map_values(|p: Vec<char>| p@);
    let mut j: usize = 0;
    while j < terms.len()
        invariant
            0 <= j <= terms.len(),
            pviews == split_by(field_low@, subvalue_pred()),
            pviews == pieces@.map_values(|p: Vec<char>| p@),
            forall|k: int|
                0 <= k < j ==> !term_in_subvalues(field_low@, views_of(terms@)[k]),
        decreases terms.len() - j,
    {
        let tc = chars_of(terms[j].as_str());
        let mut i: usize = 0;
        while i < pieces.len()
            invariant
                0 <= i <= pieces.len(),
                pviews == split_by(field_low@, subvalue_pred()),
                pviews == pieces@.map_values(|p: Vec<char>| p@),
                0 <= j < terms.len(),
                tc@ == views_of(terms@)[j as int],
                forall|k: int| 0 <= k < i ==> trim(pviews[k]) != tc@,
            decreases pieces.len() - i,
        {
            let sub = trim_chars(&pieces[i]);
            proof {
                assert(pviews[i as int] == pieces@[i as int]@);
            }
            if chars_eq(&sub, &tc) {
                proof {
                    assert(trim(pviews[i as int]) == tc@);
                    assert(term_in_subvalues(field_low@, views_of(terms@)[j as int]));
                }
                return true;
            }
            i += 1;
        }
        proof {
            if term_in_subvalues(field_low@, views_of(terms@)[j as int]) {
                let w = choose|i: int|
                    0 <= i < split_by(field_low@, subvalue_pred()).len() && trim(
                        #[trigger] split_by(field_low@, subvalue_pred())[i],
                    ) == views_of(terms@)[j as int];
                assert(trim(pviews[w]) == tc@);
            }
        }
        j += 1;
    }
    false
}

fn partial_match_exec(field_low: &Vec<char>, terms: &Vec<String>) -> (r: bool)
    ensures
        r == partial_field_match(field_low@, views_of(terms@)),
{
    let mut j: usize = 0;
    while j < terms.len()
        invariant
            0 <= j <= terms.len(),
            forall|k: int| 0 <= k < j ==> !contains_seq(field_low@, views_of(terms@)[k]),
        decreases terms.len() - j,
    {
        let tc = chars_of(terms[j].as_str());
        proof {
            assert(tc@ == views_of(terms@)[j as int]);
        }
        if chars_contain(field_low, &tc) {
            return true;
        }
        j += 1;
    }
    false
}

fn opt_field_match_exec(field_raw: &String, f: &Option<FieldQuery>, exact: bool) -> (r: bool)
    ensures
        r == opt_field_match(
            field_raw@,
            match f {
                Some(q) => Some(q@),
                None => None,
            },
            exact,
        ),
{
    match f {
        None => true,
        Some(q) => {
            let low = to_lower(field_raw.as_str());
            let low_chars = chars_of(low.as_str());
            if exact {
                exact_match_exec(&low_chars, &q.terms)
            } else {
                partial_match_exec(&low_chars, &q.terms)
            }
        },
    }
}

/// Whether a track satisfies a query under the given pass.
pub fn track_matches_exec(t: &Track, q: &Query, exact: bool) -> (r: bool)
    ensures
        r == track_matches(t@, q@, exact),
{
    let g = opt_field_match_exec(&t.genre, &q.genre, exact);
    let a = opt_field_match_exec(&t.artist, &q.artist, exact);
    let b = opt_field_match_exec(&t.album, &q.album, exact);
    let ti = match &q.title {
        None => true,
        Some(term) => {
            let low = to_lower(t.title.as_str());
            let low_chars = chars_of(low.as_str());
            let tc = chars_of(term.as_str());
            chars_contain(&low_chars, &tc)
        },
    };
    g && a && b && ti
}

/// The tracks of a collection that a query matches under the given pass, in
/// collection order.
pub open spec fn spec_filter(ts: Seq<TrackView>, q: QueryView, exact: bool) -> Seq<TrackView> {
    ts.filter(|t: TrackView| track_matches(t, q, exact))
}

/// Filter a track collection by a query.
pub fn filter_tracks(tracks: &Vec<Track>, q: &Query, exact: bool) -> (r: Vec<Track>)
    ensures
        r@.map_values(|t: Track| t@) == spec_filter(
            tracks@.map_values(|t: Track| t@),
            q@,
            exact,
        ),
{
    let ghost tviews = tracks@.map_values(|t: Track| t@);
    let ghost pred = |t: TrackView| track_matches(t, q@, exact);
    let mut out: Vec<Track> = Vec::new();
    let mut i: usize = 0;
    proof {
        reveal(Seq::filter);
        assert(tviews.subrange(0, 0) =~= Seq::<TrackView>::empty());
        assert(out@.map_values(|t: Track| t@) =~= tviews.subrange(0, 0).filter(pred));
    }
    while i < tracks.len()
        invariant
            0 <= i <= tracks.len(),
            tviews == tracks@.map_values(|t: Track| t@),
            pred == (|t: TrackView| track_matches(t, q@, exact)),
            out@.map_values(|t: Track| t@) == tviews.subrange(0, i as int).filter(pred),
        decreases tracks.len() - i,
    {
        proof {
            let prev = tviews.subrange(0, i as int);
            let next = tviews.subrange(0, i + 1);
            assert(next =~= prev.push(tviews[i as int]));
            reveal(Seq::filter);
            assert(next.drop_last() =~= prev);
            assert(next.filter(pred) == if pred(tviews[i as int]) {
                prev.filter(pred).push(tviews[i as int])
            } else {
                prev.filter(pred)
            });
        }
        if track_matches_exec(&tracks[i], q, exact) {
            let t = tracks[i].duplicate();
            proof {
                assert((out@.push(t)).map_values(|x: Track| x@) =~= out@.map_values(
                    |x: Track| x@,
                ).push(t@));
            }
            out.push(t);
        }
        i += 1;
    }
    proof {
        assert(tviews.subrange(0, tracks.len() as int) =~= tviews);
    }
    out
}

/// The three tag fields that can drive ambiguity clarification.
#[derive(Clone, Copy, Debug, PartialEq, Eq, Structural)]
pub enum TagField {
    Genre,
    Artist,
    Album,
}

/// The raw value a track carries in the given tag field.
pub open spec fn field_of(t: TrackView, f: TagField) -> Seq<char> {
    match f {
        TagField::Genre => t.genre,
        TagField::Artist => t.artist,
        TagField::Album => t.album,
    }
}

/// Whether any of the three tag filters is multi-valued, which skips the
/// exact pass and suppresses clarification.
pub open spec fn spec_multi(q: QueryView) -> bool {
    ||| match q.genre {
        Some(f) => f.multi,
        None => false,
    }
    ||| match q.artist {
        Some(f) => f.multi,
        None => false,
    }
    ||| match q.album {
        Some(f) => f.multi,
        None => false,
    }
}

/// The one tag field clarification would apply to: artist takes precedence,
/// then genre, then album; `None` when no tag filter is active.
pub open spec fn active_field(q: QueryView) -> Option<TagField> {
    if q.artist is Some {
        Some(TagField::Artist)
    } else if q.genre is Some {
        Some(TagField::Genre)
    } else if q.album is Some {
        Some(TagField::Album)
    } else {
        None
    }
}

/// The distinct raw values of a tag field across a match set, first
/// occurrence first.
pub open spec fn distinct_vals(ts: Seq<TrackView>, f: TagField) -> Seq<Seq<char>>
    decreases ts.len(),
{
    if ts.len() == 0 {
        Seq::empty()
    } else {
        let prev = distinct_vals(ts.drop_last(), f);
        if prev.contains(field_of(ts.last(), f)) {
            prev
        } else {
            prev.push(field_of(ts.last(), f))
        }
    }
}

/// What resolving a query yields: no match at all, a final match set, or a
/// request to clarify which value of the one active tag field was meant.
pub enum Resolution {
    NoMatch,
    Matched(Vec<Track>),
    NeedsChoice(TagField, Vec<String>),
}

/// The mathematical value of a `Resolution`.
pub ghost enum ResolutionView {
    NoMatch,
    Matched(Seq<TrackView>),
    NeedsChoice(TagField, Seq<Seq<char>>),
}

impl View for Resolution {
    type V = ResolutionView;

    open spec fn view(&self) -> ResolutionView {
        match self {
            Resolution::NoMatch => ResolutionView::NoMatch,
            Resolution::Matched(ts) => ResolutionView::Matched(ts@.map_values(|t: Track| t@)),
            Resolution::NeedsChoice(f, vs) => ResolutionView::NeedsChoice(*f, views_of(vs@)),
        }
    }
}

/// The two-pass resolution: the exact pass runs unless the query is
/// multi-valued, and its matches are final; otherwise the partial pass runs,
/// and when a single-term query's partial matches span more than one distinct
/// value of the active tag field, clarification is requested.
pub open spec fn spec_resolve(ts: Seq<TrackView>, q: QueryView) -> ResolutionView {
    let exact = if spec_multi(q) {
        Seq::<TrackView>::empty()
    } else {
        spec_filter(ts, q, true)
    };
    if exact.len() > 0 {
        ResolutionView::Matched(exact)
    } else {
        let parts = spec_filter(ts, q, false);
        if parts.len() == 0 {
            ResolutionView::NoMatch
        } else {
            match active_field(q) {
                None => ResolutionView::Matched(parts),
                Some(f) => {
                    let opts = distinct_vals(parts, f);
                    if opts.len() > 1 && !spec_multi(q) {
                        ResolutionView::NeedsChoice(f, opts)
                    } else {
                        ResolutionView::Matched(parts)
                    }
                },
            }
        }
    }
}

fn is_multi(q: &Query) -> (r: bool)
    ensures
        r == spec_multi(q@),
{
    let g = match &q.genre {
        Some(f) => f.multi,
        None => false,
    };
    let a = match &q.artist {
        Some(f) => f.multi,
        None => false,
    };
    let b = match &q.album {
        Some(f) => f.multi,
        None => false,
    };
    g || a || b
}

fn field_string(t: &Track, f: TagField) -> (r: String)
    ensures
        r@ == field_of(t@, f),
{
    match f {
        TagField::Genre => t.genre.clone(),
        TagField::Artist => t.artist.clone(),
        TagField::Album => t.album.clone(),
    }
}

fn string_list_has(vs: &Vec<String>, x: &String) -> (r: bool)
    ensures
        r == views_of(vs@).contains(x@),
{
    let mut i: usize = 0;
    while i < vs.len()
        invariant
            0 <= i <= vs.len(),
            forall|j: int| 0 <= j < i ==> views_of(vs@)[j] != x@,
        decreases vs.len() - i,
    {
        if x.eq(&vs[i]) {
            proof {
                assert(views_of(vs@)[i as int] == x@);
            }
            return true;
        }
        i += 1;
    }
    proof {
        if views_of(vs@).contains(x@) {
            let w = choose|j: int| 0 <= j < views_of(vs@).len() && views_of(vs@)[j] == x@;
            assert(views_of(vs@)[w] == x@);
        }
    }
    false
}

/// The distinct raw values of a tag field across a match set, first
/// occurrence first.
pub fn distinct_values(ts: &Vec<Track>, f: TagField) -> (r: Vec<String>)
    ensures
        views_of(r@) == distinct_vals(ts@.map_values(|t: Track| t@), f),
{
    let ghost tviews = ts@.map_values(|t: Track| t@);
    let mut out: Vec<String> = Vec::new();
    let mut i: usize = 0;
    proof {
        assert(tviews.subrange(0, 0) =~= Seq::<TrackView>::empty());
        assert(views_of(out@) =~= distinct_vals(tviews.subrange(0, 0), f));
    }
    while i < ts.len()
        invariant
            0 <= i <= ts.len(),
            tviews == ts@.map_values(|t: Track| t@),
            views_of(out@) == distinct_vals(tviews.subrange(0, i as int), f),
        decreases ts.len() - i,
    {
        let v = field_string(&ts[i], f);
        proof {
            let prev = tviews.subrange(0, i as int);
            let next = tviews.subrange(0, i + 1);
            assert(next =~= prev.push(tviews[i as int]));
            assert(next.drop_last() =~= prev);
            assert(next.last() == tviews[i as int]);
            assert(v@ == field_of(tviews[i as int], f));
        }
        if !string_list_has(&out, &v) {
            proof {
                assert(views_of(out@.push(v)) =~= views_of(out@).push(v@));
            }
            out.push(v);
        }
        i += 1;
    }
    proof {
        assert(tviews.subrange(0, ts.len() as int) =~= tviews);
    }
    out
}

/// Resolve a query against the whole collection: run the exact pass unless
/// multi-valued, fall back to the partial pass, and request clarification
/// when the partial set is ambiguous in the active tag field.
pub fn resolve_query(tracks: &Vec<Track>, q: &Query) -> (r: Resolution)
    ensures
        r@ == spec_resolve(tracks@.map_values(|t: Track| t@), q@),
{
    let multi = is_multi(q);
    let exact = if multi {
        Vec::new()
    } else {
        filter_tracks(tracks, q, true)
    };
    proof {
        if multi {
            assert(exact@.map_values(|t: Track| t@) =~= Seq::<TrackView>::empty());
        }
    }
    if exact.len() > 0 {
        return Resolution::Matched(exact);
    }
    let parts = filter_tracks(tracks, q, false);
    if parts.len() == 0 {
        proof {
            assert(parts@.map_values(|t: Track| t@) =~= Seq::<TrackView>::empty());
        }
        return Resolution::NoMatch;
    }
    let active = if q.artist.is_some() {
        Some(TagField::Artist)
    } else if q.genre.is_some() {
        Some(TagField::Genre)
    } else if q.album.is_some() {
        Some(TagField::Album)
    } else {
        None
    };
    match active {
        None => Resolution::Matched(parts),
        Some(f) => {
            let opts = distinct_values(&parts, f);
            if opts.len() > 1 && !multi {
                Resolution::NeedsChoice(f, opts)
            } else {
                Resolution::Matched(parts)
            }
        },
    }
}

fn dup_strings(v: &Vec<String>) -> (r: Vec<String>)
    ensures
        views_of(r@) == views_of(v@),
{
    let mut out: Vec<String> = Vec::new();
    let mut i: usize = 0;
    proof {
        assert(views_of(out@) =~= views_of(v@).subrange(0, 0));
    }
    while i < v.len()
        invariant
            0 <= i <= v.len(),
            views_of(out@) == views_of(v@).subrange(0, i as int),
        decreases v.len() - i,
    {
        let s = v[i].clone();
        proof {
            assert(views_of(out@.push(s)) =~= views_of(out@).push(s@));
            assert(views_of(v@).subrange(0, i + 1) =~= views_of(v@).subrange(0, i as int).push(
                views_of(v@)[i as int],
            ));
        }
        out.push(s);
        i += 1;
    }
    proof {
        assert(views_of(v@).subrange(0, v.len() as int) =~= views_of(v@));
    }
    out
}

impl FieldQuery {
    /// A field-for-field copy.
    pub fn duplicate(&self) -> (r: FieldQuery)
        ensures
            r@ == self@,
    {
        FieldQuery { terms: dup_strings(&self.terms), multi: self.multi }
    }
}

/// The query with one tag field's filter replaced.
pub open spec fn with_field(q: QueryView, f: TagField, fq: FieldQueryView) -> QueryView {
    match f {
        TagField::Genre => QueryView { genre: Some(fq), ..q },
        TagField::Artist => QueryView { artist: Some(fq), ..q },
        TagField::Album => QueryView { album: Some(fq), ..q },
    }
}

/// Re-resolve after clarification: the chosen value replaces the active
/// field's filter, prepared like any raw input, and the exact pass runs.
pub fn resolve_with_choice(tracks: &Vec<Track>, q: &Query, f: TagField, choice: &str) -> (r: Vec<
    Track,
>)
    ensures
        r@.map_values(|t: Track| t@) == spec_filter(
            tracks@.map_values(|t: Track| t@),
            with_field(q@, f, spec_field_query(choice@)),
            true,
        ),
{
    let fq = field_query(choice);
    let genre = match &q.genre {
        Some(x) => Some(x.duplicate()),
        None => None,
    };
    let artist = match &q.artist {
        Some(x) => Some(x.duplicate()),
        None => None,
    };
    let album = match &q.album {
        Some(x) => Some(x.duplicate()),
        None => None,
    };
    let title = match &q.title {
        Some(x) => Some(x.clone()),
        None => None,
    };
    let q2 = match f {
        TagField::Genre => Query { genre: Some(fq), artist, album, title },
        TagField::Artist => Query { genre, artist: Some(fq), album, title },
        TagField::Album => Query { genre, artist, album: Some(fq), title },
    };
    proof {
        assert(q2@ == with_field(q@, f, spec_field_query(choice@)));
    }
    filter_tracks(tracks, &q2, true)
}

/// The terminal shape of a match set: nothing, a single track to play
/// directly, or several tracks for the caller to narrow or play together.
pub enum Outcome {
    NoMatch,
    Single(Track),
    Many(Vec<Track>),
}

/// The mathematical value of an `Outcome`.
pub ghost enum OutcomeView {
    NoMatch,
    Single(TrackView),
    Many(Seq<TrackView>),
}

impl View for Outcome {
    type V = OutcomeView;

    open spec fn view(&self) -> OutcomeView {
        match self {
            Outcome::NoMatch => OutcomeView::NoMatch,
            Outcome::Single(t) => OutcomeView::Single(t@),
            Outcome::Many(ts) => OutcomeView::Many(ts@.map_values(|t: Track| t@)),
        }
    }
}

/// What a match set terminates as.
pub open spec fn spec_outcome(ts: Seq<TrackView>) -> OutcomeView {
    if ts.len() == 0 {
        OutcomeView::NoMatch
    } else if ts.len() == 1 {
        OutcomeView::Single(ts[0])
    } else {
        OutcomeView::Many(ts)
    }
}

/// Classify a match set: empty, a single direct hit, or a set to hand back.
pub fn outcome_of(matches: Vec<Track>) -> (r: Outcome)
    ensures
        r@ == spec_outcome(matches@.map_values(|t: Track| t@)),
{
    if matches.len() == 0 {
        Outcome::NoMatch
    } else if matches.len() == 1 {
        let mut m = matches;
        match m.pop() {
            Some(t) => Outcome::Single(t),
            None => Outcome::NoMatch,
        }
    } else {
        Outcome::Many(matches)
    }
}

} // verus!
