//! The persisted index: one record line per track, newline-delimited.
//! Loading skips blank lines, drops lines that do not parse, and reports
//! whether any line was dropped so the caller can rewrite a clean file.

use vstd::prelude::*;
use crate::track::{Track, TrackView};
use crate::codec::{json_of_track, lemma_json_line_shape, lemma_track_round_trip, no_nl};
use crate::codec::{p_track, parse_track, serialize_track};
use crate::text::{chars_of, is_blank, is_white, split_by, string_from_chars};
use crate::text::{chars_blank, lemma_head_nonwhite_nonblank, lemma_split_by_piece, split_chars};
use crate::text::lemma_split_by_nonempty;

verus! {

/// Whether `c` ends a record line.
pub open spec fn is_nl(c: char) -> bool {
    c == '\n'
}

/// The whole persisted text for an index: each record line followed by a
/// newline.
pub open spec fn index_text(ts: Seq<TrackView>) -> Seq<char>
    decreases ts.len(),
{
    if ts.len() == 0 {
        Seq::empty()
    } else {
        json_of_track(ts[0]) + seq!['\n'] + index_text(ts.drop_first())
    }
}

/// A line with one trailing carriage return removed, as a line reader that
/// accepts CRLF endings would hand it over.
pub open spec fn strip_cr(l: Seq<char>) -> Seq<char> {
    if l.len() > 0 && l[l.len() - 1] == '\r' {
        l.drop_last()
    } else {
        l
    }
}

/// The tracks recovered from the given lines, and whether any non-blank line
/// failed to parse.
pub open spec fn load_lines(pieces: Seq<Seq<char>>) -> (Seq<TrackView>, bool)
    decreases pieces.len(),
{
    if pieces.len() == 0 {
        (Seq::empty(), false)
    } else {
        let l = strip_cr(pieces[0]);
        let rest = load_lines(pieces.drop_first());
        if is_blank(l) {
            rest
        } else {
            match p_track(l) {
                Some(t) => (seq![t] + rest.0, rest.1),
                None => (rest.0, true),
            }
        }
    }
}

/// The line separator, as a predicate on characters.
pub open spec fn nl_pred() -> spec_fn(char) -> bool {
    |c: char| is_nl(c)
}

/// What loading the given persisted text yields: the surviving tracks and the
/// repair flag.
pub open spec fn load_of_text(text: Seq<char>) -> (Seq<TrackView>, bool) {
    load_lines(split_by(text, nl_pred()))
}

/// The outcome of loading an index: the tracks that parsed, and whether any
/// malformed line was dropped, in which case the store should be rewritten
/// from the surviving tracks.
pub struct LoadResult {
    pub tracks: Vec<Track>,
    pub needs_repair: bool,
}

proof fn lemma_index_text_snoc(ts: Seq<TrackView>, t: TrackView)
    ensures
        index_text(ts.push(t)) == index_text(ts) + json_of_track(t) + seq!['\n'],
    decreases ts.len(),
{
    if ts.len() == 0 {
        assert(ts.push(t)[0] == t);
        assert(ts.push(t).drop_first() =~= Seq::<TrackView>::empty());
        assert(index_text(ts.push(t)) == json_of_track(t) + seq!['\n'] + index_text(
            Seq::empty(),
        ));
        assert(json_of_track(t) + seq!['\n'] + index_text(Seq::empty()) =~= index_text(ts)
            + json_of_track(t) + seq!['\n']);
    } else {
        assert(ts.push(t)[0] == ts[0]);
        assert(ts.push(t).drop_first() =~= ts.drop_first().push(t));
        lemma_index_text_snoc(ts.drop_first(), t);
        assert(index_text(ts.push(t)) =~= index_text(ts) + json_of_track(t) + seq!['\n']);
    }
}

/// The persisted text for a whole track collection.
pub fn serialize_index(tracks: &Vec<Track>) -> (r: String)
    ensures
        r@ == index_text(tracks@.map_values(|t: Track| t@)),
{
    let mut out: Vec<char> = Vec::new();
    let mut i: usize = 0;
    proof {
        assert(tracks@.subrange(0, 0).map_values(|t: Track| t@) =~= Seq::<TrackView>::empty());
        assert(out@ =~= index_text(tracks@.subrange(0, 0).map_values(|t: Track| t@)));
    }
    while i < tracks.len()
        invariant
            0 <= i <= tracks.len(),
            out@ == index_text(tracks@.subrange(0, i as int).map_values(|t: Track| t@)),
        decreases tracks.len() - i,
    {
        let line = serialize_track(&tracks[i]);
        let mut out2 = crate::codec::cat(out, &line);
        out2.push('\n');
        proof {
            let prev = tracks@.subrange(0, i as int).map_values(|t: Track| t@);
            let next = tracks@.subrange(0, i + 1).map_values(|t: Track| t@);
            assert(next =~= prev.push(tracks@[i as int]@));
            lemma_index_text_snoc(prev, tracks@[i as int]@);
            assert(out2@ =~= index_text(prev) + json_of_track(tracks@[i as int]@) + seq!['\n']);
        }
        out = out2;
        i += 1;
    }
    proof {
        assert(tracks@.subrange(0, tracks.len() as int) =~= tracks@);
    }
    string_from_chars(&out)
}

/// Load an index from its persisted text: blank lines are skipped, malformed
/// lines are dropped and flagged, surviving records come back in file order.
#[verifier::rlimit(100)]
pub fn parse_index(text: &str) -> (r: LoadResult)
    ensures
        r.tracks@.map_values(|t: Track| t@) == load_of_text(text@).0,
        r.needs_repair == load_of_text(text@).1,
{
    let chars = chars_of(text);
    let mut seps: Vec<char> = Vec::new();
    seps.push('\n');
    let pieces = split_chars(&chars, &seps);
    proof {
        let sep_fn = |c: char| seps@.contains(c);
        assert(seps@ =~= seq!['\n']);
        assert forall|c: char| #[trigger] sep_fn(c) == nl_pred()(c) by {
            if seps@.contains(c) {
                let w = choose|i: int| 0 <= i < seps@.len() && seps@[i] == c;
                assert(seps@[w] == c);
            }
            if is_nl(c) {
                assert(seps@[0] == c);
                assert(seps@.contains(c));
            }
        }
        assert(sep_fn =~= nl_pred());
        assert(split_by(chars@, sep_fn) == split_by(chars@, nl_pred()));
    }
    let ghost pviews = pieces@.map_values(|p: Vec<char>| p@);
    let mut out: Vec<Track> = Vec::new();
    let mut needs_repair = false;
    let mut i: usize = 0;
    proof {
        assert(pviews.skip(0) =~= pviews);
        assert(out@.map_values(|t: Track| t@) =~= Seq::<TrackView>::empty());
        assert(Seq::<TrackView>::empty() + load_lines(pviews).0 =~= load_lines(pviews).0);
    }
    while i < pieces.len()
        invariant
            0 <= i <= pieces.len(),
            pviews == pieces@.map_values(|p: Vec<char>| p@),
            load_lines(pviews).0 == out@.map_values(|t: Track| t@) + load_lines(
                pviews.skip(i as int),
            ).0,
            load_lines(pviews).1 == (needs_repair || load_lines(pviews.skip(i as int)).1),
        decreases pieces.len() - i,
    {
        let ghost rem = pviews.skip(i as int);
        proof {
            assert(rem[0] == pviews[i as int]);
            assert(pviews[i as int] == pieces@[i as int]@);
            assert(rem.drop_first() =~= pviews.skip(i + 1));
        }
        let piece = &pieces[i];
        let keep: usize = if piece.len() > 0 && piece[piece.len() - 1] == '\r' {
            piece.len() - 1
        } else {
            piece.len()
        };
        let line = crate::text::prefix_chars(piece, keep);
        proof {
            if pviews[i as int].len() > 0 && pviews[i as int][pviews[i as int].len() - 1] == '\r' {
                assert(line@ =~= pviews[i as int].drop_last());
            } else {
                assert(line@ =~= pviews[i as int]);
            }
            assert(line@ == strip_cr(pviews[i as int]));
        }
        if chars_blank(&line) {
        } else {
            match parse_track(&line) {
                Some(t) => {
                    proof {
                        let prev = out@.map_values(|t: Track| t@);
                        assert((out@.push(t)).map_values(|t: Track| t@) =~= prev.push(t@));
                        assert(prev.push(t@) + load_lines(pviews.skip(i + 1)).0 =~= prev + (seq![
                            t@,
                        ] + load_lines(pviews.skip(i + 1)).0));
                    }
                    out.push(t);
                },
                None => {
                    needs_repair = true;
                },
            }
        }
        i += 1;
    }
    proof {
        assert(pviews.skip(pieces.len() as int) =~= Seq::<Seq<char>>::empty());
        assert(out@.map_values(|t: Track| t@) + Seq::<TrackView>::empty() =~= out@.map_values(
            |t: Track| t@,
        ));
    }
    LoadResult { tracks: out, needs_repair }
}

/// Saving then loading is the identity: the persisted text for any track
/// collection loads back to exactly those tracks, in order, with no repair
/// flagged.
#[verifier::rlimit(100)]
pub proof fn lemma_index_round_trip(ts: Seq<TrackView>)
    ensures
        load_of_text(index_text(ts)) == (ts, false),
    decreases ts.len(),
{
    if ts.len() == 0 {
        assert(index_text(ts) == Seq::<char>::empty());
        let pieces = split_by(Seq::<char>::empty(), nl_pred());
        assert(pieces == seq![Seq::<char>::empty()]);
        assert(pieces[0] == Seq::<char>::empty());
        assert(strip_cr(Seq::<char>::empty()) == Seq::<char>::empty());
        assert(crate::text::trim_front(Seq::<char>::empty()) == Seq::<char>::empty());
        assert(crate::text::trim_back(Seq::<char>::empty()) == Seq::<char>::empty());
        assert(crate::text::trim(Seq::<char>::empty()) == Seq::<char>::empty());
        assert(is_blank(Seq::<char>::empty()));
        assert(pieces.drop_first() =~= Seq::<Seq<char>>::empty());
        assert(load_lines(Seq::<Seq<char>>::empty()) == (Seq::<TrackView>::empty(), false));
        assert(load_lines(pieces) == load_lines(pieces.drop_first()));
        assert(ts =~= Seq::<TrackView>::empty());
        assert((Seq::<TrackView>::empty(), false) == (ts, false));
    } else {
        let t = ts[0];
        let rest = ts.drop_first();
        let line = json_of_track(t);
        let rtext = index_text(rest);
        lemma_json_line_shape(t);
        lemma_index_round_trip(rest);
        assert(index_text(ts) == line + seq!['\n'] + rtext);
        assert(line + seq!['\n'] + rtext =~= line + (seq!['\n'] + rtext));
        assert forall|i: int| 0 <= i < line.len() implies !nl_pred()(line[i]) by {
            assert(line[i] != '\n');
        }
        lemma_split_by_piece(line, seq!['\n'] + rtext, nl_pred());
        let after = split_by(seq!['\n'] + rtext, nl_pred());
        assert((seq!['\n'] + rtext)[0] == '\n');
        assert(nl_pred()((seq!['\n'] + rtext)[0]));
        assert((seq!['\n'] + rtext).drop_first() =~= rtext);
        assert(after == seq![Seq::<char>::empty()] + split_by(rtext, nl_pred()));
        let pieces = split_by(index_text(ts), nl_pred());
        lemma_split_by_nonempty(rtext, nl_pred());
        assert(pieces == crate::text::prepend_first(line, after));
        assert(after[0] == Seq::<char>::empty());
        assert(line + after[0] =~= line);
        assert(after.drop_first() =~= split_by(rtext, nl_pred()));
        assert(pieces =~= seq![line] + split_by(rtext, nl_pred()));
        assert(pieces[0] == line);
        assert(pieces.drop_first() =~= split_by(rtext, nl_pred()));
        assert(line[line.len() - 1] == '}');
        assert(strip_cr(line) == line);
        assert(!is_white('{'));
        lemma_head_nonwhite_nonblank(line);
        lemma_track_round_trip(t);
        assert(p_track(line) == Some(t));
        assert(load_lines(pieces).0 == seq![t] + rest);
        assert(seq![t] + rest =~= ts);
        assert(load_lines(pieces).1 == false);
        assert(load_of_text(index_text(ts)) == (ts, false));
    }
}

} // verus!
