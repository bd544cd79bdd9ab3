use mpv_music::query::{
    field_query, filter_tracks, outcome_of, resolve_query, resolve_with_choice, track_matches_exec,
    Outcome, Query, Resolution, TagField,
};
use mpv_music::track::{MediaType, Track};

fn track(path: &str, title: &str, artist: &str, genre: &str) -> Track {
    Track {
        path: path.to_string(),
        title: title.to_string(),
        artist: artist.to_string(),
        album: "Album".to_string(),
        genre: genre.to_string(),
        mtime: 100,
        size: 2000,
        media_type: MediaType::Audio,
    }
}

fn genre_query(g: &str) -> Query {
    Query { genre: Some(field_query(g)), artist: None, album: None, title: None }
}

fn artist_query(a: &str) -> Query {
    Query { genre: None, artist: Some(field_query(a)), album: None, title: None }
}

#[test]
fn exact_hits_subvalues_but_not_fragments() {
    let t = track("/m/a.mp3", "A", "Ann", "Pop;Rock");
    assert!(track_matches_exec(&t, &genre_query("rock"), true));
    assert!(!track_matches_exec(&t, &genre_query("ro"), true));
    assert!(track_matches_exec(&t, &genre_query("ro"), false));
}

#[test]
fn exact_trims_and_ignores_case_in_subvalues() {
    let t = track("/m/a.mp3", "A", "Ann", "Pop ; Classic Rock");
    assert!(track_matches_exec(&t, &genre_query("classic rock"), true));
    assert!(track_matches_exec(&t, &genre_query(" POP "), true));
}

#[test]
fn title_filter_is_always_partial() {
    let t = track("/m/a.mp3", "Morning Light", "Ann", "Pop");
    let q = Query {
        genre: None,
        artist: None,
        album: None,
        title: Some("ing li".to_string()),
    };
    assert!(track_matches_exec(&t, &q, true));
    assert!(track_matches_exec(&t, &q, false));
}

#[test]
fn filters_are_anded_terms_are_ored() {
    let t = track("/m/a.mp3", "A", "Ann", "Pop");
    let q = Query {
        genre: Some(field_query("jazz,pop")),
        artist: Some(field_query("ann")),
        album: None,
        title: None,
    };
    assert!(track_matches_exec(&t, &q, false));
    let q2 = Query {
        genre: Some(field_query("jazz,pop")),
        artist: Some(field_query("bob")),
        album: None,
        title: None,
    };
    assert!(!track_matches_exec(&t, &q2, false));
}

#[test]
fn exact_genre_single_match() {
    let tracks = vec![
        track("/m/a.mp3", "A", "Ann", "Pop"),
        track("/m/b.flac", "B", "Bea", "Rock"),
    ];
    match resolve_query(&tracks, &genre_query("pop")) {
        Resolution::Matched(ts) => {
            assert_eq!(ts.len(), 1);
            assert_eq!(ts[0].path, "/m/a.mp3");
            match outcome_of(ts) {
                Outcome::Single(t) => assert_eq!(t.path, "/m/a.mp3"),
                _ => panic!("one match must be a single outcome"),
            }
        }
        _ => panic!("exact pass must find the Pop track"),
    }
}

#[test]
fn partial_fallback_when_exact_finds_nothing() {
    let tracks = vec![
        track("/m/a.mp3", "A", "Ann", "Pop"),
        track("/m/b.flac", "B", "Bea", "Rock"),
    ];
    match resolve_query(&tracks, &genre_query("po")) {
        Resolution::Matched(ts) => {
            assert_eq!(ts.len(), 1);
            assert_eq!(ts[0].path, "/m/a.mp3");
        }
        _ => panic!("the partial pass must find only the Pop track"),
    }
}

#[test]
fn no_match_at_all() {
    let tracks = vec![track("/m/a.mp3", "A", "Ann", "Pop")];
    assert!(matches!(resolve_query(&tracks, &genre_query("zzz")), Resolution::NoMatch));
}

#[test]
fn ambiguity_triggers_clarification_and_choice_narrows() {
    let tracks = vec![
        track("/m/1.mp3", "One", "Adoration", "Pop"),
        track("/m/2.mp3", "Two", "Adolescence", "Rock"),
    ];
    let q = artist_query("ado");
    let (field, options) = match resolve_query(&tracks, &q) {
        Resolution::NeedsChoice(f, opts) => (f, opts),
        _ => panic!("two distinct partial artists must ask for clarification"),
    };
    assert_eq!(field, TagField::Artist);
    assert_eq!(options.len(), 2);
    assert!(options.contains(&"Adoration".to_string()));
    assert!(options.contains(&"Adolescence".to_string()));
    let narrowed = resolve_with_choice(&tracks, &q, field, "Adoration");
    assert_eq!(narrowed.len(), 1);
    assert_eq!(narrowed[0].path, "/m/1.mp3");
}

#[test]
fn exact_artist_match_short_circuits_clarification() {
    // An artist literally named like the query is an exact hit, so the
    // clarification step never runs.
    let tracks = vec![
        track("/m/1.mp3", "One", "Ado", "Pop"),
        track("/m/2.mp3", "Two", "Adoration", "Rock"),
    ];
    match resolve_query(&tracks, &artist_query("ado")) {
        Resolution::Matched(ts) => {
            assert_eq!(ts.len(), 1);
            assert_eq!(ts[0].path, "/m/1.mp3");
        }
        _ => panic!("the exact pass must settle the query"),
    }
}

#[test]
fn multi_value_query_skips_exact_and_clarification() {
    let tracks = vec![
        track("/m/1.mp3", "One", "Ann", "Pop"),
        track("/m/2.mp3", "Two", "Bea", "Rock"),
        track("/m/3.mp3", "Three", "Cyn", "Jazz"),
    ];
    match resolve_query(&tracks, &genre_query("pop,rock")) {
        Resolution::Matched(ts) => {
            assert_eq!(ts.len(), 2);
            assert_eq!(ts[0].path, "/m/1.mp3");
            assert_eq!(ts[1].path, "/m/2.mp3");
        }
        _ => panic!("a multi-value query returns the union without asking"),
    }
}

#[test]
fn single_distinct_partial_value_needs_no_clarification() {
    let tracks = vec![
        track("/m/1.mp3", "One", "Adoration", "Pop"),
        track("/m/2.mp3", "Two", "Adoration", "Rock"),
    ];
    match resolve_query(&tracks, &artist_query("ado")) {
        Resolution::Matched(ts) => assert_eq!(ts.len(), 2),
        _ => panic!("one distinct artist needs no clarification"),
    }
}

#[test]
fn empty_term_list_matches_nothing() {
    let tracks = vec![track("/m/1.mp3", "One", "Ann", "Pop")];
    let filtered = filter_tracks(&tracks, &genre_query(","), false);
    assert_eq!(filtered.len(), 0);
}

#[test]
fn prepared_terms_are_lowercased_and_trimmed() {
    let fq = field_query(" Rock ,  ,POP ");
    assert_eq!(fq.terms, vec!["rock".to_string(), "pop".to_string()]);
    assert!(fq.multi);
    let single = field_query("Rock");
    assert!(!single.multi);
}
