//! Playback argument building: the common mpv argument list derived from the
//! configuration, the streaming options derived from a target URL, and the
//! temporary playlist text handed to the player. Launching the player is
//! outside work; these functions only compute what it is launched with.

use vstd::prelude::*;
use crate::codec::render_u64;
use crate::codec::to_decimal;
use crate::config::Config;
use crate::classify::views_of;
use crate::browse::starts_with;
use crate::text::{chars_contain, chars_eq, chars_of, contains_seq, string_from_chars, trim};
use crate::text::trim_chars;

verus! {

/// Whether a character counts as numeric for the loop-count check, as
/// `char::is_numeric` decides it. The property depends on the character
/// alone.
pub uninterp spec fn numeric(c: char) -> bool;

/// Relies on `char::is_numeric`: the result depends on the character alone.
#[verifier::external_body]
fn char_is_numeric(c: char) -> (r: bool)
    ensures
        r == numeric(c),
{
    c.is_numeric()
}

/// Whether every character of `s` is numeric; true of the empty string.
pub open spec fn all_numeric(s: Seq<char>) -> bool {
    forall|i: int| 0 <= i < s.len() ==> numeric(s[i])
}

fn all_numeric_exec(v: &Vec<char>) -> (r: bool)
    ensures
        r == all_numeric(v@),
{
    let mut k: usize = 0;
    while k < v.len()
        invariant
            0 <= k <= v.len(),
            forall|j: int| 0 <= j < k ==> numeric(v@[j]),
        decreases v.len() - k,
    {
        if !char_is_numeric(v[k]) {
            return false;
        }
        k += 1;
    }
    true
}

/// Equality of two string slices.
fn str_eq(a: &str, b: &str) -> (r: bool)
    ensures
        r == (a@ == b@),
{
    let ac = chars_of(a);
    let bc = chars_of(b);
    chars_eq(&ac, &bc)
}

/// What follows the first occurrence of `c`, as the second half of a
/// two-way split; all of `s` consumed when `c` never occurs.
pub open spec fn after_first(s: Seq<char>, c: char) -> Seq<char>
    decreases s.len(),
{
    if s.len() == 0 {
        s
    } else if s[0] == c {
        s.drop_first()
    } else {
        after_first(s.drop_first(), c)
    }
}

proof fn lemma_after_first_at(s: Seq<char>, c: char, k: int)
    requires
        0 <= k < s.len(),
        s[k] == c,
        forall|j: int| 0 <= j < k ==> s[j] != c,
    ensures
        after_first(s, c) == s.skip(k + 1),
    decreases k,
{
    if k == 0 {
        assert(s.drop_first() =~= s.skip(1));
    } else {
        assert(s.drop_first()[k - 1] == c);
        assert(forall|j: int|
            0 <= j < k - 1 ==> #[trigger] s.drop_first()[j] == s[j + 1]);
        lemma_after_first_at(s.drop_first(), c, k - 1);
        assert(s.drop_first().skip(k) =~= s.skip(k + 1));
    }
}

/// The banner argument rewritten: the text after its first `=` is trimmed
/// and framed by newlines, with a screen-clearing prefix unless debug
/// logging must keep the scrollback.
pub open spec fn rewrite_banner(a: Seq<char>, debug: bool) -> Seq<char> {
    let banner = trim(after_first(a, '='));
    if debug {
        "--term-playing-msg=\n"@ + banner + "\n"@
    } else {
        "--term-playing-msg=\u{1b}[H\u{1b}[2J\u{1b}[3J\n"@ + banner + "\n"@
    }
}

/// How one configured default argument is passed on: the banner argument is
/// rewritten, every other argument goes through unchanged.
pub open spec fn process_arg(a: Seq<char>, debug: bool) -> Seq<char> {
    if contains_seq(a, "--term-playing-msg="@) && a.contains('=') {
        rewrite_banner(a, debug)
    } else {
        a
    }
}

/// The loop arguments the loop mode denotes: the word modes map to their mpv
/// switches, a numeric count loops the playlist that many times, anything
/// else adds nothing.
pub open spec fn loop_args(m: Seq<char>) -> Seq<Seq<char>> {
    if m == "playlist"@ || m == "inf"@ {
        seq!["--loop-playlist=inf"@]
    } else if m == "track"@ || m == "file"@ {
        seq!["--loop-file=inf"@]
    } else if m == "no"@ || m == "off"@ || m == "false"@ {
        seq!["--loop-playlist=no"@, "--loop-file=no"@]
    } else if all_numeric(m) {
        seq!["--loop-playlist="@ + m]
    } else {
        Seq::empty()
    }
}

/// The whole common argument list: video switches, the processed defaults,
/// the volume, the shuffle switch, and the loop arguments, in that order.
pub open spec fn spec_common_args(
    video_ok: bool,
    default_args: Seq<Seq<char>>,
    volume: u8,
    shuffle: bool,
    loop_mode: Seq<char>,
    debug: bool,
) -> Seq<Seq<char>> {
    (if video_ok {
        Seq::<Seq<char>>::empty()
    } else {
        seq!["--force-window=no"@, "--video=no"@]
    }) + default_args.map_values(|a: Seq<char>| process_arg(a, debug)) + seq![
        "--volume="@ + render_u64(volume as u64),
    ] + (if shuffle {
        seq!["--shuffle"@]
    } else {
        Seq::<Seq<char>>::empty()
    }) + loop_args(loop_mode)
}

fn process_arg_exec(a: &String, debug: bool) -> (r: String)
    ensures
        r@ == process_arg(a@, debug),
{
    let ac = chars_of(a.as_str());
    let key = chars_of("--term-playing-msg=");
    let mut eq_at: usize = 0;
    while eq_at < ac.len() && ac[eq_at] != '='
        invariant
            0 <= eq_at <= ac.len(),
            ac@ == a@,
            forall|j: int| 0 <= j < eq_at ==> ac@[j] != '=',
        decreases ac.len() - eq_at,
    {
        eq_at += 1;
    }
    let has_eq = eq_at < ac.len();
    if chars_contain(&ac, &key) && has_eq {
        proof {
            assert(a@.contains('=')) by {
                assert(a@[eq_at as int] == '=');
            }
            lemma_after_first_at(a@, '=', eq_at as int);
        }
        let mut rest: Vec<char> = Vec::new();
        let mut k: usize = eq_at + 1;
        while k < ac.len()
            invariant
                eq_at + 1 <= k <= ac.len(),
                ac@ == a@,
                rest@ == ac@.subrange(eq_at + 1, k as int),
            decreases ac.len() - k,
        {
            rest.push(ac[k]);
            proof {
                assert(rest@ =~= ac@.subrange(eq_at + 1, k + 1));
            }
            k += 1;
        }
        proof {
            assert(rest@ =~= a@.skip(eq_at + 1));
        }
        let banner = trim_chars(&rest);
        let prefix = if debug {
            chars_of("--term-playing-msg=\n")
        } else {
            chars_of("--term-playing-msg=\u{1b}[H\u{1b}[2J\u{1b}[3J\n")
        };
        let mut out = crate::codec::cat(prefix, &banner);
        out.push('\n');
        proof {
            assert("\n"@ =~= seq!['\n']) by {
                reveal_strlit("\n");
            }
            assert(out@ =~= rewrite_banner(a@, debug));
        }
        string_from_chars(&out)
    } else {
        proof {
            if !has_eq && a@.contains('=') {
                let w = choose|j: int| 0 <= j < a@.len() && a@[j] == '=';
                assert(a@[w] == '=');
            }
        }
        a.clone()
    }
}

/// The common mpv arguments the configuration calls for. `debug` says
/// whether debug logging is on, which keeps the banner from clearing the
/// screen.
pub fn common_args(cfg: &Config, debug: bool) -> (r: Vec<String>)
    ensures
        views_of(r@) == spec_common_args(
            cfg.video_ok,
            views_of(cfg.mpv_default_args@),
            cfg.volume,
            cfg.shuffle,
            cfg.loop_mode@,
            debug,
        ),
{
    let ghost dviews = views_of(cfg.mpv_default_args@);
    let mut out: Vec<String> = Vec::new();
    if !cfg.video_ok {
        out.push("--force-window=no".to_owned());
        out.push("--video=no".to_owned());
    }
    let ghost seg1: Seq<Seq<char>> = if cfg.video_ok {
        Seq::empty()
    } else {
        seq!["--force-window=no"@, "--video=no"@]
    };
    proof {
        assert(views_of(out@) =~= seg1);
    }
    let mut i: usize = 0;
    proof {
        assert(dviews.subrange(0, 0).map_values(|a: Seq<char>| process_arg(a, debug))
            =~= Seq::<Seq<char>>::empty());
        assert(seg1 + Seq::<Seq<char>>::empty() =~= seg1);
    }
    while i < cfg.mpv_default_args.len()
        invariant
            0 <= i <= cfg.mpv_default_args.len(),
            dviews == views_of(cfg.mpv_default_args@),
            seg1 == (if cfg.video_ok {
                Seq::<Seq<char>>::empty()
            } else {
                seq!["--force-window=no"@, "--video=no"@]
            }),
            views_of(out@) == seg1 + dviews.subrange(0, i as int).map_values(
                |a: Seq<char>| process_arg(a, debug),
            ),
        decreases cfg.mpv_default_args.len() - i,
    {
        let p = process_arg_exec(&cfg.mpv_default_args[i], debug);
        proof {
            let f = |a: Seq<char>| process_arg(a, debug);
            assert(views_of(out@.push(p)) =~= views_of(out@).push(p@));
            assert(dviews.subrange(0, i + 1).map_values(f) =~= dviews.subrange(
                0,
                i as int,
            ).map_values(f).push(f(dviews[i as int])));
            assert(seg1 + dviews.subrange(0, i + 1).map_values(f) =~= (seg1 + dviews.subrange(
                0,
                i as int,
            ).map_values(f)).push(f(dviews[i as int])));
        }
        out.push(p);
        i += 1;
    }
    let ghost seg2 = seg1 + dviews.map_values(|a: Seq<char>| process_arg(a, debug));
    proof {
        assert(dviews.subrange(0, cfg.mpv_default_args.len() as int) =~= dviews);
    }
    let vol = crate::codec::cat(chars_of("--volume="), &to_decimal(cfg.volume as u64));
    let vs = string_from_chars(&vol);
    proof {
        assert(views_of(out@.push(vs)) =~= views_of(out@).push(vs@));
        assert(seg2.push(vs@) =~= seg2 + seq!["--volume="@ + render_u64(cfg.volume as u64)]);
    }
    out.push(vs);
    let ghost seg3 = seg2 + seq!["--volume="@ + render_u64(cfg.volume as u64)];
    if cfg.shuffle {
        let s = "--shuffle".to_owned();
        proof {
            assert(views_of(out@.push(s)) =~= views_of(out@).push(s@));
            assert(seg3.push(s@) =~= seg3 + seq!["--shuffle"@]);
        }
        out.push(s);
    }
    let ghost seg4 = seg3 + (if cfg.shuffle {
        seq!["--shuffle"@]
    } else {
        Seq::<Seq<char>>::empty()
    });
    proof {
        if !cfg.shuffle {
            assert(seg4 =~= seg3);
        }
    }
    let lm = cfg.loop_mode.as_str();
    if str_eq(lm, "playlist") || str_eq(lm, "inf") {
        let s = "--loop-playlist=inf".to_owned();
        proof {
            assert(views_of(out@.push(s)) =~= views_of(out@).push(s@));
            assert(seg4.push(s@) =~= seg4 + loop_args(cfg.loop_mode@));
        }
        out.push(s);
    } else if str_eq(lm, "track") || str_eq(lm, "file") {
        let s = "--loop-file=inf".to_owned();
        proof {
            assert(views_of(out@.push(s)) =~= views_of(out@).push(s@));
            assert(seg4.push(s@) =~= seg4 + loop_args(cfg.loop_mode@));
        }
        out.push(s);
    } else if str_eq(lm, "no") || str_eq(lm, "off") || str_eq(lm, "false") {
        let s1 = "--loop-playlist=no".to_owned();
        let s2 = "--loop-file=no".to_owned();
        proof {
            assert(views_of(out@.push(s1).push(s2)) =~= views_of(out@).push(s1@).push(s2@));
            assert(seg4.push(s1@).push(s2@) =~= seg4 + loop_args(cfg.loop_mode@));
        }
        out.push(s1);
        out.push(s2);
    } else {
        let lc = chars_of(lm);
        let all_num = all_numeric_exec(&lc);
        if all_num {
            let arg = crate::codec::cat(chars_of("--loop-playlist="), &lc);
            let s = string_from_chars(&arg);
            proof {
                assert(all_numeric(cfg.loop_mode@));
                assert(views_of(out@.push(s)) =~= views_of(out@).push(s@));
                assert(seg4.push(s@) =~= seg4 + loop_args(cfg.loop_mode@));
            }
            out.push(s);
        } else {
            proof {
                assert(!all_numeric(cfg.loop_mode@));
                assert(loop_args(cfg.loop_mode@) =~= Seq::<Seq<char>>::empty());
                assert(seg4 + loop_args(cfg.loop_mode@) =~= seg4);
            }
        }
    }
    out
}

/// The JavaScript runtime found on the machine, if any; the surrounding
/// program checks for them in this order of preference.
#[derive(Clone, Copy, Debug, PartialEq, Eq, Structural)]
pub enum JsRuntime {
    Deno,
    Node,
    QuickJs,
    Bun,
    NoneFound,
}

/// Whether the playback target is a network stream.
pub open spec fn is_stream_url(t: Seq<char>) -> bool {
    starts_with(t, "http"@) || starts_with(t, "yt-dlp://"@) || starts_with(t, "ftp://"@)
}

/// Whether the target points at the video site the streaming tweaks serve.
pub open spec fn is_yt_url(t: Seq<char>) -> bool {
    contains_seq(t, "youtube.com"@) || contains_seq(t, "youtu.be"@)
}

/// The downloader option a found JavaScript runtime adds; the preferred
/// runtime is the downloader's own default and adds nothing.
pub open spec fn js_opt(js: JsRuntime) -> Seq<char> {
    match js {
        JsRuntime::Deno => Seq::empty(),
        JsRuntime::Node => "js-runtimes=node,"@,
        JsRuntime::QuickJs => "js-runtimes=quickjs,"@,
        JsRuntime::Bun => "js-runtimes=bun,"@,
        JsRuntime::NoneFound => Seq::empty(),
    }
}

/// The raw downloader options accumulated for a stream target, each followed
/// by a comma.
pub open spec fn raw_opts(
    t: Seq<char>,
    useragent: Seq<char>,
    ejs: bool,
    js: JsRuntime,
) -> Seq<char> {
    (if contains_seq(t, "list="@) {
        "yes-playlist=,"@
    } else {
        Seq::<char>::empty()
    }) + (if is_yt_url(t) {
        "user-agent="@ + useragent + ","@ + (if ejs {
            "remote-components=ejs:github,"@
        } else {
            Seq::<char>::empty()
        }) + js_opt(js)
    } else {
        Seq::<char>::empty()
    })
}

/// The string with its trailing commas removed.
pub open spec fn trim_commas(s: Seq<char>) -> Seq<char>
    decreases s.len(),
{
    if s.len() > 0 && s[s.len() - 1] == ',' {
        trim_commas(s.drop_last())
    } else {
        s
    }
}

/// The streaming arguments a target calls for: nothing for a local file; for
/// a stream, the hook's message level, the audio-only format when video is
/// off, and the accumulated raw options if any.
pub open spec fn spec_url_args(
    t: Seq<char>,
    video_ok: bool,
    useragent: Seq<char>,
    ejs: bool,
    js: JsRuntime,
) -> Seq<Seq<char>> {
    if !is_stream_url(t) {
        Seq::empty()
    } else {
        seq!["--msg-level=ytdl_hook=info"@] + (if is_yt_url(t) && !video_ok {
            seq!["--ytdl-format=bestaudio/best"@]
        } else {
            Seq::<Seq<char>>::empty()
        }) + ({
            let opts = raw_opts(t, useragent, ejs, js);
            if opts.len() > 0 {
                seq!["--ytdl-raw-options="@ + trim_commas(opts)]
            } else {
                Seq::<Seq<char>>::empty()
            }
        })
    }
}

fn push_lit_arg(out: &mut Vec<String>, s: &str)
    ensures
        views_of(final(out)@) == views_of(old(out)@).push(s@),
{
    let v = s.to_owned();
    proof {
        assert(views_of(old(out)@.push(v)) =~= views_of(old(out)@).push(s@));
    }
    out.push(v);
}

/// The streaming arguments for a playback target. The caller reports which
/// JavaScript runtime it found; everything else comes from the target and
/// the configuration.
pub fn url_args(target: &str, video_ok: bool, useragent: &String, ejs: bool, js: JsRuntime) -> (r:
    Vec<String>)
    ensures
        views_of(r@) == spec_url_args(target@, video_ok, useragent@, ejs, js),
{
    let tc = chars_of(target);
    let mut out: Vec<String> = Vec::new();
    let http = chars_of("http");
    let ytdlp = chars_of("yt-dlp://");
    let ftp = chars_of("ftp://");
    let is_url = crate::browse::starts_with_chars(&tc, &http) || crate::browse::starts_with_chars(
        &tc,
        &ytdlp,
    ) || crate::browse::starts_with_chars(&tc, &ftp);
    if !is_url {
        proof {
            assert(views_of(out@) =~= spec_url_args(target@, video_ok, useragent@, ejs, js));
        }
        return out;
    }
    let yt1 = chars_of("youtube.com");
    let yt2 = chars_of("youtu.be");
    let is_yt = chars_contain(&tc, &yt1) || chars_contain(&tc, &yt2);
    push_lit_arg(&mut out, "--msg-level=ytdl_hook=info");
    let ghost seg1: Seq<Seq<char>> = seq!["--msg-level=ytdl_hook=info"@];
    proof {
        assert(views_of(out@) =~= seg1);
    }
    if is_yt && !video_ok {
        push_lit_arg(&mut out, "--ytdl-format=bestaudio/best");
    }
    let ghost seg2 = seg1 + (if is_yt_url(target@) && !video_ok {
        seq!["--ytdl-format=bestaudio/best"@]
    } else {
        Seq::<Seq<char>>::empty()
    });
    proof {
        if is_yt && !video_ok {
            assert(views_of(out@) =~= seg2);
        } else {
            assert(views_of(out@) =~= seg1);
            assert(seg2 =~= seg1);
        }
    }
    let mut opts: Vec<char> = Vec::new();
    let listkey = chars_of("list=");
    if chars_contain(&tc, &listkey) {
        opts = crate::codec::cat(opts, &chars_of("yes-playlist=,"));
    }
    let ghost part1: Seq<char> = if contains_seq(target@, "list="@) {
        "yes-playlist=,"@
    } else {
        Seq::empty()
    };
    proof {
        assert(opts@ =~= part1);
    }
    if is_yt {
        opts = crate::codec::cat(opts, &chars_of("user-agent="));
        opts = crate::codec::cat(opts, &chars_of(useragent.as_str()));
        opts = crate::codec::cat(opts, &chars_of(","));
        if ejs {
            opts = crate::codec::cat(opts, &chars_of("remote-components=ejs:github,"));
        }
        match js {
            JsRuntime::Deno => {},
            JsRuntime::Node => {
                opts = crate::codec::cat(opts, &chars_of("js-runtimes=node,"));
            },
            JsRuntime::QuickJs => {
                opts = crate::codec::cat(opts, &chars_of("js-runtimes=quickjs,"));
            },
            JsRuntime::Bun => {
                opts = crate::codec::cat(opts, &chars_of("js-runtimes=bun,"));
            },
            JsRuntime::NoneFound => {},
        }
        proof {
            if js == JsRuntime::Deno || js == JsRuntime::NoneFound {
                assert(js_opt(js) =~= Seq::<char>::empty());
            }
            if !ejs {
                assert("user-agent="@ + useragent@ + ","@ + Seq::<char>::empty() =~=
                "user-agent="@ + useragent@ + ","@);
            }
            assert(opts@ =~= raw_opts(target@, useragent@, ejs, js));
        }
    } else {
        proof {
            assert(part1 + Seq::<char>::empty() =~= part1);
            assert(opts@ =~= raw_opts(target@, useragent@, ejs, js));
        }
    }
    let ghost full_opts = raw_opts(target@, useragent@, ejs, js);
    let had_any = opts.len() > 0;
    let mut trimmed = opts;
    while trimmed.len() > 0 && trimmed[trimmed.len() - 1] == ','
        invariant
            trim_commas(trimmed@) == trim_commas(full_opts),
            had_any == (full_opts.len() > 0),
        decreases trimmed.len(),
    {
        trimmed.pop();
    }
    proof {
        assert(trim_commas(trimmed@) == trimmed@);
    }
    if had_any {
        let arg = crate::codec::cat(chars_of("--ytdl-raw-options="), &trimmed);
        let s = string_from_chars(&arg);
        proof {
            assert(views_of(out@.push(s)) =~= views_of(out@).push(s@));
            assert(seg2.push(s@) =~= seg2 + seq!["--ytdl-raw-options="@ + trim_commas(
                full_opts,
            )]);
            assert(full_opts.len() > 0);
        }
        out.push(s);
    } else {
        proof {
            assert(full_opts.len() == 0);
            assert(trim_commas(full_opts) == full_opts);
            assert(seg2 + Seq::<Seq<char>>::empty() =~= seg2);
        }
    }
    out
}

/// The playlist file text handed to the player: the M3U header, then one
/// path per line.
pub open spec fn m3u_lines(paths: Seq<Seq<char>>) -> Seq<char>
    decreases paths.len(),
{
    if paths.len() == 0 {
        Seq::empty()
    } else {
        paths[0] + "\n"@ + m3u_lines(paths.drop_first())
    }
}

/// The whole temporary playlist text.
pub open spec fn spec_playlist_text(paths: Seq<Seq<char>>) -> Seq<char> {
    "#EXTM3U\n"@ + m3u_lines(paths)
}

proof fn lemma_m3u_snoc(paths: Seq<Seq<char>>, p: Seq<char>)
    ensures
        m3u_lines(paths.push(p)) == m3u_lines(paths) + p + "\n"@,
    decreases paths.len(),
{
    if paths.len() == 0 {
        assert(paths.push(p)[0] == p);
        assert(paths.push(p).drop_first() =~= Seq::<Seq<char>>::empty());
        assert(m3u_lines(paths.push(p)) == p + "\n"@ + m3u_lines(Seq::empty()));
        assert(p + "\n"@ + m3u_lines(Seq::empty()) =~= m3u_lines(paths) + p + "\n"@);
    } else {
        assert(paths.push(p)[0] == paths[0]);
        assert(paths.push(p).drop_first() =~= paths.drop_first().push(p));
        lemma_m3u_snoc(paths.drop_first(), p);
        assert(m3u_lines(paths.push(p)) =~= m3u_lines(paths) + p + "\n"@);
    }
}

/// Build the temporary playlist text for the given paths.
pub fn playlist_text(paths: &Vec<String>) -> (r: String)
    ensures
        r@ == spec_playlist_text(views_of(paths@)),
{
    let ghost pviews = views_of(paths@);
    let mut out: Vec<char> = chars_of("#EXTM3U\n");
    let mut i: usize = 0;
    proof {
        assert(m3u_lines(pviews.subrange(0, 0)) =~= Seq::<char>::empty());
        assert(out@ =~= "#EXTM3U\n"@ + m3u_lines(pviews.subrange(0, 0)));
    }
    while i < paths.len()
        invariant
            0 <= i <= paths.len(),
            pviews == views_of(paths@),
            out@ == "#EXTM3U\n"@ + m3u_lines(pviews.subrange(0, i as int)),
        decreases paths.len() - i,
    {
        let pc = chars_of(paths[i].as_str());
        let mut out2 = crate::codec::cat(out, &pc);
        out2.push('\n');
        proof {
            let prev = pviews.subrange(0, i as int);
            assert(pviews.subrange(0, i + 1) =~= prev.push(pviews[i as int]));
            lemma_m3u_snoc(prev, pviews[i as int]);
            assert("\n"@ =~= seq!['\n']) by {
                reveal_strlit("\n");
            }
            assert(out2@ =~= "#EXTM3U\n"@ + m3u_lines(pviews.subrange(0, i + 1)));
        }
        out = out2;
        i += 1;
    }
    proof {
        assert(pviews.subrange(0, paths.len() as int) =~= pviews);
    }
    string_from_chars(&out)
}

} // verus!
