//! The persisted record format: one JSON object per track, in the canonical
//! shape the store itself writes — fields in a fixed order, strings escaped as
//! JSON requires, integers in decimal. `serialize_track` and `parse_track`
//! are exact inverses; `lemma_track_round_trip` states that law.

use vstd::prelude::*;
use crate::track::{MediaType, Track, TrackView};
use crate::text::{chars_of, string_from_chars};

verus! {

// ---------------------------------------------------------------------------
// Digits and numbers
// ---------------------------------------------------------------------------

/// Whether `c` is an ASCII decimal digit.
pub open spec fn is_digit(c: char) -> bool {
    48 <= c as u32 && c as u32 <= 57
}

/// The numeric value of a decimal digit character.
pub open spec fn dval(c: char) -> int {
    c as u32 - 48
}

/// The decimal digit character for a value below ten.
pub open spec fn dchar(d: int) -> char {
    if d == 0 {
        '0'
    } else if d == 1 {
        '1'
    } else if d == 2 {
        '2'
    } else if d == 3 {
        '3'
    } else if d == 4 {
        '4'
    } else if d == 5 {
        '5'
    } else if d == 6 {
        '6'
    } else if d == 7 {
        '7'
    } else if d == 8 {
        '8'
    } else {
        '9'
    }
}

proof fn lemma_dchar_val(d: int)
    requires
        0 <= d < 10,
    ensures
        is_digit(dchar(d)),
        dval(dchar(d)) == d,
{
}

/// The decimal rendering of `n`, most significant digit first.
pub open spec fn render_u64(n: u64) -> Seq<char>
    decreases n,
{
    if n < 10 {
        seq![dchar(n as int)]
    } else {
        render_u64(n / 10) + seq![dchar((n % 10) as int)]
    }
}

/// The hexadecimal digit character for a value below sixteen, lowercase.
pub open spec fn hex_digit(d: int) -> char {
    if d < 10 {
        dchar(d)
    } else if d == 10 {
        'a'
    } else if d == 11 {
        'b'
    } else if d == 12 {
        'c'
    } else if d == 13 {
        'd'
    } else if d == 14 {
        'e'
    } else {
        'f'
    }
}

/// The numeric value of a hexadecimal digit character; negative when `c` is
/// no such digit. Uppercase digits are accepted, as JSON allows them.
pub open spec fn hex_val(c: char) -> int {
    let n = c as u32;
    if 48 <= n && n <= 57 {
        n - 48
    } else if 97 <= n && n <= 102 {
        n - 97 + 10
    } else if 65 <= n && n <= 70 {
        n - 65 + 10
    } else {
        -1
    }
}

proof fn lemma_hex_digit_val(d: int)
    requires
        0 <= d < 16,
    ensures
        hex_val(hex_digit(d)) == d,
{
}

// ---------------------------------------------------------------------------
// String escaping
// ---------------------------------------------------------------------------

/// The JSON escape of one character: quote and backslash are escaped, control
/// characters take their short escape or a `\u00XX` form, and every other
/// character stands for itself.
pub open spec fn escape_char(c: char) -> Seq<char> {
    if c == '"' {
        seq!['\\', '"']
    } else if c == '\\' {
        seq!['\\', '\\']
    } else if c == '\u{8}' {
        seq!['\\', 'b']
    } else if c == '\t' {
        seq!['\\', 't']
    } else if c == '\n' {
        seq!['\\', 'n']
    } else if c == '\u{c}' {
        seq!['\\', 'f']
    } else if c == '\r' {
        seq!['\\', 'r']
    } else if (c as u32) < 0x20 {
        seq!['\\', 'u', '0', '0', hex_digit((c as u32) as int / 16), hex_digit((c as u32) as int % 16)]
    } else {
        seq![c]
    }
}

/// The JSON escape of a whole string body, without the surrounding quotes.
pub open spec fn escape_str(s: Seq<char>) -> Seq<char>
    decreases s.len(),
{
    if s.len() == 0 {
        Seq::empty()
    } else {
        escape_char(s[0]) + escape_str(s.drop_first())
    }
}

proof fn lemma_escape_snoc(s: Seq<char>, c: char)
    ensures
        escape_str(s.push(c)) == escape_str(s) + escape_char(c),
    decreases s.len(),
{
    if s.len() == 0 {
        assert(s.push(c)[0] == c);
        assert(s.push(c).drop_first() =~= Seq::<char>::empty());
        assert(escape_str(s.push(c)) == escape_char(c) + escape_str(Seq::empty()));
        assert(escape_char(c) + escape_str(Seq::empty()) =~= escape_char(c));
        assert(escape_str(s) + escape_char(c) =~= escape_char(c));
    } else {
        assert(s.push(c).drop_first() =~= s.drop_first().push(c));
        lemma_escape_snoc(s.drop_first(), c);
        assert(escape_str(s.push(c)) =~= escape_str(s) + escape_char(c));
    }
}

// ---------------------------------------------------------------------------
// The record shape
// ---------------------------------------------------------------------------

/// The literal opening a record, up to the start of the path value.
pub open spec fn lit_head() -> Seq<char> {
    seq!['{', '"', 'p', 'a', 't', 'h', '"', ':', '"']
}

/// The literal between the path value and the title value.
pub open spec fn lit_title() -> Seq<char> {
    seq![',', '"', 't', 'i', 't', 'l', 'e', '"', ':', '"']
}

/// The literal between the title value and the artist value.
pub open spec fn lit_artist() -> Seq<char> {
    seq![',', '"', 'a', 'r', 't', 'i', 's', 't', '"', ':', '"']
}

/// The literal between the artist value and the album value.
pub open spec fn lit_album() -> Seq<char> {
    seq![',', '"', 'a', 'l', 'b', 'u', 'm', '"', ':', '"']
}

/// The literal between the album value and the genre value.
pub open spec fn lit_genre() -> Seq<char> {
    seq![',', '"', 'g', 'e', 'n', 'r', 'e', '"', ':', '"']
}

/// The literal between the genre value and the mtime digits.
pub open spec fn lit_mtime() -> Seq<char> {
    seq![',', '"', 'm', 't', 'i', 'm', 'e', '"', ':']
}

/// The literal between the mtime digits and the size digits.
pub open spec fn lit_size() -> Seq<char> {
    seq![',', '"', 's', 'i', 'z', 'e', '"', ':']
}

/// The literal between the size digits and the media type value.
pub open spec fn lit_mt() -> Seq<char> {
    seq![',', '"', 'm', 'e', 'd', 'i', 'a', '_', 't', 'y', 'p', 'e', '"', ':', '"']
}

/// The persisted name of a media type.
pub open spec fn mt_str(m: MediaType) -> Seq<char> {
    match m {
        MediaType::Audio => seq!['a', 'u', 'd', 'i', 'o'],
        MediaType::Video => seq!['v', 'i', 'd', 'e', 'o'],
        MediaType::Playlist => seq!['p', 'l', 'a', 'y', 'l', 'i', 's', 't'],
    }
}

/// The literal closing a record after the media type value.
pub open spec fn lit_tail() -> Seq<char> {
    seq!['"', '}']
}

/// The rest of a record line from the media type value on.
pub open spec fn rest_media(t: TrackView) -> Seq<char> {
    mt_str(t.media_type) + lit_tail()
}

/// The rest of a record line from the media type key on.
pub open spec fn rest_media_key(t: TrackView) -> Seq<char> {
    lit_mt() + rest_media(t)
}

/// The rest of a record line from the size digits on.
pub open spec fn rest_size(t: TrackView) -> Seq<char> {
    render_u64(t.size) + rest_media_key(t)
}

/// The rest of a record line from the size key on.
pub open spec fn rest_size_key(t: TrackView) -> Seq<char> {
    lit_size() + rest_size(t)
}

/// The rest of a record line from the mtime digits on.
pub open spec fn rest_mtime(t: TrackView) -> Seq<char> {
    render_u64(t.mtime) + rest_size_key(t)
}

/// The rest of a record line from the mtime key on.
pub open spec fn rest_mtime_key(t: TrackView) -> Seq<char> {
    lit_mtime() + rest_mtime(t)
}

/// The rest of a record line from the genre value on.
pub open spec fn rest_genre(t: TrackView) -> Seq<char> {
    escape_str(t.genre) + seq!['"'] + rest_mtime_key(t)
}

/// The rest of a record line from the genre key on.
pub open spec fn rest_genre_key(t: TrackView) -> Seq<char> {
    lit_genre() + rest_genre(t)
}

/// The rest of a record line from the album value on.
pub open spec fn rest_album(t: TrackView) -> Seq<char> {
    escape_str(t.album) + seq!['"'] + rest_genre_key(t)
}

/// The rest of a record line from the album key on.
pub open spec fn rest_album_key(t: TrackView) -> Seq<char> {
    lit_album() + rest_album(t)
}

/// The rest of a record line from the artist value on.
pub open spec fn rest_artist(t: TrackView) -> Seq<char> {
    escape_str(t.artist) + seq!['"'] + rest_album_key(t)
}

/// The rest of a record line from the artist key on.
pub open spec fn rest_artist_key(t: TrackView) -> Seq<char> {
    lit_artist() + rest_artist(t)
}

/// The rest of a record line from the title value on.
pub open spec fn rest_title(t: TrackView) -> Seq<char> {
    escape_str(t.title) + seq!['"'] + rest_artist_key(t)
}

/// The rest of a record line from the title key on.
pub open spec fn rest_title_key(t: TrackView) -> Seq<char> {
    lit_title() + rest_title(t)
}

/// The rest of a record line from the path value on.
pub open spec fn rest_path(t: TrackView) -> Seq<char> {
    escape_str(t.path) + seq!['"'] + rest_title_key(t)
}

/// The canonical JSON line for a track: the head literal, then each field's
/// key and encoded value in order, then the closing literal.
pub open spec fn json_of_track(t: TrackView) -> Seq<char> {
    lit_head() + rest_path(t)
}

// ---------------------------------------------------------------------------
// The parser, as a specification
// ---------------------------------------------------------------------------

/// Consume an expected literal; the rest of the input on success.
pub open spec fn p_lit(s: Seq<char>, l: Seq<char>) -> Option<Seq<char>> {
    if l.len() <= s.len() && s.take(l.len() as int) == l {
        Some(s.skip(l.len() as int))
    } else {
        None
    }
}

/// The character an escape letter denotes, if it is a valid single-letter
/// JSON escape.
pub open spec fn unescape_char(e: char) -> Option<char> {
    if e == '"' {
        Some('"')
    } else if e == '\\' {
        Some('\\')
    } else if e == '/' {
        Some('/')
    } else if e == 'b' {
        Some('\u{8}')
    } else if e == 'f' {
        Some('\u{c}')
    } else if e == 'n' {
        Some('\n')
    } else if e == 'r' {
        Some('\r')
    } else if e == 't' {
        Some('\t')
    } else {
        None
    }
}

/// Consume a string body up to and including its closing quote; the decoded
/// body and the rest of the input on success. A `\u` escape is accepted for
/// the control range, the only range the writer encodes that way.
pub open spec fn p_string(s: Seq<char>) -> Option<(Seq<char>, Seq<char>)>
    decreases s.len(),
{
    if s.len() == 0 {
        None
    } else if s[0] == '"' {
        Some((Seq::empty(), s.drop_first()))
    } else if s[0] == '\\' {
        if s.len() < 2 {
            None
        } else if s[1] == 'u' {
            if s.len() < 6 {
                None
            } else {
                let h = hex_val(s[2]) * 4096 + hex_val(s[3]) * 256 + hex_val(s[4]) * 16 + hex_val(
                    s[5],
                );
                if hex_val(s[2]) >= 0 && hex_val(s[3]) >= 0 && hex_val(s[4]) >= 0 && hex_val(s[5])
                    >= 0 && h < 0x20 {
                    match p_string(s.skip(6)) {
                        Some((v, r)) => Some((seq![(h as u32) as char] + v, r)),
                        None => None,
                    }
                } else {
                    None
                }
            }
        } else {
            match unescape_char(s[1]) {
                Some(c) => match p_string(s.skip(2)) {
                    Some((v, r)) => Some((seq![c] + v, r)),
                    None => None,
                },
                None => None,
            }
        }
    } else {
        match p_string(s.drop_first()) {
            Some((v, r)) => Some((seq![s[0]] + v, r)),
            None => None,
        }
    }
}

/// Consume decimal digits into an accumulator, rejecting overflow; the value
/// and the rest of the input once a non-digit (or the end) is reached.
pub open spec fn p_digits(s: Seq<char>, acc: u64) -> Option<(u64, Seq<char>)>
    decreases s.len(),
{
    if s.len() > 0 && is_digit(s[0]) {
        if (acc as int) * 10 + dval(s[0]) <= u64::MAX as int {
            p_digits(s.drop_first(), (acc * 10 + dval(s[0]) as u64) as u64)
        } else {
            None
        }
    } else {
        Some((acc, s))
    }
}

/// Consume an unsigned decimal number of at least one digit.
pub open spec fn p_u64(s: Seq<char>) -> Option<(u64, Seq<char>)> {
    if s.len() == 0 || !is_digit(s[0]) {
        None
    } else {
        p_digits(s, 0)
    }
}

// ---------------------------------------------------------------------------
// Numbers render and parse back
// ---------------------------------------------------------------------------

/// Ten to the `k`.
pub open spec fn pow10(k: nat) -> int
    decreases k,
{
    if k == 0 {
        1
    } else {
        10 * pow10((k - 1) as nat)
    }
}

proof fn lemma_pow10_pos(k: nat)
    ensures
        pow10(k) >= 1,
    decreases k,
{
    if k > 0 {
        lemma_pow10_pos((k - 1) as nat);
    }
}

/// Whether every character of `ds` is a decimal digit.
pub open spec fn all_digits(ds: Seq<char>) -> bool {
    forall|i: int| 0 <= i < ds.len() ==> is_digit(ds[i])
}

/// The numeric value of a digit string, most significant digit first.
pub open spec fn vval(ds: Seq<char>) -> int
    decreases ds.len(),
{
    if ds.len() == 0 {
        0
    } else {
        dval(ds[0]) * pow10((ds.len() - 1) as nat) + vval(ds.drop_first())
    }
}

proof fn lemma_vval_nonneg(ds: Seq<char>)
    requires
        all_digits(ds),
    ensures
        vval(ds) >= 0,
    decreases ds.len(),
{
    if ds.len() > 0 {
        assert(is_digit(ds[0]));
        lemma_pow10_pos((ds.len() - 1) as nat);
        assert(all_digits(ds.drop_first()));
        lemma_vval_nonneg(ds.drop_first());
        assert(dval(ds[0]) >= 0);
        assert(dval(ds[0]) * pow10((ds.len() - 1) as nat) >= 0) by (nonlinear_arith)
            requires
                dval(ds[0]) >= 0,
                pow10((ds.len() - 1) as nat) >= 1,
        ;
    }
}

proof fn lemma_vval_snoc(ds: Seq<char>, c: char)
    ensures
        vval(ds.push(c)) == vval(ds) * 10 + dval(c),
    decreases ds.len(),
{
    if ds.len() == 0 {
        assert(ds.push(c)[0] == c);
        assert(ds.push(c).drop_first() =~= Seq::<char>::empty());
        assert(pow10(0) == 1);
        assert(vval(Seq::<char>::empty()) == 0);
        assert(vval(ds.push(c)) == dval(c) * pow10(0) + vval(Seq::<char>::empty()));
        assert(dval(c) * 1 == dval(c)) by (nonlinear_arith);
    } else {
        let e = ds.push(c);
        assert(e[0] == ds[0]);
        assert(e.drop_first() =~= ds.drop_first().push(c));
        lemma_vval_snoc(ds.drop_first(), c);
        let l1 = (ds.len() - 1) as nat;
        assert(vval(e) == dval(ds[0]) * pow10(ds.len() as nat) + (vval(ds.drop_first()) * 10
            + dval(c)));
        assert(dval(ds[0]) * pow10(ds.len() as nat) == (dval(ds[0]) * pow10(l1)) * 10)
            by (nonlinear_arith)
            requires
                pow10(ds.len() as nat) == 10 * pow10(l1),
        ;
        assert((dval(ds[0]) * pow10(l1)) * 10 + (vval(ds.drop_first()) * 10 + dval(c)) == (dval(
            ds[0],
        ) * pow10(l1) + vval(ds.drop_first())) * 10 + dval(c)) by (nonlinear_arith);
    }
}

proof fn lemma_render_digits(n: u64)
    ensures
        render_u64(n).len() >= 1,
        all_digits(render_u64(n)),
        vval(render_u64(n)) == n,
    decreases n,
{
    if n < 10 {
        lemma_dchar_val(n as int);
        let ds = render_u64(n);
        assert(ds == seq![dchar(n as int)]);
        assert(ds.drop_first() =~= Seq::<char>::empty());
        assert(pow10(0) == 1);
        assert(vval(Seq::<char>::empty()) == 0);
        assert(vval(ds) == dval(dchar(n as int)) * pow10(0) + vval(Seq::<char>::empty()));
        assert(dval(dchar(n as int)) * 1 == dval(dchar(n as int))) by (nonlinear_arith);
    } else {
        lemma_render_digits(n / 10);
        lemma_dchar_val((n % 10) as int);
        let hd = render_u64(n / 10);
        let c = dchar((n % 10) as int);
        assert(render_u64(n) =~= hd.push(c));
        lemma_vval_snoc(hd, c);
        assert(vval(hd.push(c)) == (n / 10) * 10 + (n % 10));
        assert((n / 10) * 10 + (n % 10) == n) by (nonlinear_arith);
        assert(all_digits(hd.push(c))) by {
            assert(forall|i: int|
                0 <= i < hd.len() ==> is_digit(#[trigger] hd.push(c)[i]));
        }
    }
}

proof fn lemma_p_digits_append(ds: Seq<char>, rest: Seq<char>, acc: u64)
    requires
        all_digits(ds),
        rest.len() == 0 || !is_digit(rest[0]),
        (acc as int) * pow10(ds.len() as nat) + vval(ds) <= u64::MAX as int,
    ensures
        p_digits(ds + rest, acc) == Some::<(u64, Seq<char>)>(
            (((acc as int) * pow10(ds.len() as nat) + vval(ds)) as u64, rest),
        ),
    decreases ds.len(),
{
    lemma_vval_nonneg(ds);
    if ds.len() == 0 {
        assert(ds + rest =~= rest);
        assert((acc as int) * pow10(0) == acc as int) by (nonlinear_arith);
        assert(p_digits(rest, acc) == Some::<(u64, Seq<char>)>((acc, rest)));
    } else {
        let s = ds + rest;
        let d0 = dval(ds[0]);
        let l1 = (ds.len() - 1) as nat;
        let ds1 = ds.drop_first();
        assert(s[0] == ds[0]);
        assert(is_digit(s[0]));
        assert(all_digits(ds1));
        lemma_vval_nonneg(ds1);
        lemma_pow10_pos(l1);
        let acc1 = (acc as int) * 10 + d0;
        assert(acc1 * pow10(l1) + vval(ds1) == (acc as int) * pow10(ds.len() as nat) + vval(ds))
            by (nonlinear_arith)
            requires
                pow10(ds.len() as nat) == 10 * pow10(l1),
                vval(ds) == d0 * pow10(l1) + vval(ds1),
                acc1 == (acc as int) * 10 + d0,
        ;
        assert(acc1 <= acc1 * pow10(l1)) by (nonlinear_arith)
            requires
                acc1 >= 0,
                pow10(l1) >= 1,
        ;
        assert(acc1 <= u64::MAX as int);
        assert(s.drop_first() =~= ds1 + rest);
        lemma_p_digits_append(ds1, rest, acc1 as u64);
    }
}

proof fn lemma_p_u64_render(n: u64, rest: Seq<char>)
    requires
        rest.len() == 0 || !is_digit(rest[0]),
    ensures
        p_u64(render_u64(n) + rest) == Some::<(u64, Seq<char>)>((n, rest)),
{
    lemma_render_digits(n);
    let ds = render_u64(n);
    assert((ds + rest)[0] == ds[0]);
    assert((0 as int) * pow10(ds.len() as nat) == 0) by (nonlinear_arith);
    lemma_p_digits_append(ds, rest, 0);
}

// ---------------------------------------------------------------------------
// Literals and strings parse back
// ---------------------------------------------------------------------------

proof fn lemma_p_lit(l: Seq<char>, rest: Seq<char>)
    ensures
        p_lit(l + rest, l) == Some(rest),
{
    assert((l + rest).take(l.len() as int) =~= l);
    assert((l + rest).skip(l.len() as int) =~= rest);
}

proof fn lemma_p_string_inverse(s: Seq<char>, rest: Seq<char>)
    ensures
        p_string(escape_str(s) + seq!['"'] + rest) == Some((s, rest)),
    decreases s.len(),
{
    let input = escape_str(s) + seq!['"'] + rest;
    if s.len() == 0 {
        assert(input =~= seq!['"'] + rest);
        assert(input[0] == '"');
        assert(input.drop_first() =~= rest);
        assert(s =~= Seq::<char>::empty());
    } else {
        let c = s[0];
        let s1 = s.drop_first();
        lemma_p_string_inverse(s1, rest);
        let tail = escape_str(s1) + seq!['"'] + rest;
        assert(input =~= escape_char(c) + tail);
        assert(seq![c] + s1 =~= s);
        if c == '"' || c == '\\' || c == '\u{8}' || c == '\t' || c == '\n' || c == '\u{c}' || c
            == '\r' {
            assert(escape_char(c).len() == 2);
            assert(input[0] == '\\');
            assert(input[1] == escape_char(c)[1]);
            assert(input[1] != 'u');
            assert(unescape_char(input[1]) == Some(c));
            assert(input.skip(2) =~= tail);
        } else if (c as u32) < 0x20 {
            let n = (c as u32) as int;
            assert(escape_char(c) == seq!['\\', 'u', '0', '0', hex_digit(n / 16), hex_digit(
                n % 16,
            )]);
            assert(input.len() >= 6);
            assert(input[0] == '\\');
            assert(input[1] == 'u');
            assert(input[2] == '0');
            assert(input[3] == '0');
            assert(input[4] == hex_digit(n / 16));
            assert(input[5] == hex_digit(n % 16));
            assert(hex_val('0') == 0);
            assert(0 <= n / 16 < 16);
            assert(0 <= n % 16 < 16);
            lemma_hex_digit_val(n / 16);
            lemma_hex_digit_val(n % 16);
            let h = hex_val(input[2]) * 4096 + hex_val(input[3]) * 256 + hex_val(input[4]) * 16
                + hex_val(input[5]);
            assert(h == (n / 16) * 16 + n % 16);
            assert(h == n) by (nonlinear_arith)
                requires
                    h == (n / 16) * 16 + n % 16,
                    n >= 0,
            ;
            assert((h as u32) == c as u32);
            vstd::utf8::char_u32_cast(c, h as u32);
            assert(input.skip(6) =~= tail);
            assert(seq![(h as u32) as char] + s1 =~= s);
        } else {
            assert(escape_char(c) == seq![c]);
            assert(input[0] == c);
            assert(c != '"');
            assert(c != '\\');
            assert(input.drop_first() =~= tail);
        }
    }
}

/// The media type a record tail denotes, when the rest of the input is
/// exactly that tail.
pub open spec fn p_media_tail(s: Seq<char>) -> Option<MediaType> {
    if s == mt_str(MediaType::Audio) + lit_tail() {
        Some(MediaType::Audio)
    } else if s == mt_str(MediaType::Video) + lit_tail() {
        Some(MediaType::Video)
    } else if s == mt_str(MediaType::Playlist) + lit_tail() {
        Some(MediaType::Playlist)
    } else {
        None
    }
}

/// Parse from the title key on, the path value already in hand.
pub open spec fn p_from_title(s2: Seq<char>, path: Seq<char>) -> Option<TrackView> {
    match p_lit(s2, lit_title()) {
        None => None,
        Some(s3) => match p_string(s3) {
            None => None,
            Some((title, s4)) => p_from_artist(s4, path, title),
        },
    }
}

/// Parse from the artist key on.
pub open spec fn p_from_artist(s4: Seq<char>, path: Seq<char>, title: Seq<char>) -> Option<
    TrackView,
> {
    match p_lit(s4, lit_artist()) {
        None => None,
        Some(s5) => match p_string(s5) {
            None => None,
            Some((artist, s6)) => p_from_album(s6, path, title, artist),
        },
    }
}

/// Parse from the album key on.
pub open spec fn p_from_album(
    s6: Seq<char>,
    path: Seq<char>,
    title: Seq<char>,
    artist: Seq<char>,
) -> Option<TrackView> {
    match p_lit(s6, lit_album()) {
        None => None,
        Some(s7) => match p_string(s7) {
            None => None,
            Some((album, s8)) => p_from_genre(s8, path, title, artist, album),
        },
    }
}

/// Parse from the genre key on.
pub open spec fn p_from_genre(
    s8: Seq<char>,
    path: Seq<char>,
    title: Seq<char>,
    artist: Seq<char>,
    album: Seq<char>,
) -> Option<TrackView> {
    match p_lit(s8, lit_genre()) {
        None => None,
        Some(s9) => match p_string(s9) {
            None => None,
            Some((genre, s10)) => p_from_mtime(s10, path, title, artist, album, genre),
        },
    }
}

/// Parse from the mtime key on.
pub open spec fn p_from_mtime(
    s10: Seq<char>,
    path: Seq<char>,
    title: Seq<char>,
    artist: Seq<char>,
    album: Seq<char>,
    genre: Seq<char>,
) -> Option<TrackView> {
    match p_lit(s10, lit_mtime()) {
        None => None,
        Some(s11) => match p_u64(s11) {
            None => None,
            Some((mtime, s12)) => p_from_size(s12, path, title, artist, album, genre, mtime),
        },
    }
}

/// Parse from the size key on.
pub open spec fn p_from_size(
    s12: Seq<char>,
    path: Seq<char>,
    title: Seq<char>,
    artist: Seq<char>,
    album: Seq<char>,
    genre: Seq<char>,
    mtime: u64,
) -> Option<TrackView> {
    match p_lit(s12, lit_size()) {
        None => None,
        Some(s13) => match p_u64(s13) {
            None => None,
            Some((size, s14)) => p_from_media(s14, path, title, artist, album, genre, mtime, size),
        },
    }
}

/// Parse from the media type key on; the tail must close the record exactly.
pub open spec fn p_from_media(
    s14: Seq<char>,
    path: Seq<char>,
    title: Seq<char>,
    artist: Seq<char>,
    album: Seq<char>,
    genre: Seq<char>,
    mtime: u64,
    size: u64,
) -> Option<TrackView> {
    match p_lit(s14, lit_mt()) {
        None => None,
        Some(s15) => match p_media_tail(s15) {
            None => None,
            Some(mt) => Some(
                TrackView { path, title, artist, album, genre, mtime, size, media_type: mt },
            ),
        },
    }
}

/// Parse one whole record line; `None` when the line is not a canonical
/// record.
pub open spec fn p_track(s: Seq<char>) -> Option<TrackView> {
    match p_lit(s, lit_head()) {
        None => None,
        Some(s1) => match p_string(s1) {
            None => None,
            Some((path, s2)) => p_from_title(s2, path),
        },
    }
}

// ---------------------------------------------------------------------------
// The round trip
// ---------------------------------------------------------------------------

/// Parsing inverts serialization: the canonical line for any track parses
/// back to exactly that track, field for field.
#[verifier::rlimit(50)]
pub proof fn lemma_track_round_trip(t: TrackView)
    ensures
        p_track(json_of_track(t)) == Some(t),
{
    lemma_p_lit(lit_head(), rest_path(t));
    lemma_p_string_inverse(t.path, rest_title_key(t));
    lemma_p_lit(lit_title(), rest_title(t));
    lemma_p_string_inverse(t.title, rest_artist_key(t));
    lemma_p_lit(lit_artist(), rest_artist(t));
    lemma_p_string_inverse(t.artist, rest_album_key(t));
    lemma_p_lit(lit_album(), rest_album(t));
    lemma_p_string_inverse(t.album, rest_genre_key(t));
    lemma_p_lit(lit_genre(), rest_genre(t));
    lemma_p_string_inverse(t.genre, rest_mtime_key(t));
    lemma_p_lit(lit_mtime(), rest_mtime(t));
    assert(rest_size_key(t)[0] == ',' && !is_digit(','));
    lemma_p_u64_render(t.mtime, rest_size_key(t));
    lemma_p_lit(lit_size(), rest_size(t));
    assert(rest_media_key(t)[0] == ',');
    lemma_p_u64_render(t.size, rest_media_key(t));
    lemma_p_lit(lit_mt(), rest_media(t));
    lemma_p_media_tail(t.media_type);
    assert(p_from_media(
        rest_media_key(t),
        t.path,
        t.title,
        t.artist,
        t.album,
        t.genre,
        t.mtime,
        t.size,
    ) == Some(t));
    assert(p_from_size(
        rest_size_key(t),
        t.path,
        t.title,
        t.artist,
        t.album,
        t.genre,
        t.mtime,
    ) == Some(t));
    assert(p_from_mtime(rest_mtime_key(t), t.path, t.title, t.artist, t.album, t.genre) == Some(
        t,
    ));
    assert(p_from_genre(rest_genre_key(t), t.path, t.title, t.artist, t.album) == Some(t));
    assert(p_from_album(rest_album_key(t), t.path, t.title, t.artist) == Some(t));
    assert(p_from_artist(rest_artist_key(t), t.path, t.title) == Some(t));
    assert(p_from_title(rest_title_key(t), t.path) == Some(t));
}

// ---------------------------------------------------------------------------
// The serializer, executable
// ---------------------------------------------------------------------------

fn digit_char(d: u64) -> (r: char)
    requires
        d < 10,
    ensures
        r == dchar(d as int),
{
    match d {
        0 => '0',
        1 => '1',
        2 => '2',
        3 => '3',
        4 => '4',
        5 => '5',
        6 => '6',
        7 => '7',
        8 => '8',
        _ => '9',
    }
}

fn hex_char(d: u32) -> (r: char)
    requires
        d < 16,
    ensures
        r == hex_digit(d as int),
{
    match d {
        0 => '0',
        1 => '1',
        2 => '2',
        3 => '3',
        4 => '4',
        5 => '5',
        6 => '6',
        7 => '7',
        8 => '8',
        9 => '9',
        10 => 'a',
        11 => 'b',
        12 => 'c',
        13 => 'd',
        14 => 'e',
        _ => 'f',
    }
}

/// The decimal digits of `n`.
pub fn to_decimal(n: u64) -> (r: Vec<char>)
    ensures
        r@ == render_u64(n),
    decreases n,
{
    if n < 10 {
        let mut r: Vec<char> = Vec::new();
        r.push(digit_char(n));
        proof {
            assert(r@ =~= render_u64(n));
        }
        r
    } else {
        let mut r = to_decimal(n / 10);
        r.push(digit_char(n % 10));
        proof {
            assert(r@ =~= render_u64(n / 10) + seq![dchar((n % 10) as int)]);
        }
        r
    }
}

fn push_escaped(out: &mut Vec<char>, c: char)
    ensures
        final(out)@ == old(out)@ + escape_char(c),
{
    if c == '"' {
        out.push('\\');
        out.push('"');
    } else if c == '\\' {
        out.push('\\');
        out.push('\\');
    } else if c == '\u{8}' {
        out.push('\\');
        out.push('b');
    } else if c == '\t' {
        out.push('\\');
        out.push('t');
    } else if c == '\n' {
        out.push('\\');
        out.push('n');
    } else if c == '\u{c}' {
        out.push('\\');
        out.push('f');
    } else if c == '\r' {
        out.push('\\');
        out.push('r');
    } else {
        let n = c as u32;
        if n < 0x20 {
            out.push('\\');
            out.push('u');
            out.push('0');
            out.push('0');
            out.push(hex_char(n / 16));
            out.push(hex_char(n % 16));
        } else {
            out.push(c);
        }
    }
    proof {
        assert(final(out)@ =~= old(out)@ + escape_char(c));
    }
}

/// The JSON escape of a whole string body.
pub fn escape_chars(s: &Vec<char>) -> (r: Vec<char>)
    ensures
        r@ == escape_str(s@),
{
    let mut r: Vec<char> = Vec::new();
    let mut i: usize = 0;
    proof {
        assert(s@.subrange(0, 0) =~= Seq::<char>::empty());
    }
    while i < s.len()
        invariant
            0 <= i <= s.len(),
            r@ == escape_str(s@.subrange(0, i as int)),
        decreases s.len() - i,
    {
        proof {
            assert(s@.subrange(0, i + 1) =~= s@.subrange(0, i as int).push(s@[i as int]));
            lemma_escape_snoc(s@.subrange(0, i as int), s@[i as int]);
        }
        push_escaped(&mut r, s[i]);
        i += 1;
    }
    proof {
        assert(s@.subrange(0, s.len() as int) =~= s@);
    }
    r
}

/// The concatenation of two character vectors.
pub fn cat(a: Vec<char>, b: &Vec<char>) -> (r: Vec<char>)
    ensures
        r@ == a@ + b@,
{
    let mut r = a;
    let mut i: usize = 0;
    while i < b.len()
        invariant
            0 <= i <= b.len(),
            r@ == a@ + b@.subrange(0, i as int),
        decreases b.len() - i,
    {
        r.push(b[i]);
        proof {
            assert(r@ =~= a@ + b@.subrange(0, i + 1));
        }
        i += 1;
    }
    proof {
        assert(a@ + b@.subrange(0, b.len() as int) =~= a@ + b@);
    }
    r
}

fn lit_vec(s: &str, Ghost(expected): Ghost<Seq<char>>) -> (r: Vec<char>)
    requires
        s@ == expected,
    ensures
        r@ == expected,
{
    chars_of(s)
}

fn quote_vec() -> (r: Vec<char>)
    ensures
        r@ == seq!['"'],
{
    let mut r: Vec<char> = Vec::new();
    r.push('"');
    proof {
        assert(r@ =~= seq!['"']);
    }
    r
}

fn mt_vec(m: MediaType) -> (r: Vec<char>)
    ensures
        r@ == mt_str(m),
{
    match m {
        MediaType::Audio => {
            let r = chars_of("audio");
            proof {
                reveal_strlit("audio");
                assert(r@ =~= mt_str(m));
            }
            r
        },
        MediaType::Video => {
            let r = chars_of("video");
            proof {
                reveal_strlit("video");
                assert(r@ =~= mt_str(m));
            }
            r
        },
        MediaType::Playlist => {
            let r = chars_of("playlist");
            proof {
                reveal_strlit("playlist");
                assert(r@ =~= mt_str(m));
            }
            r
        },
    }
}

/// The canonical JSON line for a track, as characters.
pub fn serialize_track(t: &Track) -> (r: Vec<char>)
    ensures
        r@ == json_of_track(t@),
{
    proof {
        reveal_strlit("{\"path\":\"");
        reveal_strlit(",\"title\":\"");
        reveal_strlit(",\"artist\":\"");
        reveal_strlit(",\"album\":\"");
        reveal_strlit(",\"genre\":\"");
        reveal_strlit(",\"mtime\":");
        reveal_strlit(",\"size\":");
        reveal_strlit(",\"media_type\":\"");
        reveal_strlit("\"}");
        assert("{\"path\":\""@ =~= lit_head());
        assert(",\"title\":\""@ =~= lit_title());
        assert(",\"artist\":\""@ =~= lit_artist());
        assert(",\"album\":\""@ =~= lit_album());
        assert(",\"genre\":\""@ =~= lit_genre());
        assert(",\"mtime\":"@ =~= lit_mtime());
        assert(",\"size\":"@ =~= lit_size());
        assert(",\"media_type\":\""@ =~= lit_mt());
        assert("\"}"@ =~= lit_tail());
    }
    let m15 = cat(mt_vec(t.media_type), &lit_vec("\"}", Ghost(lit_tail())));
    let m14 = cat(lit_vec(",\"media_type\":\"", Ghost(lit_mt())), &m15);
    let m13 = cat(to_decimal(t.size), &m14);
    let m12 = cat(lit_vec(",\"size\":", Ghost(lit_size())), &m13);
    let m11 = cat(to_decimal(t.mtime), &m12);
    let m10 = cat(lit_vec(",\"mtime\":", Ghost(lit_mtime())), &m11);
    let m9 = cat(cat(escape_chars(&chars_of(t.genre.as_str())), &quote_vec()), &m10);
    let m8 = cat(lit_vec(",\"genre\":\"", Ghost(lit_genre())), &m9);
    let m7 = cat(cat(escape_chars(&chars_of(t.album.as_str())), &quote_vec()), &m8);
    let m6 = cat(lit_vec(",\"album\":\"", Ghost(lit_album())), &m7);
    let m5 = cat(cat(escape_chars(&chars_of(t.artist.as_str())), &quote_vec()), &m6);
    let m4 = cat(lit_vec(",\"artist\":\"", Ghost(lit_artist())), &m5);
    let m3 = cat(cat(escape_chars(&chars_of(t.title.as_str())), &quote_vec()), &m4);
    let m2 = cat(lit_vec(",\"title\":\"", Ghost(lit_title())), &m3);
    let m1 = cat(cat(escape_chars(&chars_of(t.path.as_str())), &quote_vec()), &m2);
    let m0 = cat(lit_vec("{\"path\":\"", Ghost(lit_head())), &m1);
    proof {
        assert(m15@ == rest_media(t@));
        assert(m14@ == rest_media_key(t@));
        assert(m13@ == rest_size(t@));
        assert(m12@ == rest_size_key(t@));
        assert(m11@ == rest_mtime(t@));
        assert(m10@ == rest_mtime_key(t@));
        assert(m9@ == rest_genre(t@));
        assert(m8@ == rest_genre_key(t@));
        assert(m7@ == rest_album(t@));
        assert(m6@ == rest_album_key(t@));
        assert(m5@ == rest_artist(t@));
        assert(m4@ == rest_artist_key(t@));
        assert(m3@ == rest_title(t@));
        assert(m2@ == rest_title_key(t@));
        assert(m1@ == rest_path(t@));
    }
    m0
}

/// The canonical JSON line for a track, as a `String`.
pub fn track_to_json(t: &Track) -> (r: String)
    ensures
        r@ == json_of_track(t@),
{
    let v = serialize_track(t);
    string_from_chars(&v)
}

proof fn lemma_p_media_tail(m: MediaType)
    ensures
        p_media_tail(mt_str(m) + lit_tail()) == Some(m),
{
    let a = mt_str(MediaType::Audio) + lit_tail();
    let v = mt_str(MediaType::Video) + lit_tail();
    let p = mt_str(MediaType::Playlist) + lit_tail();
    assert(a[0] == 'a' && v[0] == 'v' && p[0] == 'p');
    assert(a != v && a != p && v != p);
}

// ---------------------------------------------------------------------------
// Shape facts about record lines
// ---------------------------------------------------------------------------

/// Whether `s` is free of newline characters.
pub open spec fn no_nl(s: Seq<char>) -> bool {
    forall|i: int| 0 <= i < s.len() ==> s[i] != '\n'
}

proof fn lemma_no_nl_concat(a: Seq<char>, b: Seq<char>)
    requires
        no_nl(a),
        no_nl(b),
    ensures
        no_nl(a + b),
{
    assert forall|i: int| 0 <= i < (a + b).len() implies (a + b)[i] != '\n' by {
        if i < a.len() {
            assert((a + b)[i] == a[i]);
        } else {
            assert((a + b)[i] == b[i - a.len()]);
        }
    }
}

proof fn lemma_escape_char_no_nl(c: char)
    ensures
        no_nl(escape_char(c)),
{
    if c == '"' || c == '\\' || c == '\u{8}' || c == '\t' || c == '\n' || c == '\u{c}' || c
        == '\r' {
    } else if (c as u32) < 0x20 {
        let n = (c as u32) as int;
        assert(0 <= n / 16 < 16);
        assert(0 <= n % 16 < 16);
        assert(hex_digit(n / 16) != '\n');
        assert(hex_digit(n % 16) != '\n');
    } else {
        assert(c != '\n');
    }
}

proof fn lemma_escape_no_nl(s: Seq<char>)
    ensures
        no_nl(escape_str(s)),
    decreases s.len(),
{
    if s.len() == 0 {
    } else {
        lemma_escape_char_no_nl(s[0]);
        lemma_escape_no_nl(s.drop_first());
        lemma_no_nl_concat(escape_char(s[0]), escape_str(s.drop_first()));
    }
}

proof fn lemma_render_no_nl(n: u64)
    ensures
        no_nl(render_u64(n)),
    decreases n,
{
    if n < 10 {
        assert(dchar(n as int) != '\n');
    } else {
        lemma_render_no_nl(n / 10);
        assert(dchar((n % 10) as int) != '\n');
        lemma_no_nl_concat(render_u64(n / 10), seq![dchar((n % 10) as int)]);
    }
}

/// A record line never holds a newline, starts with an opening brace, and
/// ends with a closing brace, so the line-per-record store format is sound.
pub proof fn lemma_json_line_shape(t: TrackView)
    ensures
        no_nl(json_of_track(t)),
        json_of_track(t).len() > 0,
        json_of_track(t)[0] == '{',
        json_of_track(t)[json_of_track(t).len() - 1] == '}',
{
    lemma_escape_no_nl(t.path);
    lemma_escape_no_nl(t.title);
    lemma_escape_no_nl(t.artist);
    lemma_escape_no_nl(t.album);
    lemma_escape_no_nl(t.genre);
    lemma_render_no_nl(t.mtime);
    lemma_render_no_nl(t.size);
    assert(no_nl(lit_tail()));
    assert(no_nl(mt_str(t.media_type)));
    lemma_no_nl_concat(mt_str(t.media_type), lit_tail());
    assert(no_nl(lit_mt()));
    lemma_no_nl_concat(lit_mt(), rest_media(t));
    lemma_no_nl_concat(render_u64(t.size), rest_media_key(t));
    assert(no_nl(lit_size()));
    lemma_no_nl_concat(lit_size(), rest_size(t));
    lemma_no_nl_concat(render_u64(t.mtime), rest_size_key(t));
    assert(no_nl(lit_mtime()));
    lemma_no_nl_concat(lit_mtime(), rest_mtime(t));
    assert(no_nl(seq!['"']));
    lemma_no_nl_concat(escape_str(t.genre), seq!['"']);
    lemma_no_nl_concat(escape_str(t.genre) + seq!['"'], rest_mtime_key(t));
    assert(no_nl(lit_genre()));
    lemma_no_nl_concat(lit_genre(), rest_genre(t));
    lemma_no_nl_concat(escape_str(t.album), seq!['"']);
    lemma_no_nl_concat(escape_str(t.album) + seq!['"'], rest_genre_key(t));
    assert(no_nl(lit_album()));
    lemma_no_nl_concat(lit_album(), rest_album(t));
    lemma_no_nl_concat(escape_str(t.artist), seq!['"']);
    lemma_no_nl_concat(escape_str(t.artist) + seq!['"'], rest_album_key(t));
    assert(no_nl(lit_artist()));
    lemma_no_nl_concat(lit_artist(), rest_artist(t));
    lemma_no_nl_concat(escape_str(t.title), seq!['"']);
    lemma_no_nl_concat(escape_str(t.title) + seq!['"'], rest_artist_key(t));
    assert(no_nl(lit_title()));
    lemma_no_nl_concat(lit_title(), rest_title(t));
    lemma_no_nl_concat(escape_str(t.path), seq!['"']);
    lemma_no_nl_concat(escape_str(t.path) + seq!['"'], rest_title_key(t));
    assert(no_nl(lit_head()));
    lemma_no_nl_concat(lit_head(), rest_path(t));
    assert(json_of_track(t)[0] == lit_head()[0]);
    assert(rest_media(t).len() == mt_str(t.media_type).len() + 2);
    let j = json_of_track(t);
    assert(j[j.len() - 1] == rest_media(t)[rest_media(t).len() - 1]) by {
        lemma_last_of_concat_chain(t);
    }
    assert(rest_media(t)[rest_media(t).len() - 1] == lit_tail()[1]);
}

proof fn lemma_last_of_concat(a: Seq<char>, b: Seq<char>)
    requires
        b.len() > 0,
    ensures
        (a + b)[(a + b).len() - 1] == b[b.len() - 1],
{
}

proof fn lemma_last_of_concat_chain(t: TrackView)
    ensures
        json_of_track(t)[json_of_track(t).len() - 1] == rest_media(t)[rest_media(t).len() - 1],
{
    assert(rest_media(t).len() > 0);
    lemma_last_of_concat(mt_str(t.media_type), lit_tail());
    lemma_last_of_concat(lit_mt(), rest_media(t));
    lemma_last_of_concat(render_u64(t.size), rest_media_key(t));
    lemma_last_of_concat(lit_size(), rest_size(t));
    lemma_last_of_concat(render_u64(t.mtime), rest_size_key(t));
    lemma_last_of_concat(lit_mtime(), rest_mtime(t));
    lemma_last_of_concat(escape_str(t.genre) + seq!['"'], rest_mtime_key(t));
    lemma_last_of_concat(lit_genre(), rest_genre(t));
    lemma_last_of_concat(escape_str(t.album) + seq!['"'], rest_genre_key(t));
    lemma_last_of_concat(lit_album(), rest_album(t));
    lemma_last_of_concat(escape_str(t.artist) + seq!['"'], rest_album_key(t));
    lemma_last_of_concat(lit_artist(), rest_artist(t));
    lemma_last_of_concat(escape_str(t.title) + seq!['"'], rest_artist_key(t));
    lemma_last_of_concat(lit_title(), rest_title(t));
    lemma_last_of_concat(escape_str(t.path) + seq!['"'], rest_title_key(t));
    lemma_last_of_concat(lit_head(), rest_path(t));
}

// ---------------------------------------------------------------------------
// The parser, executable
// ---------------------------------------------------------------------------

fn pe_lit(line: &Vec<char>, start: usize, lit: &Vec<char>) -> (r: Option<usize>)
    requires
        start <= line.len(),
    ensures
        match r {
            Some(j) => start <= j <= line.len() && p_lit(line@.skip(start as int), lit@) == Some(
                line@.skip(j as int),
            ),
            None => p_lit(line@.skip(start as int), lit@) is None,
        },
{
    let ghost s = line@.skip(start as int);
    if lit.len() > line.len() - start {
        return None;
    }
    let mut k: usize = 0;
    while k < lit.len()
        invariant
            0 <= k <= lit.len(),
            start + lit.len() <= line.len(),
            s == line@.skip(start as int),
            forall|j: int| 0 <= j < k ==> line@[start + j] == lit@[j],
        decreases lit.len() - k,
    {
        if line[start + k] != lit[k] {
            proof {
                assert(s.take(lit@.len() as int)[k as int] == s[k as int]);
                assert(s[k as int] == line@[start + k]);
                assert(s.take(lit@.len() as int)[k as int] != lit@[k as int]);
            }
            return None;
        }
        k += 1;
    }
    proof {
        assert(s.take(lit@.len() as int) =~= lit@);
        assert(s.skip(lit@.len() as int) =~= line@.skip(start + lit@.len()));
    }
    Some(start + lit.len())
}

fn hex_val_exec(c: char) -> (r: Option<u32>)
    ensures
        match r {
            Some(v) => hex_val(c) == v && v < 16,
            None => hex_val(c) < 0,
        },
{
    let n = c as u32;
    if 48 <= n && n <= 57 {
        Some(n - 48)
    } else if 97 <= n && n <= 102 {
        Some(n - 97 + 10)
    } else if 65 <= n && n <= 70 {
        Some(n - 65 + 10)
    } else {
        None
    }
}

fn unescape_exec(e: char) -> (r: Option<char>)
    ensures
        r == unescape_char(e),
{
    if e == '"' {
        Some('"')
    } else if e == '\\' {
        Some('\\')
    } else if e == '/' {
        Some('/')
    } else if e == 'b' {
        Some('\u{8}')
    } else if e == 'f' {
        Some('\u{c}')
    } else if e == 'n' {
        Some('\n')
    } else if e == 'r' {
        Some('\r')
    } else if e == 't' {
        Some('\t')
    } else {
        None
    }
}

/// How the string parse of the whole suffix at `orig` relates to the parse of
/// the current suffix, given the body decoded so far.
spec fn string_step(orig: Seq<char>, acc: Seq<char>, cur: Seq<char>) -> bool {
    match p_string(cur) {
        Some((v, r)) => p_string(orig) == Some::<(Seq<char>, Seq<char>)>((acc + v, r)),
        None => p_string(orig) is None,
    }
}

#[verifier::rlimit(30)]
fn pe_string(line: &Vec<char>, start: usize) -> (r: Option<(Vec<char>, usize)>)
    requires
        start <= line.len(),
    ensures
        match r {
            Some((v, j)) => start <= j <= line.len() && p_string(line@.skip(start as int)) == Some(
                (v@, line@.skip(j as int)),
            ),
            None => p_string(line@.skip(start as int)) is None,
        },
{
    let ghost orig = line@.skip(start as int);
    let mut acc: Vec<char> = Vec::new();
    let mut i: usize = start;
    proof {
        assert(acc@ =~= Seq::<char>::empty());
        if p_string(orig) is Some {
            let (v, r) = p_string(orig)->Some_0;
            assert(Seq::<char>::empty() + v =~= v);
        }
    }
    loop
        invariant
            start <= i <= line.len(),
            orig == line@.skip(start as int),
            string_step(orig, acc@, line@.skip(i as int)),
        decreases line.len() - i,
    {
        let ghost cur = line@.skip(i as int);
        if i == line.len() {
            proof {
                assert(cur.len() == 0);
            }
            return None;
        }
        let c = line[i];
        proof {
            assert(cur[0] == line@[i as int]);
        }
        if c == '"' {
            proof {
                assert(cur.drop_first() =~= line@.skip(i + 1));
                assert(p_string(cur) == Some::<(Seq<char>, Seq<char>)>(
                    (Seq::empty(), line@.skip(i + 1)),
                ));
                assert(acc@ + Seq::<char>::empty() =~= acc@);
            }
            return Some((acc, i + 1));
        } else if c == '\\' {
            if line.len() - i < 2 {
                proof {
                    assert(cur.len() < 2);
                }
                return None;
            }
            let e = line[i + 1];
            proof {
                assert(cur[1] == line@[i + 1]);
            }
            if e == 'u' {
                if line.len() - i < 6 {
                    proof {
                        assert(cur.len() < 6);
                    }
                    return None;
                }
                let h2 = hex_val_exec(line[i + 2]);
                let h3 = hex_val_exec(line[i + 3]);
                let h4 = hex_val_exec(line[i + 4]);
                let h5 = hex_val_exec(line[i + 5]);
                proof {
                    assert(cur[2] == line@[i + 2]);
                    assert(cur[3] == line@[i + 3]);
                    assert(cur[4] == line@[i + 4]);
                    assert(cur[5] == line@[i + 5]);
                }
                match (h2, h3, h4, h5) {
                    (Some(a), Some(b), Some(cc), Some(d)) => {
                        let h: u32 = a * 4096 + b * 256 + cc * 16 + d;
                        if h < 0x20 {
                            let ch = (h as u8) as char;
                            proof {
                                assert(ch as u32 == h);
                                vstd::utf8::char_u32_cast(ch, h);
                                assert(ch == (h as u32) as char);
                                assert(cur.skip(6) =~= line@.skip(i + 6));
                                if p_string(line@.skip(i + 6)) is Some {
                                    let (v, r) = p_string(line@.skip(i + 6))->Some_0;
                                    assert(acc@ + (seq![ch] + v) =~= acc@.push(ch) + v);
                                }
                            }
                            acc.push(ch);
                            i += 6;
                        } else {
                            return None;
                        }
                    },
                    _ => {
                        return None;
                    },
                }
            } else {
                match unescape_exec(e) {
                    Some(ch) => {
                        proof {
                            assert(cur.skip(2) =~= line@.skip(i + 2));
                            if p_string(line@.skip(i + 2)) is Some {
                                let (v, r) = p_string(line@.skip(i + 2))->Some_0;
                                assert(acc@ + (seq![ch] + v) =~= acc@.push(ch) + v);
                            }
                        }
                        acc.push(ch);
                        i += 2;
                    },
                    None => {
                        return None;
                    },
                }
            }
        } else {
            proof {
                assert(cur.drop_first() =~= line@.skip(i + 1));
                if p_string(line@.skip(i + 1)) is Some {
                    let (v, r) = p_string(line@.skip(i + 1))->Some_0;
                    assert(acc@ + (seq![c] + v) =~= acc@.push(c) + v);
                }
            }
            acc.push(c);
            i += 1;
        }
    }
}

fn pe_u64(line: &Vec<char>, start: usize) -> (r: Option<(u64, usize)>)
    requires
        start <= line.len(),
    ensures
        match r {
            Some((v, j)) => start <= j <= line.len() && p_u64(line@.skip(start as int)) == Some(
                (v, line@.skip(j as int)),
            ),
            None => p_u64(line@.skip(start as int)) is None,
        },
{
    let ghost orig = line@.skip(start as int);
    if start == line.len() {
        proof {
            assert(orig.len() == 0);
        }
        return None;
    }
    let c0 = line[start];
    let n0 = c0 as u32;
    proof {
        assert(orig[0] == line@[start as int]);
    }
    if !(48 <= n0 && n0 <= 57) {
        return None;
    }
    let mut acc: u64 = 0;
    let mut i: usize = start;
    loop
        invariant
            start <= i <= line.len(),
            orig == line@.skip(start as int),
            p_digits(orig, 0) == p_digits(line@.skip(i as int), acc),
            p_u64(orig) == p_digits(orig, 0),
        decreases line.len() - i,
    {
        let ghost cur = line@.skip(i as int);
        if i == line.len() {
            proof {
                assert(cur.len() == 0);
                assert(p_digits(cur, acc) == Some::<(u64, Seq<char>)>((acc, cur)));
            }
            return Some((acc, i));
        }
        let c = line[i];
        let n = c as u32;
        proof {
            assert(cur[0] == line@[i as int]);
        }
        if 48 <= n && n <= 57 {
            let d = (n - 48) as u64;
            let wide: u128 = (acc as u128) * 10 + (d as u128);
            if wide > u64::MAX as u128 {
                proof {
                    assert((acc as int) * 10 + dval(cur[0]) > u64::MAX as int);
                    assert(p_digits(cur, acc) is None);
                }
                return None;
            }
            proof {
                assert((acc as int) * 10 + dval(cur[0]) <= u64::MAX as int);
                assert(cur.drop_first() =~= line@.skip(i + 1));
            }
            acc = (wide as u64);
            i += 1;
        } else {
            proof {
                assert(!is_digit(cur[0]));
                assert(p_digits(cur, acc) == Some::<(u64, Seq<char>)>((acc, cur)));
            }
            return Some((acc, i));
        }
    }
}

fn eq_suffix(line: &Vec<char>, start: usize, tail: &Vec<char>) -> (r: bool)
    requires
        start <= line.len(),
    ensures
        r == (line@.skip(start as int) == tail@),
{
    if line.len() - start != tail.len() {
        return false;
    }
    let mut k: usize = 0;
    while k < tail.len()
        invariant
            0 <= k <= tail.len(),
            start + tail.len() == line.len(),
            forall|j: int| 0 <= j < k ==> line@[start + j] == tail@[j],
        decreases tail.len() - k,
    {
        if line[start + k] != tail[k] {
            proof {
                assert(line@.skip(start as int)[k as int] != tail@[k as int]);
            }
            return false;
        }
        k += 1;
    }
    proof {
        assert(line@.skip(start as int) =~= tail@);
    }
    true
}

/// Parse one record line; `None` when the line is not a canonical record.
#[verifier::rlimit(100)]
pub fn parse_track(line: &Vec<char>) -> (r: Option<Track>)
    ensures
        match r {
            Some(t) => p_track(line@) == Some(t@),
            None => p_track(line@) is None,
        },
{
    proof {
        reveal_strlit("{\"path\":\"");
        reveal_strlit(",\"title\":\"");
        reveal_strlit(",\"artist\":\"");
        reveal_strlit(",\"album\":\"");
        reveal_strlit(",\"genre\":\"");
        reveal_strlit(",\"mtime\":");
        reveal_strlit(",\"size\":");
        reveal_strlit(",\"media_type\":\"");
        reveal_strlit("\"}");
        assert("{\"path\":\""@ =~= lit_head());
        assert(",\"title\":\""@ =~= lit_title());
        assert(",\"artist\":\""@ =~= lit_artist());
        assert(",\"album\":\""@ =~= lit_album());
        assert(",\"genre\":\""@ =~= lit_genre());
        assert(",\"mtime\":"@ =~= lit_mtime());
        assert(",\"size\":"@ =~= lit_size());
        assert(",\"media_type\":\""@ =~= lit_mt());
        assert("\"}"@ =~= lit_tail());
        assert(line@.skip(0) =~= line@);
    }
    let j1 = match pe_lit(line, 0, &lit_vec("{\"path\":\"", Ghost(lit_head()))) {
        Some(j) => j,
        None => {
            return None;
        },
    };
    let (path_v, j2) = match pe_string(line, j1) {
        Some(x) => x,
        None => {
            return None;
        },
    };
    let j3 = match pe_lit(line, j2, &lit_vec(",\"title\":\"", Ghost(lit_title()))) {
        Some(j) => j,
        None => {
            return None;
        },
    };
    let (title_v, j4) = match pe_string(line, j3) {
        Some(x) => x,
        None => {
            return None;
        },
    };
    let j5 = match pe_lit(line, j4, &lit_vec(",\"artist\":\"", Ghost(lit_artist()))) {
        Some(j) => j,
        None => {
            return None;
        },
    };
    let (artist_v, j6) = match pe_string(line, j5) {
        Some(x) => x,
        None => {
            return None;
        },
    };
    let j7 = match pe_lit(line, j6, &lit_vec(",\"album\":\"", Ghost(lit_album()))) {
        Some(j) => j,
        None => {
            return None;
        },
    };
    let (album_v, j8) = match pe_string(line, j7) {
        Some(x) => x,
        None => {
            return None;
        },
    };
    let j9 = match pe_lit(line, j8, &lit_vec(",\"genre\":\"", Ghost(lit_genre()))) {
        Some(j) => j,
        None => {
            return None;
        },
    };
    let (genre_v, j10) = match pe_string(line, j9) {
        Some(x) => x,
        None => {
            return None;
        },
    };
    let j11 = match pe_lit(line, j10, &lit_vec(",\"mtime\":", Ghost(lit_mtime()))) {
        Some(j) => j,
        None => {
            return None;
        },
    };
    let (mtime, j12) = match pe_u64(line, j11) {
        Some(x) => x,
        None => {
            return None;
        },
    };
    let j13 = match pe_lit(line, j12, &lit_vec(",\"size\":", Ghost(lit_size()))) {
        Some(j) => j,
        None => {
            return None;
        },
    };
    let (size, j14) = match pe_u64(line, j13) {
        Some(x) => x,
        None => {
            return None;
        },
    };
    let j15 = match pe_lit(line, j14, &lit_vec(",\"media_type\":\"", Ghost(lit_mt()))) {
        Some(j) => j,
        None => {
            return None;
        },
    };
    let media_type = if eq_suffix(line, j15, &cat(mt_vec(MediaType::Audio), &lit_vec("\"}", Ghost(lit_tail())))) {
        MediaType::Audio
    } else if eq_suffix(line, j15, &cat(mt_vec(MediaType::Video), &lit_vec("\"}", Ghost(lit_tail())))) {
        MediaType::Video
    } else if eq_suffix(line, j15, &cat(mt_vec(MediaType::Playlist), &lit_vec("\"}", Ghost(lit_tail())))) {
        MediaType::Playlist
    } else {
        return None;
    };
    let t = Track {
        path: string_from_chars(&path_v),
        title: string_from_chars(&title_v),
        artist: string_from_chars(&artist_v),
        album: string_from_chars(&album_v),
        genre: string_from_chars(&genre_v),
        mtime,
        size,
        media_type,
    };
    Some(t)
}

/// Parse one record line given as a string slice.
pub fn track_from_json(s: &str) -> (r: Option<Track>)
    ensures
        match r {
            Some(t) => p_track(s@) == Some(t@),
            None => p_track(s@) is None,
        },
{
    let v = chars_of(s);
    parse_track(&v)
}

} // verus!
