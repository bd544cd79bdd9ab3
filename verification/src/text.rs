//! Character-level text utilities: whitespace trimming, splitting on
//! separator characters, substring search, and conversions between `String`
//! and `Vec<char>`. Everything here is stated over `Seq<char>` views.

use vstd::prelude::*;
use vstd::string::StrSliceExecFns;

verus! {

/// The characters with the Unicode `White_Space` property, the set that
/// `str::trim` strips.
pub open spec fn is_white(c: char) -> bool {
    let n = c as u32;
    n == 0x20 || (0x09 <= n && n <= 0x0d) || n == 0x85 || n == 0xa0 || n == 0x1680 || (0x2000 <= n
        && n <= 0x200a) || n == 0x2028 || n == 0x2029 || n == 0x202f || n == 0x205f || n == 0x3000
}

/// Whitespace test, equivalent to `char::is_whitespace`.
pub fn char_is_white(c: char) -> (r: bool)
    ensures
        r == is_white(c),
{
    let n = c as u32;
    n == 0x20 || (0x09 <= n && n <= 0x0d) || n == 0x85 || n == 0xa0 || n == 0x1680 || (0x2000 <= n
        && n <= 0x200a) || n == 0x2028 || n == 0x2029 || n == 0x202f || n == 0x205f || n == 0x3000
}

/// What remains of `s` once leading whitespace is dropped.
pub open spec fn trim_front(s: Seq<char>) -> Seq<char>
    decreases s.len(),
{
    if s.len() == 0 {
        s
    } else if is_white(s[0]) {
        trim_front(s.drop_first())
    } else {
        s
    }
}

/// What remains of `s` once trailing whitespace is dropped.
pub open spec fn trim_back(s: Seq<char>) -> Seq<char>
    decreases s.len(),
{
    if s.len() == 0 {
        s
    } else if is_white(s[s.len() - 1]) {
        trim_back(s.drop_last())
    } else {
        s
    }
}

/// `s` with both leading and trailing whitespace dropped, as `str::trim`.
pub open spec fn trim(s: Seq<char>) -> Seq<char> {
    trim_back(trim_front(s))
}

proof fn lemma_trim_front_skip(s: Seq<char>, k: int)
    requires
        0 <= k <= s.len(),
        forall|j: int| 0 <= j < k ==> is_white(s[j]),
        k < s.len() ==> !is_white(s[k]),
    ensures
        trim_front(s) == s.skip(k),
    decreases k,
{
    if k == 0 {
        if s.len() == 0 {
            assert(trim_front(s) == s);
            assert(s.skip(0) == s);
        } else {
            assert(!is_white(s[0]));
            assert(s.skip(0) == s);
        }
    } else {
        assert(is_white(s[0]));
        lemma_trim_front_skip(s.drop_first(), k - 1);
        assert(s.drop_first().skip(k - 1) == s.skip(k));
    }
}

proof fn lemma_trim_back_take(s: Seq<char>, m: int)
    requires
        0 <= m <= s.len(),
        forall|j: int| m <= j < s.len() ==> is_white(s[j]),
        m > 0 ==> !is_white(s[m - 1]),
    ensures
        trim_back(s) == s.take(m),
    decreases s.len() - m,
{
    if m == s.len() as int {
        if s.len() == 0 {
            assert(s.take(m) == s);
        } else if is_white(s[s.len() - 1]) {
            lemma_trim_back_take(s.drop_last(), m - 1);
            assert(s.drop_last().take(m - 1) == s.take(m - 1));
            assert(s.take(m - 1) == s.take(m)) by {
                assert(s.take(m) == s);
                assert(s.take(m - 1) =~= s);
            }
        } else {
            assert(s.take(m) =~= s);
        }
    } else {
        assert(is_white(s[s.len() - 1]));
        lemma_trim_back_take(s.drop_last(), m);
        assert(s.drop_last().take(m) =~= s.take(m));
    }
}

/// Trim whitespace from both ends of a character vector.
pub fn trim_chars(v: &Vec<char>) -> (r: Vec<char>)
    ensures
        r@ == trim(v@),
{
    let n = v.len();
    let mut start: usize = 0;
    while start < n && char_is_white(v[start])
        invariant
            0 <= start <= n,
            n == v.len(),
            forall|j: int| 0 <= j < start ==> is_white(v@[j]),
        decreases n - start,
    {
        start += 1;
    }
    proof {
        lemma_trim_front_skip(v@, start as int);
    }
    let mut end: usize = n;
    while end > start && char_is_white(v[end - 1])
        invariant
            start <= end <= n,
            n == v.len(),
            forall|j: int| end <= j < n ==> is_white(v@[j]),
        decreases end,
    {
        end -= 1;
    }
    let ghost front = v@.skip(start as int);
    proof {
        if end == start {
            lemma_trim_back_take(front, 0);
        } else {
            lemma_trim_back_take(front, end - start);
        }
    }
    let mut r: Vec<char> = Vec::new();
    let mut i: usize = start;
    while i < end
        invariant
            start <= i <= end <= n,
            n == v.len(),
            r@ == v@.subrange(start as int, i as int),
        decreases end - i,
    {
        r.push(v[i]);
        proof {
            assert(r@ =~= v@.subrange(start as int, i + 1));
        }
        i += 1;
    }
    proof {
        assert(front.take(end - start as int) =~= v@.subrange(start as int, end as int));
    }
    r
}

/// Whether every character of `s` is whitespace; such a record line or tag
/// value counts as blank.
pub open spec fn is_blank(s: Seq<char>) -> bool {
    trim(s).len() == 0
}

/// Blankness test for a character vector.
pub fn chars_blank(v: &Vec<char>) -> (r: bool)
    ensures
        r == is_blank(v@),
{
    let t = trim_chars(v);
    t.len() == 0
}

/// The characters of a string slice, in order.
pub fn chars_of(s: &str) -> (r: Vec<char>)
    ensures
        r@ == s@,
{
    let n = s.unicode_len();
    let mut r: Vec<char> = Vec::new();
    let mut i: usize = 0;
    while i < n
        invariant
            0 <= i <= n,
            n == s@.len(),
            r@ == s@.subrange(0, i as int),
        decreases n - i,
    {
        let c = s.get_char(i);
        r.push(c);
        proof {
            assert(r@ =~= s@.subrange(0, i + 1));
        }
        i += 1;
    }
    proof {
        assert(s@.subrange(0, n as int) =~= s@);
    }
    r
}

/// The first `n` characters of `v`.
pub fn prefix_chars(v: &Vec<char>, n: usize) -> (r: Vec<char>)
    requires
        n <= v.len(),
    ensures
        r@ == v@.subrange(0, n as int),
{
    let mut r: Vec<char> = Vec::new();
    let mut i: usize = 0;
    while i < n
        invariant
            0 <= i <= n <= v.len(),
            r@ == v@.subrange(0, i as int),
        decreases n - i,
    {
        r.push(v[i]);
        proof {
            assert(r@ =~= v@.subrange(0, i + 1));
        }
        i += 1;
    }
    r
}

/// Relies on `String::push`: appends exactly the given character.
#[verifier::external_body]
pub fn push_char(s: &mut String, c: char)
    ensures
        final(s)@ == old(s)@.push(c),
{
    s.push(c);
}

/// Build a `String` holding exactly the given characters.
pub fn string_from_chars(v: &Vec<char>) -> (r: String)
    ensures
        r@ == v@,
{
    let mut r = String::new();
    let mut i: usize = 0;
    while i < v.len()
        invariant
            0 <= i <= v.len(),
            r@ == v@.subrange(0, i as int),
        decreases v.len() - i,
    {
        push_char(&mut r, v[i]);
        proof {
            assert(r@ =~= v@.subrange(0, i + 1));
        }
        i += 1;
    }
    proof {
        assert(v@.subrange(0, v.len() as int) =~= v@);
    }
    r
}

/// The lowercase form of a character sequence, as `str::to_lowercase`
/// computes it. The mapping depends on the characters alone.
pub uninterp spec fn lower_of(s: Seq<char>) -> Seq<char>;

/// Relies on `str::to_lowercase`: the result is a function of the input
/// characters alone, and an empty input stays empty.
#[verifier::external_body]
pub fn to_lower(s: &str) -> (r: String)
    ensures
        r@ == lower_of(s@),
        s@.len() == 0 ==> r@.len() == 0,
{
    s.to_lowercase()
}

/// Equality of two character vectors.
pub fn chars_eq(a: &Vec<char>, b: &Vec<char>) -> (r: bool)
    ensures
        r == (a@ == b@),
{
    if a.len() != b.len() {
        return false;
    }
    let mut i: usize = 0;
    while i < a.len()
        invariant
            0 <= i <= a.len(),
            a.len() == b.len(),
            forall|j: int| 0 <= j < i ==> a@[j] == b@[j],
        decreases a.len() - i,
    {
        if a[i] != b[i] {
            return false;
        }
        i += 1;
    }
    proof {
        assert(a@ =~= b@);
    }
    true
}

/// The pieces of `s` between separator characters, in order. As with
/// `str::split`, adjacent separators and separators at either end yield empty
/// pieces, and an empty input yields one empty piece.
pub open spec fn split_by(s: Seq<char>, sep: spec_fn(char) -> bool) -> Seq<Seq<char>>
    decreases s.len(),
{
    if s.len() == 0 {
        seq![Seq::<char>::empty()]
    } else if sep(s[0]) {
        seq![Seq::<char>::empty()] + split_by(s.drop_first(), sep)
    } else {
        let r = split_by(s.drop_first(), sep);
        seq![seq![s[0]] + r[0]] + r.drop_first()
    }
}

/// Splitting always yields at least one piece.
pub proof fn lemma_split_by_nonempty(s: Seq<char>, sep: spec_fn(char) -> bool)
    ensures
        split_by(s, sep).len() >= 1,
    decreases s.len(),
{
    if s.len() != 0 && !sep(s[0]) {
        lemma_split_by_nonempty(s.drop_first(), sep);
    }
}

/// `pieces` with `pre` glued onto the front of its first piece.
pub open spec fn prepend_first(pre: Seq<char>, pieces: Seq<Seq<char>>) -> Seq<Seq<char>> {
    seq![pre + pieces[0]] + pieces.drop_first()
}

proof fn lemma_prepend_first_empty(pieces: Seq<Seq<char>>)
    requires
        pieces.len() >= 1,
    ensures
        prepend_first(Seq::empty(), pieces) == pieces,
{
    assert(Seq::<char>::empty() + pieces[0] =~= pieces[0]);
    assert(prepend_first(Seq::empty(), pieces) =~= pieces);
}

/// Splitting a sequence that begins with a separator-free piece followed by a
/// separator yields that piece, then the split of the remainder.
pub proof fn lemma_split_by_piece(
    piece: Seq<char>,
    tail: Seq<char>,
    sep: spec_fn(char) -> bool,
)
    requires
        forall|i: int| 0 <= i < piece.len() ==> !sep(piece[i]),
    ensures
        split_by(piece + tail, sep) == prepend_first(piece, split_by(tail, sep)),
    decreases piece.len(),
{
    lemma_split_by_nonempty(tail, sep);
    if piece.len() == 0 {
        assert(piece + tail =~= tail);
        lemma_prepend_first_empty(split_by(tail, sep));
    } else {
        let s = piece + tail;
        assert(s.len() > 0);
        assert(s[0] == piece[0]);
        assert(!sep(s[0]));
        assert(s.drop_first() =~= piece.drop_first() + tail);
        lemma_split_by_piece(piece.drop_first(), tail, sep);
        let r = split_by(s.drop_first(), sep);
        let rt = split_by(tail, sep);
        assert(r == prepend_first(piece.drop_first(), rt));
        assert(r[0] == piece.drop_first() + rt[0]);
        assert(r.drop_first() =~= rt.drop_first());
        assert(seq![s[0]] + r[0] =~= piece + rt[0]);
        assert(split_by(s, sep) =~= prepend_first(piece, rt));
    }
}

/// Whether `c` is one of the characters of `seps`.
pub fn char_in(seps: &Vec<char>, c: char) -> (r: bool)
    ensures
        r == seps@.contains(c),
{
    let mut i: usize = 0;
    while i < seps.len()
        invariant
            0 <= i <= seps.len(),
            forall|j: int| 0 <= j < i ==> seps@[j] != c,
        decreases seps.len() - i,
    {
        if seps[i] == c {
            return true;
        }
        i += 1;
    }
    false
}

/// Split `v` at every occurrence of a character of `seps`.
pub fn split_chars(v: &Vec<char>, seps: &Vec<char>) -> (r: Vec<Vec<char>>)
    ensures
        r@.map_values(|p: Vec<char>| p@) == split_by(v@, |c: char| seps@.contains(c)),
{
    let ghost sep = |c: char| seps@.contains(c);
    let mut out: Vec<Vec<char>> = Vec::new();
    let mut cur: Vec<char> = Vec::new();
    let mut i: usize = 0;
    proof {
        assert(v@.skip(0) =~= v@);
        lemma_split_by_nonempty(v@, sep);
        lemma_prepend_first_empty(split_by(v@, sep));
        assert(out@.map_values(|p: Vec<char>| p@) =~= Seq::<Seq<char>>::empty());
        assert(Seq::<Seq<char>>::empty() + split_by(v@, sep) =~= split_by(v@, sep));
    }
    while i < v.len()
        invariant
            0 <= i <= v.len(),
            split_by(v@, sep) == out@.map_values(|p: Vec<char>| p@) + prepend_first(
                cur@,
                split_by(v@.skip(i as int), sep),
            ),
            sep == |c: char| seps@.contains(c),
        decreases v.len() - i,
    {
        let ghost rest = v@.skip(i as int);
        proof {
            assert(rest.len() > 0);
            assert(rest[0] == v@[i as int]);
            assert(rest.drop_first() =~= v@.skip(i + 1));
            lemma_split_by_nonempty(v@.skip(i + 1), sep);
        }
        if char_in(seps, v[i]) {
            proof {
                assert(sep(rest[0]));
                assert(split_by(rest, sep) == seq![Seq::<char>::empty()] + split_by(
                    v@.skip(i + 1),
                    sep,
                ));
                let nxt = split_by(v@.skip(i + 1), sep);
                assert(prepend_first(cur@, split_by(rest, sep)) =~= seq![cur@] + nxt);
                lemma_prepend_first_empty(nxt);
                assert((out@.push(cur)).map_values(|p: Vec<char>| p@) =~= out@.map_values(
                    |p: Vec<char>| p@,
                ).push(cur@));
            }
            out.push(cur);
            cur = Vec::new();
            proof {
                assert(split_by(v@, sep) =~= out@.map_values(|p: Vec<char>| p@) + prepend_first(
                    cur@,
                    split_by(v@.skip(i + 1), sep),
                ));
            }
        } else {
            proof {
                assert(!sep(rest[0]));
                let r = split_by(rest.drop_first(), sep);
                assert(split_by(rest, sep) == seq![seq![rest[0]] + r[0]] + r.drop_first());
                assert(prepend_first(cur@, split_by(rest, sep))[0] =~= cur@.push(v@[i as int])
                    + r[0]);
                assert(prepend_first(cur@, split_by(rest, sep)) =~= prepend_first(
                    cur@.push(v@[i as int]),
                    r,
                ));
            }
            cur.push(v[i]);
        }
        i += 1;
    }
    proof {
        assert(v@.skip(v.len() as int) =~= Seq::<char>::empty());
        assert(split_by(v@.skip(v.len() as int), sep) == seq![Seq::<char>::empty()]);
        assert(prepend_first(cur@, seq![Seq::<char>::empty()]) =~= seq![cur@]);
        assert((out@.push(cur)).map_values(|p: Vec<char>| p@) =~= out@.map_values(
            |p: Vec<char>| p@,
        ).push(cur@));
        assert(out@.map_values(|p: Vec<char>| p@).push(cur@) =~= out@.map_values(
            |p: Vec<char>| p@,
        ) + seq![cur@]);
    }
    out.push(cur);
    out
}

/// The non-blank pieces of `s` between separators, each trimmed.
pub open spec fn split_clean(s: Seq<char>, sep: spec_fn(char) -> bool) -> Seq<Seq<char>> {
    split_by(s, sep).map_values(|p: Seq<char>| trim(p)).filter(|p: Seq<char>| p.len() != 0)
}

/// Split `v` at the characters of `seps`, trim each piece, and drop the
/// pieces that end up empty.
pub fn split_clean_chars(v: &Vec<char>, seps: &Vec<char>) -> (r: Vec<Vec<char>>)
    ensures
        r@.map_values(|p: Vec<char>| p@) == split_clean(v@, |c: char| seps@.contains(c)),
{
    let ghost sep = |c: char| seps@.contains(c);
    let pieces = split_chars(v, seps);
    let ghost pviews = pieces@.map_values(|p: Vec<char>| p@);
    let mut out: Vec<Vec<char>> = Vec::new();
    let mut i: usize = 0;
    proof {
        assert(pviews.subrange(0, 0) =~= Seq::<Seq<char>>::empty());
        reveal(Seq::filter);
        assert(out@.map_values(|p: Vec<char>| p@) =~= pviews.subrange(0, 0).map_values(
            |p: Seq<char>| trim(p),
        ).filter(|p: Seq<char>| p.len() != 0));
    }
    while i < pieces.len()
        invariant
            0 <= i <= pieces.len(),
            pviews == pieces@.map_values(|p: Vec<char>| p@),
            out@.map_values(|p: Vec<char>| p@) == pviews.subrange(0, i as int).map_values(
                |p: Seq<char>| trim(p),
            ).filter(|p: Seq<char>| p.len() != 0),
        decreases pieces.len() - i,
    {
        let t = trim_chars(&pieces[i]);
        proof {
            let nonblank = |p: Seq<char>| p.len() != 0;
            let trimmed = |p: Seq<char>| trim(p);
            let prev = pviews.subrange(0, i as int).map_values(trimmed);
            let next = pviews.subrange(0, i + 1).map_values(trimmed);
            assert(pviews[i as int] == pieces@[i as int]@);
            assert(next =~= prev.push(trim(pviews[i as int])));
            reveal(Seq::filter);
            assert(next.drop_last() =~= prev);
            assert(next.filter(nonblank) == if nonblank(trim(pviews[i as int])) {
                prev.filter(nonblank).push(trim(pviews[i as int]))
            } else {
                prev.filter(nonblank)
            });
        }
        if t.len() != 0 {
            proof {
                assert((out@.push(t)).map_values(|p: Vec<char>| p@) =~= out@.map_values(
                    |p: Vec<char>| p@,
                ).push(t@));
            }
            out.push(t);
        }
        i += 1;
    }
    proof {
        assert(pviews.subrange(0, pieces.len() as int) =~= pviews);
    }
    out
}

/// A sequence whose first character is not whitespace is not blank.
pub proof fn lemma_head_nonwhite_nonblank(s: Seq<char>)
    requires
        s.len() > 0,
        !is_white(s[0]),
    ensures
        !is_blank(s),
{
    assert(trim_front(s) == s);
    lemma_trim_back_head(s);
}

proof fn lemma_trim_back_head(s: Seq<char>)
    requires
        s.len() > 0,
        !is_white(s[0]),
    ensures
        trim_back(s).len() > 0,
    decreases s.len(),
{
    if is_white(s[s.len() - 1]) {
        assert(s.drop_last()[0] == s[0]);
        lemma_trim_back_head(s.drop_last());
    }
}

/// Whether `needle` occurs as a contiguous run inside `hay`, the
/// case-sensitive substring relation behind partial matching.
pub open spec fn contains_seq(hay: Seq<char>, needle: Seq<char>) -> bool {
    exists|i: int|
        0 <= i && i + needle.len() <= hay.len() && #[trigger] hay.subrange(i, i + needle.len())
            == needle
}

/// Substring search: does `needle` occur anywhere in `hay`?
pub fn chars_contain(hay: &Vec<char>, needle: &Vec<char>) -> (r: bool)
    ensures
        r == contains_seq(hay@, needle@),
{
    let m = needle.len();
    let n = hay.len();
    if m > n {
        assert(!contains_seq(hay@, needle@));
        return false;
    }
    let mut i: usize = 0;
    while i <= n - m
        invariant
            m <= n,
            n == hay.len(),
            m == needle.len(),
            0 <= i <= n - m + 1,
            forall|k: int|
                0 <= k < i ==> #[trigger] hay@.subrange(k, k + needle@.len()) != needle@,
        decreases n - m - i + 1,
    {
        let mut j: usize = 0;
        while j < m && hay[i + j] == needle[j]
            invariant
                0 <= j <= m,
                m <= n,
                n == hay.len(),
                m == needle.len(),
                0 <= i <= n - m,
                forall|k: int| 0 <= k < j ==> hay@[i + k] == needle@[k],
            decreases m - j,
        {
            j += 1;
        }
        if j == m {
            proof {
                assert(hay@.subrange(i as int, i + needle@.len()) =~= needle@);
            }
            return true;
        }
        proof {
            assert(hay@[i + j] != needle@[j as int]);
            assert(hay@.subrange(i as int, i + needle@.len()) != needle@) by {
                if hay@.subrange(i as int, i + needle@.len()) == needle@ {
                    assert(hay@.subrange(i as int, i + needle@.len())[j as int] == needle@[
                    j as int]);
                }
            }
        }
        i += 1;
    }
    proof {
        if contains_seq(hay@, needle@) {
            let w = choose|w: int|
                0 <= w && w + needle@.len() <= hay@.len() && #[trigger] hay@.subrange(
                    w,
                    w + needle@.len(),
                ) == needle@;
            assert(w < i);
        }
    }
    false
}

} // verus!
