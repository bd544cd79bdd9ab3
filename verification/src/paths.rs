//! Path-string helpers: file name, extension, stem and parent directory of a
//! slash-separated path. A file's extension is what follows the last dot of
//! its name, unless that dot is the name's first character.

use vstd::prelude::*;

verus! {

/// The suffix of `s` after the last occurrence of `c`; all of `s` when `c`
/// does not occur.
pub open spec fn after_last(s: Seq<char>, c: char) -> Seq<char>
    decreases s.len(),
{
    if !s.contains(c) {
        s
    } else {
        after_last(s.drop_first(), c)
    }
}

proof fn lemma_after_last_none(s: Seq<char>, c: char)
    requires
        forall|j: int| 0 <= j < s.len() ==> s[j] != c,
    ensures
        after_last(s, c) == s,
        !s.contains(c),
{
    if s.contains(c) {
        let w = choose|j: int| 0 <= j < s.len() && s[j] == c;
        assert(s[w] == c);
    }
}

proof fn lemma_after_last_at(s: Seq<char>, c: char, k: int)
    requires
        0 <= k < s.len(),
        s[k] == c,
        forall|j: int| k < j < s.len() ==> s[j] != c,
    ensures
        after_last(s, c) == s.skip(k + 1),
        s.contains(c),
    decreases k,
{
    assert(s.contains(c));
    if k == 0 {
        assert(forall|j: int|
            0 <= j < s.drop_first().len() ==> s.drop_first()[j] == s[j + 1] && s[j + 1] != c);
        lemma_after_last_none(s.drop_first(), c);
        assert(s.drop_first() =~= s.skip(1));
    } else {
        assert(s.drop_first()[k - 1] == c);
        assert(forall|j: int|
            k - 1 < j < s.drop_first().len() ==> #[trigger] s.drop_first()[j] == s[j + 1]);
        lemma_after_last_at(s.drop_first(), c, k - 1);
        assert(s.drop_first().skip(k) =~= s.skip(k + 1));
    }
}

/// The last component of a path: everything after the last slash.
pub open spec fn file_name_of(path: Seq<char>) -> Seq<char> {
    after_last(path, '/')
}

/// Whether the name has an extension: a dot somewhere after its first
/// character.
pub open spec fn name_has_ext(name: Seq<char>) -> bool {
    name.contains('.') && after_last(name, '.').len() + 1 < name.len()
}

/// The extension of a path's file name, without the dot.
pub open spec fn extension_of(path: Seq<char>) -> Option<Seq<char>> {
    let name = file_name_of(path);
    if name_has_ext(name) {
        Some(after_last(name, '.'))
    } else {
        None
    }
}

/// The file name without its extension.
pub open spec fn stem_of(path: Seq<char>) -> Seq<char> {
    let name = file_name_of(path);
    if name_has_ext(name) {
        name.take(name.len() - after_last(name, '.').len() - 1)
    } else {
        name
    }
}

/// The directory part of a path: everything before the last slash; `None`
/// when the path has no slash.
pub open spec fn parent_of(path: Seq<char>) -> Option<Seq<char>> {
    if path.contains('/') {
        Some(path.take(path.len() - file_name_of(path).len() - 1))
    } else {
        None
    }
}

/// The index just past the last occurrence of `c`, or zero when `c` does not
/// occur; `after_last` is the suffix from there.
fn scan_last(v: &Vec<char>, c: char) -> (r: usize)
    ensures
        r <= v.len(),
        after_last(v@, c) == v@.skip(r as int),
        v@.contains(c) <==> (r > 0),
        r > 0 ==> v@[r - 1] == c,
{
    let mut i: usize = v.len();
    while i > 0
        invariant
            0 <= i <= v.len(),
            forall|j: int| i <= j < v.len() ==> v@[j] != c,
        decreases i,
    {
        if v[i - 1] == c {
            proof {
                lemma_after_last_at(v@, c, i - 1);
            }
            return i;
        }
        i -= 1;
    }
    proof {
        lemma_after_last_none(v@, c);
        assert(v@.skip(0) =~= v@);
    }
    0
}

/// The file name, extension and stem of a path, together: the name after the
/// last slash, and its split at the last meaningful dot.
pub fn split_path(path: &str) -> (r: (Vec<char>, Option<Vec<char>>, Vec<char>))
    ensures
        r.0@ == file_name_of(path@),
        match r.1 {
            Some(e) => extension_of(path@) == Some(e@),
            None => extension_of(path@) is None,
        },
        r.2@ == stem_of(path@),
{
    let chars = crate::text::chars_of(path);
    let s = scan_last(&chars, '/');
    let mut name: Vec<char> = Vec::new();
    let mut i: usize = s;
    while i < chars.len()
        invariant
            s <= i <= chars.len(),
            name@ == chars@.subrange(s as int, i as int),
        decreases chars.len() - i,
    {
        name.push(chars[i]);
        proof {
            assert(name@ =~= chars@.subrange(s as int, i + 1));
        }
        i += 1;
    }
    proof {
        assert(name@ =~= chars@.skip(s as int));
    }
    let d = scan_last(&name, '.');
    if d > 1 {
        let mut ext: Vec<char> = Vec::new();
        let mut k: usize = d;
        while k < name.len()
            invariant
                d <= k <= name.len(),
                ext@ == name@.subrange(d as int, k as int),
            decreases name.len() - k,
        {
            ext.push(name[k]);
            proof {
                assert(ext@ =~= name@.subrange(d as int, k + 1));
            }
            k += 1;
        }
        let stem = crate::text::prefix_chars(&name, d - 1);
        proof {
            assert(ext@ =~= name@.skip(d as int));
            assert(name@.contains('.'));
            assert(after_last(name@, '.').len() == name@.len() - d);
            assert(name_has_ext(name@));
            assert(stem@ == name@.take(d - 1 as int));
        }
        (name, Some(ext), stem)
    } else {
        proof {
            if d == 0 {
                assert(!name@.contains('.'));
                assert(!name_has_ext(name@));
            } else {
                assert(after_last(name@, '.').len() == name@.len() - 1);
                assert(!name_has_ext(name@));
            }
        }
        let stem = crate::text::prefix_chars(&name, name.len());
        proof {
            assert(stem@ =~= name@);
        }
        (name, None, stem)
    }
}

/// The directory part of a path, or `None` for a bare file name.
pub fn parent_dir(path: &str) -> (r: Option<String>)
    ensures
        match r {
            Some(p) => parent_of(path@) == Some(p@),
            None => parent_of(path@) is None,
        },
{
    let chars = crate::text::chars_of(path);
    let s = scan_last(&chars, '/');
    if s == 0 {
        None
    } else {
        let dir = crate::text::prefix_chars(&chars, s - 1);
        proof {
            assert(after_last(chars@, '/').len() == chars@.len() - s);
            assert(dir@ == chars@.take(s - 1 as int));
        }
        Some(crate::text::string_from_chars(&dir))
    }
}

/// The last path component, as a `String`.
pub fn file_name(path: &str) -> (r: String)
    ensures
        r@ == file_name_of(path@),
{
    let chars = crate::text::chars_of(path);
    let s = scan_last(&chars, '/');
    let mut name: Vec<char> = Vec::new();
    let mut i: usize = s;
    while i < chars.len()
        invariant
            s <= i <= chars.len(),
            name@ == chars@.subrange(s as int, i as int),
        decreases chars.len() - i,
    {
        name.push(chars[i]);
        proof {
            assert(name@ =~= chars@.subrange(s as int, i + 1));
        }
        i += 1;
    }
    proof {
        assert(name@ =~= chars@.skip(s as int));
    }
    crate::text::string_from_chars(&name)
}

} // verus!
