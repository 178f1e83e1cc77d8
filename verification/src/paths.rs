//! Path text manipulation: file names, stems, extensions.
//!
//! Paths are plain character strings here; no filesystem is consulted. The
//! conventions follow the platform's: the file name is everything after the
//! last `/`, and the extension is everything after the last `.` of the file
//! name, provided that dot is not the name's first character.

use vstd::prelude::*;

verus! {

/// The greatest index at which `c` occurs in `s`, or `-1` if it does not.
pub open spec fn last_pos(s: Seq<char>, c: char) -> int
    decreases s.len(),
{
    if s.len() == 0 {
        -1
    } else if s.last() == c {
        s.len() - 1
    } else {
        last_pos(s.drop_last(), c)
    }
}

/// What `last_pos` returns: the index of the last occurrence, or `-1` when
/// there is none.
pub proof fn lemma_last_pos_ensures(s: Seq<char>, c: char)
    ensures
        -1 <= last_pos(s, c) < s.len(),
        last_pos(s, c) >= 0 ==> s[last_pos(s, c)] == c,
        forall|j: int| last_pos(s, c) < j < s.len() ==> s[j] != c,
    decreases s.len(),
{
    if s.len() > 0 && s.last() != c {
        lemma_last_pos_ensures(s.drop_last(), c);
        assert(forall|j: int| 0 <= j < s.len() - 1 ==> s[j] == s.drop_last()[j]);
    }
}

/// An occurrence with nothing after it is the last one.
pub proof fn lemma_last_pos_from_witness(s: Seq<char>, c: char, i: int)
    requires
        0 <= i < s.len(),
        s[i] == c,
        forall|j: int| i < j < s.len() ==> s[j] != c,
    ensures
        last_pos(s, c) == i,
{
    lemma_last_pos_ensures(s, c);
    if last_pos(s, c) < i {
        assert(s[i] != c);
    }
    if last_pos(s, c) > i {
        assert(s[last_pos(s, c)] != c);
    }
}

/// A character that occurs nowhere has no last occurrence.
pub proof fn lemma_last_pos_absent(s: Seq<char>, c: char)
    requires
        forall|j: int| 0 <= j < s.len() ==> s[j] != c,
    ensures
        last_pos(s, c) == -1,
{
    lemma_last_pos_ensures(s, c);
    if last_pos(s, c) >= 0 {
        assert(s[last_pos(s, c)] != c);
    }
}

/// Appending one character either becomes the last occurrence or leaves it.
pub proof fn lemma_last_pos_push(s: Seq<char>, c: char, x: char)
    ensures
        last_pos(s.push(x), c) == if x == c {
            s.len() as int
        } else {
            last_pos(s, c)
        },
{
    assert(s.push(x).last() == x);
    assert(s.push(x).drop_last() =~= s);
}

/// Finds the last occurrence of a character in a string.
pub fn find_last(s: &str, c: char) -> (r: Option<usize>)
    ensures
        match r {
            Some(i) => i as int == last_pos(s@, c),
            None => last_pos(s@, c) == -1,
        },
{
    proof {
        lemma_last_pos_ensures(s@, c);
    }
    let n: usize = s.unicode_len();
    let mut j: usize = n;
    while j > 0
        invariant
            n == s@.len(),
            0 <= j <= n,
            forall|k: int| j <= k < n ==> s@[k] != c,
            -1 <= last_pos(s@, c) < s@.len(),
            last_pos(s@, c) >= 0 ==> s@[last_pos(s@, c)] == c,
            forall|k: int| last_pos(s@, c) < k < s@.len() ==> s@[k] != c,
        decreases j,
    {
        if s.get_char(j - 1) == c {
            proof {
                // no later occurrence, and an occurrence here: this is the last
                assert(last_pos(s@, c) >= j - 1);
                assert(last_pos(s@, c) <= j - 1);
            }
            return Some(j - 1);
        }
        j = j - 1;
    }
    proof {
        assert(last_pos(s@, c) == -1);
    }
    None
}

/// The file-name portion of a path: everything after the last `/`, or the
/// whole path when it has no `/`.
pub open spec fn file_name_chars(p: Seq<char>) -> Seq<char> {
    p.skip(last_pos(p, '/') + 1)
}

/// The index of the dot that separates the file name from its extension, or
/// `-1` when the name has no extension. The dot counts only if it lies inside
/// the file name and is not the name's first character.
pub open spec fn ext_split_pos(p: Seq<char>) -> int {
    let name_start = last_pos(p, '/') + 1;
    let dot = last_pos(p, '.');
    if dot > name_start {
        dot
    } else {
        -1
    }
}

/// The extension of the path's file name, when it has one.
pub open spec fn ext_of(p: Seq<char>) -> Option<Seq<char>> {
    if ext_split_pos(p) >= 0 {
        Some(p.skip(ext_split_pos(p) + 1))
    } else {
        None
    }
}

/// The stem of the path's file name: the file name with its extension and the
/// separating dot removed.
pub open spec fn stem_of(p: Seq<char>) -> Seq<char> {
    let name_start = last_pos(p, '/') + 1;
    if ext_split_pos(p) >= 0 {
        p.subrange(name_start, ext_split_pos(p))
    } else {
        p.skip(name_start)
    }
}

/// The path with its extension replaced by `e` (or with `.e` appended when it
/// has none).
pub open spec fn with_ext_chars(p: Seq<char>, e: Seq<char>) -> Seq<char> {
    if ext_split_pos(p) >= 0 {
        p.take(ext_split_pos(p)) + seq!['.'] + e
    } else {
        p + seq!['.'] + e
    }
}

/// Finds the extension separator of a path, as `ext_split_pos` defines it.
fn find_ext_split(path: &str) -> (r: Option<usize>)
    ensures
        match r {
            Some(i) => i as int == ext_split_pos(path@),
            None => ext_split_pos(path@) == -1,
        },
{
    // the length bounds the index of any occurrence, so `i + 1` fits
    let _len: usize = path.unicode_len();
    proof {
        lemma_last_pos_ensures(path@, '/');
    }
    let name_start: usize = match find_last(path, '/') {
        Some(i) => i + 1,
        None => 0,
    };
    match find_last(path, '.') {
        Some(d) => if d > name_start {
            Some(d)
        } else {
            None
        },
        None => None,
    }
}

/// The extension of the path's file name, when it has one.
pub fn extension_of(path: &str) -> (r: Option<String>)
    ensures
        match r {
            Some(e) => ext_of(path@) == Some(e@),
            None => ext_of(path@) is None,
        },
{
    proof {
        lemma_last_pos_ensures(path@, '/');
        lemma_last_pos_ensures(path@, '.');
    }
    let n: usize = path.unicode_len();
    match find_ext_split(path) {
        Some(d) => Some(String::from_str(path.substring_char(d + 1, n))),
        None => None,
    }
}

/// The stem of the path's file name.
pub fn stem_of_path(path: &str) -> (r: String)
    ensures
        r@ == stem_of(path@),
{
    proof {
        lemma_last_pos_ensures(path@, '/');
        lemma_last_pos_ensures(path@, '.');
    }
    let n: usize = path.unicode_len();
    let name_start: usize = match find_last(path, '/') {
        Some(i) => i + 1,
        None => 0,
    };
    match find_ext_split(path) {
        Some(d) => String::from_str(path.substring_char(name_start, d)),
        None => String::from_str(path.substring_char(name_start, n)),
    }
}

/// Replaces the extension of a path (or appends one when it has none), as the
/// executor does when it mirrors a primary file's destination for a sidecar.
pub fn with_extension(path: &str, e: &str) -> (r: String)
    ensures
        r@ == with_ext_chars(path@, e@),
{
    proof {
        lemma_last_pos_ensures(path@, '/');
        lemma_last_pos_ensures(path@, '.');
    }
    let n: usize = path.unicode_len();
    let mut s = match find_ext_split(path) {
        Some(d) => String::from_str(path.substring_char(0, d)),
        None => String::from_str(path),
    };
    s.append(".");
    s.append(e);
    proof {
        reveal_strlit(".");
        assert(s@ =~= with_ext_chars(path@, e@));
    }
    s
}

} // verus!
