//! The sidecar policy: which companion files must travel with a primary
//! asset, and which extensions may borrow a sibling's timestamp.

use vstd::prelude::*;

use crate::paths::{
    ext_of, ext_split_pos, extension_of, last_pos, lemma_last_pos_absent, lemma_last_pos_ensures,
    lemma_last_pos_from_witness, lemma_last_pos_push, stem_of, stem_of_path, with_ext_chars,
    with_extension,
};
use crate::text::{seq_views, str_eq};

verus! {

/// The extension of a live still image, the one format whose files are paired
/// with a motion clip.
pub open spec fn live_photo_ext() -> Seq<char> {
    seq!['H', 'E', 'I', 'C']
}

/// The extension of the motion-clip companion of a live photo.
pub open spec fn motion_ext() -> Seq<char> {
    seq!['M', 'O', 'V']
}

/// Whether a file of this extension resolves its timestamp through a sibling
/// when it carries none itself: a slow-motion sidecar, or a motion clip that
/// is usually the companion of a still image.
pub open spec fn proxy_dependent_ext(e: Seq<char>) -> bool {
    e == seq!['A', 'A', 'E'] || e == motion_ext()
}

/// The companions a file of this path must travel with: for a live photo, the
/// same name with the motion-clip extension; for everything else, none.
/// Whether a companion actually exists is checked where it is used, not here.
pub open spec fn companions_spec(p: Seq<char>) -> Seq<Seq<char>> {
    if ext_of(p) == Some(live_photo_ext()) {
        seq![with_ext_chars(p, motion_ext())]
    } else {
        Seq::<Seq<char>>::empty()
    }
}

/// Enumerates the companion paths of a primary file.
pub fn companions_of(path: &str) -> (r: Vec<String>)
    ensures
        seq_views(r@) == companions_spec(path@),
{
    proof {
        reveal_strlit("HEIC");
        reveal_strlit("MOV");
        assert("HEIC"@ =~= live_photo_ext());
        assert("MOV"@ =~= motion_ext());
    }
    let mut r: Vec<String> = Vec::new();
    match extension_of(path) {
        Some(e) => {
            if str_eq(e.as_str(), "HEIC") {
                r.push(with_extension(path, "MOV"));
            }
        },
        None => {},
    }
    proof {
        assert(seq_views(r@) =~= companions_spec(path@));
    }
    r
}

/// Replacing the extension of a path that has one yields a path whose
/// extension is exactly the replacement: a companion path mirrored from its
/// primary always carries the motion-clip extension.
pub proof fn lemma_with_motion_ext_has_ext(p: Seq<char>)
    requires
        ext_of(p) is Some,
    ensures
        ext_of(with_ext_chars(p, motion_ext())) == Some(motion_ext()),
{
    let k = ext_split_pos(p);
    let q = p.take(k);
    let w = with_ext_chars(p, motion_ext());
    lemma_last_pos_ensures(p, '/');
    lemma_last_pos_ensures(p, '.');
    assert(k == last_pos(p, '.'));
    assert(k > last_pos(p, '/') + 1);
    assert(w =~= q.push('.').push('M').push('O').push('V'));
    // the appended dot is the last dot of the companion path
    lemma_last_pos_push(q, '.', '.');
    lemma_last_pos_push(q.push('.'), '.', 'M');
    lemma_last_pos_push(q.push('.').push('M'), '.', 'O');
    lemma_last_pos_push(q.push('.').push('M').push('O'), '.', 'V');
    assert(last_pos(w, '.') == q.len());
    // nothing appended is a slash, so the file-name part keeps its start
    lemma_last_pos_push(q, '/', '.');
    lemma_last_pos_push(q.push('.'), '/', 'M');
    lemma_last_pos_push(q.push('.').push('M'), '/', 'O');
    lemma_last_pos_push(q.push('.').push('M').push('O'), '/', 'V');
    assert(last_pos(w, '/') == last_pos(q, '/'));
    if last_pos(p, '/') >= 0 {
        lemma_last_pos_from_witness(q, '/', last_pos(p, '/'));
    } else {
        lemma_last_pos_absent(q, '/');
    }
    assert(last_pos(q, '/') == last_pos(p, '/'));
    assert(ext_split_pos(w) == q.len());
    assert(w.skip(q.len() as int + 1) =~= motion_ext());
}

/// Every companion path the policy enumerates carries an extension, so the
/// executor can always mirror a destination for it.
pub proof fn lemma_companions_have_extension(p: Seq<char>)
    ensures
        forall|k: int|
            0 <= k < companions_spec(p).len() ==> ext_of(#[trigger] companions_spec(p)[k]) is Some,
{
    if ext_of(p) == Some(live_photo_ext()) {
        lemma_with_motion_ext_has_ext(p);
        assert(companions_spec(p)[0] == with_ext_chars(p, motion_ext()));
    }
}

/// Whether a file with this extension falls back to siblings for its
/// timestamp.
pub fn is_proxy_dependent(ext: &str) -> (r: bool)
    ensures
        r == proxy_dependent_ext(ext@),
{
    proof {
        reveal_strlit("AAE");
        reveal_strlit("MOV");
        assert("AAE"@ =~= seq!['A', 'A', 'E']);
        assert("MOV"@ =~= motion_ext());
    }
    str_eq(ext, "AAE") || str_eq(ext, "MOV")
}

/// Whether `e` can lend its timestamp to `photo`: it shares the stem, and it
/// carries an extension of its own, a different one.
pub open spec fn is_sibling_of(photo: Seq<char>, e: Seq<char>) -> bool {
    &&& stem_of(e) == stem_of(photo)
    &&& ext_of(e) is Some
    &&& ext_of(e) != ext_of(photo)
}

/// Filters a directory listing down to the entries that may lend their
/// timestamp to `photo`, keeping the listing's order.
pub fn sibling_candidates(photo: &str, entries: &Vec<String>) -> (r: Vec<String>)
    ensures
        seq_views(r@) == seq_views(entries@).filter(|e: Seq<char>| is_sibling_of(photo@, e)),
{
    let ghost pred = |e: Seq<char>| is_sibling_of(photo@, e);
    let photo_stem = stem_of_path(photo);
    let photo_ext = extension_of(photo);
    let n: usize = entries.len();
    let mut r: Vec<String> = Vec::new();
    proof {
        reveal(Seq::filter);
        assert(seq_views(entries@).take(0) =~= Seq::<Seq<char>>::empty());
        assert(seq_views(r@) =~= Seq::<Seq<char>>::empty().filter(pred));
    }
    let mut i: usize = 0;
    while i < n
        invariant
            n == entries@.len(),
            0 <= i <= n,
            pred == (|e: Seq<char>| is_sibling_of(photo@, e)),
            photo_stem@ == stem_of(photo@),
            match photo_ext {
                Some(e) => ext_of(photo@) == Some(e@),
                None => ext_of(photo@) is None,
            },
            seq_views(r@) == seq_views(entries@).take(i as int).filter(pred),
        decreases n - i,
    {
        let entry = &entries[i];
        let keep: bool = match extension_of(entry.as_str()) {
            Some(entry_ext) => {
                let same_stem = str_eq(stem_of_path(entry.as_str()).as_str(),
                    photo_stem.as_str());
                let same_ext = match &photo_ext {
                    Some(pe) => str_eq(entry_ext.as_str(), pe.as_str()),
                    None => false,
                };
                same_stem && !same_ext
            },
            None => false,
        };
        proof {
            reveal(Seq::filter);
            assert(keep == pred(entries@[i as int]@));
            assert(seq_views(entries@).take(i + 1).drop_last() =~= seq_views(entries@).take(
                i as int,
            ));
            assert(seq_views(entries@).take(i + 1).last() == entries@[i as int]@);
        }
        if keep {
            r.push(entry.clone());
            proof {
                reveal(Seq::filter);
                assert(seq_views(r@) =~= seq_views(entries@).take(i + 1).filter(pred));
            }
        } else {
            proof {
                reveal(Seq::filter);
                assert(seq_views(r@) =~= seq_views(entries@).take(i + 1).filter(pred));
            }
        }
        i = i + 1;
    }
    proof {
        assert(seq_views(entries@).take(n as int) =~= seq_views(entries@));
    }
    r
}

} // verus!
