//! What holds of every scan plan: which files are hashed, and where a RAW
//! companion comes from.

use vstd::prelude::*;
use crate::hash::is_supported_image_path;
use crate::paths::{norm, path_stem};
use crate::raw::{
    companion_from, dir_key, index_of, raw_norm_at, is_planned_raw, is_scannable, is_standalone_raw, path_file_key,
    planned_companion, planned_companions, planned_entries, raw_exts, scannable,
};
use crate::text::lower_seq;

verus! {

/// A member of a filtered sequence is a member of the sequence and meets the
/// filter.
proof fn lemma_filter_member<A>(s: Seq<A>, pred: spec_fn(A) -> bool, x: A)
    requires
        s.filter(pred).contains(x),
    ensures
        s.contains(x),
        pred(x),
{
    s.lemma_filter_contains_rev(pred, x);
    let i = choose|i: int| 0 <= i < s.filter(pred).len() && s.filter(pred)[i] == x;
    s.lemma_filter_pred(pred, i);
}

/// Every file a scan hashes is one of the listed files and a supported
/// image; unless RAW pairing is on, it is not a standalone RAW file.
pub proof fn lemma_planned_entries_are_scannable(
    ps: Seq<Seq<char>>,
    include_raw: bool,
    p: Seq<char>,
)
    requires
        planned_entries(ps, include_raw).contains(p),
    ensures
        ps.contains(p),
        is_supported_image_path(p),
        include_raw || !is_standalone_raw(p),
{
    if include_raw {
        let sc = scannable(ps, true);
        lemma_filter_member(sc, |q: Seq<char>| !is_planned_raw(ps, q), p);
        lemma_filter_member(ps, |q: Seq<char>| is_scannable(q, true), p);
    } else {
        lemma_filter_member(ps, |q: Seq<char>| is_scannable(q, false), p);
    }
}

/// A RAW file paired with an image is never hashed on its own, under this
/// or any other text of its path.
pub proof fn lemma_companions_not_hashed(ps: Seq<Seq<char>>, image: Seq<char>)
    requires
        planned_companions(ps).contains_key(image),
    ensures
        forall|q: Seq<char>| norm(q) == norm(planned_companions(ps)[image]) ==> !#[trigger] planned_entries(ps, true).contains(q),
{
    let r0 = planned_companions(ps)[image];
    assert(raw_norm_at(ps, image) == Some(norm(r0)));
    assert forall|r: Seq<char>| norm(r) == norm(r0) implies !#[trigger] planned_entries(ps, true).contains(r) by {
        assert(is_planned_raw(ps, r));
        if planned_entries(ps, true).contains(r) {
            lemma_filter_member(scannable(ps, true), |q: Seq<char>| !is_planned_raw(ps, q), r);
        }
    }
}

/// Whatever the directory index holds is a listed file, filed under its own
/// directory and its own index key.
proof fn lemma_index_entries(ps: Seq<Seq<char>>, d: Seq<char>, key: Seq<char>)
    requires
        index_of(ps).contains_key(d),
        index_of(ps)[d].contains_key(key),
    ensures
        ps.contains(index_of(ps)[d][key]),
        dir_key(index_of(ps)[d][key]) == Some(d),
        path_file_key(index_of(ps)[d][key]) == Some(key),
    decreases ps.len(),
{
    let prev = index_of(ps.drop_last());
    let p = ps.last();
    let r = index_of(ps)[d][key];
    match (dir_key(p), path_file_key(p)) {
        (Some(pd), Some(pk)) => {
            if pd == d && pk == key {
                assert(r == p);
                assert(ps[ps.len() - 1] == p);
            } else {
                assert(prev.contains_key(d) && prev[d].contains_key(key) && prev[d][key] == r);
                lemma_index_entries(ps.drop_last(), d, key);
                let i = choose|i: int| 0 <= i < ps.drop_last().len() && ps.drop_last()[i] == r;
                assert(ps[i] == r);
            }
        },
        _ => {
            lemma_index_entries(ps.drop_last(), d, key);
            let i = choose|i: int| 0 <= i < ps.drop_last().len() && ps.drop_last()[i] == r;
            assert(ps[i] == r);
        },
    }
}

/// The companion found from position `k` on is the file indexed under the
/// stem and one of the RAW extensions, and is not the image itself.
proof fn lemma_companion_from_found(
    idx: Map<Seq<char>, Seq<char>>,
    image: Seq<char>,
    stem: Seq<char>,
    k: int,
)
    requires
        companion_from(idx, image, stem, k) is Some,
    ensures
        exists|j: int|
            0 <= j < 43 && #[trigger] idx.contains_key(stem + "."@ + raw_exts()[j])
                && idx[stem + "."@ + raw_exts()[j]] == companion_from(idx, image, stem, k).unwrap(),
        norm(companion_from(idx, image, stem, k).unwrap()) != norm(image),
    decreases 43 - k,
{
    let key = stem + "."@ + raw_exts()[k];
    if idx.contains_key(key) && norm(idx[key]) != norm(image) {
    } else {
        lemma_companion_from_found(idx, image, stem, k + 1);
    }
}

/// The RAW companion paired with a listed image is a listed file that is not
/// the image, in the same directory (both compared by their components),
/// whose lowercased name is the image's lowercased stem with a RAW
/// extension.
pub proof fn lemma_companion_shares_directory_and_stem(ps: Seq<Seq<char>>, image: Seq<char>)
    requires
        planned_companion(ps, image) is Some,
    ensures
        ({
            let r = planned_companion(ps, image).unwrap();
            &&& ps.contains(r)
            &&& norm(r) != norm(image)
            &&& dir_key(r) == dir_key(image)
            &&& exists|j: int|
                0 <= j < 43 && path_file_key(r) == Some(
                    lower_seq(path_stem(image).unwrap()) + "."@ + #[trigger] raw_exts()[j],
                )
        }),
{
    let d = dir_key(image).unwrap();
    let idx = index_of(ps)[d];
    let stem = lower_seq(path_stem(image).unwrap());
    let r = planned_companion(ps, image).unwrap();
    lemma_companion_from_found(idx, image, stem, 0);
    let j = choose|j: int|
        0 <= j < 43 && #[trigger] idx.contains_key(stem + "."@ + raw_exts()[j])
            && idx[stem + "."@ + raw_exts()[j]] == r;
    lemma_index_entries(ps, d, stem + "."@ + raw_exts()[j]);
}

} // verus!
