//! Duplicate clustering: files with equal content hashes, visually similar
//! files (perceptual hashes within a Hamming threshold, merged transitively),
//! and bursts (shots of one camera within a time window).
//!
//! The detectors run in that order; a file placed in a cluster by one
//! detector is not considered by the later ones.

use vstd::prelude::*;
use vstd::string::*;
use std::collections::HashSet;
use crate::config::ScanConfig;
use crate::hash::{hamming, hamming_distance, lemma_hamming_symmetric};
use crate::text::str_eq;
use crate::types::{DuplicateKind, ExifData};
use crate::unionfind::{
    UnionFind, is_label_partition, labels_valid, merge_labels, singleton_labels, group_view,
};

verus! {

broadcast use vstd::std_specs::hash::group_hash_axioms;

/// A file as clustering sees it.
#[derive(Clone, Debug)]
pub struct FileRecord {
    pub id: i64,
    pub path: String,
    pub size: u64,
    pub width: Option<u32>,
    pub height: Option<u32>,
    pub blake3: Option<String>,
    pub dhash: Option<u64>,
    pub phash: Option<u64>,
    pub exif: Option<ExifData>,
}

/// A group of files one detector considers duplicates of each other.
///
/// Its confidence is `1 - min_distance / distance_scale`: `0/1` (certain)
/// for equal content, `1/4` for bursts, and for visual groups the smallest
/// Hamming distance within the group over the threshold (at least one).
#[derive(Clone, Debug)]
pub struct DuplicateCluster {
    pub kind: DuplicateKind,
    pub min_distance: u32,
    pub distance_scale: u32,
    pub file_ids: Vec<i64>,
}

/// Kind, confidence parts and member ids of a cluster.
pub type ClusterView = (DuplicateKind, u32, u32, Seq<i64>);

impl View for DuplicateCluster {
    type V = ClusterView;

    open spec fn view(&self) -> ClusterView {
        (self.kind, self.min_distance, self.distance_scale, self.file_ids@)
    }
}

/// Views of a sequence of clusters.
pub open spec fn clusters_view(cs: Seq<DuplicateCluster>) -> Seq<ClusterView> {
    cs.map_values(|c: DuplicateCluster| c@)
}

/// All file ids placed in some cluster.
pub open spec fn cluster_ids(cs: Seq<ClusterView>) -> Set<i64>
    decreases cs.len(),
{
    if cs.len() == 0 {
        Set::empty()
    } else {
        cluster_ids(cs.drop_last()) + cs.last().3.to_set()
    }
}

/// Ids of the files at the given positions.
pub open spec fn ids_at(fs: Seq<FileRecord>, g: Seq<usize>) -> Seq<i64> {
    g.map_values(|i: usize| fs[i as int].id)
}

proof fn lemma_cluster_ids_push(cs: Seq<ClusterView>, c: ClusterView)
    ensures
        cluster_ids(cs.push(c)) == cluster_ids(cs) + c.3.to_set(),
{
    assert(cs.push(c).drop_last() =~= cs);
}

/// Inserts the ids into `used`.
fn mark_used(used: &mut HashSet<i64>, ids: &Vec<i64>)
    ensures
        final(used)@ == old(used)@ + ids@.to_set(),
{
    let mut i: usize = 0;
    while i < ids.len()
        invariant
            i <= ids@.len(),
            used@ == old(used)@ + ids@.take(i as int).to_set(),
        decreases ids@.len() - i,
    {
        used.insert(ids[i]);
        proof {
            assert(ids@.take(i + 1) =~= ids@.take(i as int).push(ids@[i as int]));
            ids@.take(i as int).lemma_push_to_set_commute(ids@[i as int]);
        }
        i = i + 1;
    }
    assert(ids@.take(ids@.len() as int) =~= ids@);
}

/// Ids of the files at the given positions.
fn ids_of(files: &[FileRecord], g: &Vec<usize>) -> (ids: Vec<i64>)
    requires
        forall|k: int| 0 <= k < g@.len() ==> (#[trigger] g@[k] as int) < files@.len(),
    ensures
        ids@ == ids_at(files@, g@),
{
    let mut ids: Vec<i64> = Vec::new();
    let mut k: usize = 0;
    while k < g.len()
        invariant
            k <= g@.len(),
            forall|q: int| 0 <= q < g@.len() ==> (#[trigger] g@[q] as int) < files@.len(),
            ids@ == ids_at(files@, g@.take(k as int)),
        decreases g@.len() - k,
    {
        ids.push(files[g[k]].id);
        assert(ids@ =~= ids_at(files@, g@.take(k + 1)));
        k = k + 1;
    }
    assert(g@.take(g@.len() as int) =~= g@);
    ids
}

// ---------------------------------------------------------------- exact

/// The content hash a file is grouped by, when it takes part in exact
/// grouping: it is not used yet and has a content hash.
pub open spec fn exact_key(fs: Seq<FileRecord>, used: Set<i64>, i: int) -> Option<Seq<char>> {
    if !used.contains(fs[i].id) && fs[i].blake3 is Some {
        Some(fs[i].blake3->0@)
    } else {
        None
    }
}

/// Position of the first group with key `h`, or `-1`.
pub open spec fn key_pos(g: Seq<(Seq<char>, Seq<usize>)>, h: Seq<char>) -> int
    decreases g.len(),
{
    if g.len() == 0 {
        -1
    } else {
        let r = key_pos(g.drop_last(), h);
        if r >= 0 {
            r
        } else if g.last().0 == h {
            g.len() - 1
        } else {
            -1
        }
    }
}

/// Files `0..n` grouped by content hash, groups in order of their first
/// file and files within a group in input order.
pub open spec fn hash_groups(fs: Seq<FileRecord>, used: Set<i64>, n: int) -> Seq<(Seq<char>, Seq<usize>)>
    decreases n,
{
    if n <= 0 {
        Seq::empty()
    } else {
        let g = hash_groups(fs, used, n - 1);
        match exact_key(fs, used, n - 1) {
            None => g,
            Some(h) => {
                let p = key_pos(g, h);
                if p >= 0 {
                    g.update(p, (h, g[p].1.push((n - 1) as usize)))
                } else {
                    g.push((h, seq![(n - 1) as usize]))
                }
            },
        }
    }
}

/// The exact-duplicate cluster of a hash group.
pub open spec fn exact_view(fs: Seq<FileRecord>, g: (Seq<char>, Seq<usize>)) -> ClusterView {
    (DuplicateKind::Exact, 0u32, 1u32, ids_at(fs, g.1))
}

/// Clusters of the hash groups with at least two files.
pub open spec fn exact_views(fs: Seq<FileRecord>, gs: Seq<(Seq<char>, Seq<usize>)>) -> Seq<ClusterView> {
    gs.filter(|g: (Seq<char>, Seq<usize>)| g.1.len() >= 2).map_values(
        |g: (Seq<char>, Seq<usize>)| exact_view(fs, g),
    )
}

/// Exact-duplicate clusters: the hash groups of at least two files.
pub open spec fn exact_clusters(fs: Seq<FileRecord>, used: Set<i64>) -> Seq<ClusterView> {
    exact_views(fs, hash_groups(fs, used, fs.len() as int))
}

proof fn lemma_exact_views_push(fs: Seq<FileRecord>, gs: Seq<(Seq<char>, Seq<usize>)>, x: (Seq<char>, Seq<usize>))
    ensures
        exact_views(fs, gs.push(x)) == (if x.1.len() >= 2 {
            exact_views(fs, gs).push(exact_view(fs, x))
        } else {
            exact_views(fs, gs)
        }),
{
    reveal_with_fuel(Seq::filter, 1);
    assert(gs.push(x).drop_last() =~= gs);
    let f = gs.filter(|g: (Seq<char>, Seq<usize>)| g.1.len() >= 2);
    if x.1.len() >= 2 {
        assert(f.push(x).map_values(|g: (Seq<char>, Seq<usize>)| exact_view(fs, g)) =~= f.map_values(
            |g: (Seq<char>, Seq<usize>)| exact_view(fs, g),
        ).push(exact_view(fs, x)));
    }
}

proof fn lemma_hash_groups_bounds(fs: Seq<FileRecord>, used: Set<i64>, n: int)
    requires
        0 <= n <= fs.len(),
    ensures
        forall|p: int, k: int|
            0 <= p < hash_groups(fs, used, n).len() && 0 <= k < hash_groups(fs, used, n)[p].1.len()
                ==> (#[trigger] hash_groups(fs, used, n)[p].1[k] as int) < n,
    decreases n,
{
    if n > 0 {
        lemma_hash_groups_bounds(fs, used, n - 1);
        let g = hash_groups(fs, used, n - 1);
        match exact_key(fs, used, n - 1) {
            None => {},
            Some(h) => {
                let p = key_pos(g, h);
                lemma_key_pos_range(g, h);
                let g2 = hash_groups(fs, used, n);
                assert forall|q: int, k: int| 0 <= q < g2.len() && 0 <= k < g2[q].1.len()
                    implies (#[trigger] g2[q].1[k] as int) < n by {
                    if p >= 0 && q == p {
                        if k < g[p].1.len() {
                            assert(g2[q].1[k] == g[p].1[k]);
                        }
                    } else if p < 0 && q == g.len() {
                    } else {
                        assert(g2[q] == g[q]);
                    }
                }
            },
        }
    }
}

proof fn lemma_key_pos_prefix(g: Seq<(Seq<char>, Seq<usize>)>, h: Seq<char>, p: int)
    requires
        0 <= p < g.len(),
        key_pos(g.take(p), h) == -1,
        g[p].0 == h,
    ensures
        key_pos(g, h) == p,
    decreases g.len(),
{
    if g.len() == p + 1 {
        assert(g.drop_last() =~= g.take(p));
    } else {
        assert(g.drop_last().take(p) =~= g.take(p));
        lemma_key_pos_prefix(g.drop_last(), h, p);
    }
}

proof fn lemma_key_pos_range(g: Seq<(Seq<char>, Seq<usize>)>, h: Seq<char>)
    ensures
        -1 <= key_pos(g, h) < g.len(),
        key_pos(g, h) >= 0 ==> g[key_pos(g, h)].0 == h,
        key_pos(g, h) < 0 ==> forall|p: int| 0 <= p < g.len() ==> (#[trigger] g[p]).0 != h,
    decreases g.len(),
{
    if g.len() > 0 {
        lemma_key_pos_range(g.drop_last(), h);
        assert forall|p: int| 0 <= p < g.len() - 1 implies (#[trigger] g[p]) == g.drop_last()[p] by {}
    }
}

/// Groups files that share a content hash, in order of first occurrence;
/// each group of two or more files becomes a cluster, and its files are
/// marked used.
fn cluster_exact(files: &[FileRecord], used: &mut HashSet<i64>) -> (cs: Vec<DuplicateCluster>)
    ensures
        clusters_view(cs@) == exact_clusters(files@, old(used)@),
        final(used)@ == old(used)@ + cluster_ids(clusters_view(cs@)),
{
    let ghost fs = files@;
    let ghost u0 = used@;
    let mut keys: Vec<String> = Vec::new();
    let mut members: Vec<Vec<usize>> = Vec::new();
    let mut i: usize = 0;
    while i < files.len()
        invariant
            i <= fs.len(),
            fs == files@,
            used@ == u0,
            keys@.len() == members@.len(),
            keys@.len() == hash_groups(fs, u0, i as int).len(),
            forall|p: int| 0 <= p < keys@.len() ==> (#[trigger] hash_groups(fs, u0, i as int)[p]) == (
            keys@[p]@, members@[p]@),
        decreases fs.len() - i,
    {
        let ghost g0 = hash_groups(fs, u0, i as int);
        let f = &files[i];
        if !used.contains(&f.id) {
            match &f.blake3 {
                Some(h) => {
                    let mut p: usize = 0;
                    let mut found = false;
                    while p < keys.len() && !found
                        invariant
                            p <= keys@.len(),
                            keys@.len() == g0.len(),
                            forall|q: int| 0 <= q < keys@.len() ==> (#[trigger] g0[q]) == (keys@[q]@, members@[q]@),
                            key_pos(g0.take(p as int), h@) == -1,
                            found ==> p < keys@.len() && keys@[p as int]@ == h@,
                        decreases keys@.len() - p + (if found { 0int } else { 1int }),
                    {
                        if str_eq(keys[p].as_str(), h.as_str()) {
                            found = true;
                        } else {
                            proof {
                                assert(g0.take(p + 1).drop_last() =~= g0.take(p as int));
                            }
                            p = p + 1;
                        }
                    }
                    proof {
                        lemma_key_pos_range(g0, h@);
                        if !found {
                            assert(g0.take(keys@.len() as int) =~= g0);
                        } else {
                            lemma_key_pos_prefix(g0, h@, p as int);
                        }
                    }
                    if found {
                        members[p].push(i);
                    } else {
                        keys.push(h.clone());
                        let mut m: Vec<usize> = Vec::new();
                        m.push(i);
                        members.push(m);
                    }
                    proof {
                        let g1 = hash_groups(fs, u0, i + 1);
                        assert(exact_key(fs, u0, i as int) == Some(h@));
                        assert(g1 == (if found {
                            g0.update(p as int, (h@, g0[p as int].1.push(i)))
                        } else {
                            g0.push((h@, seq![i]))
                        }));
                        assert forall|q: int| 0 <= q < keys@.len() implies (#[trigger] g1[q]) == (keys@[q]@, members@[q]@) by {
                            if found && q == p {
                            } else if !found && q == g0.len() {
                                assert(members@[q]@ =~= seq![i]);
                            } else {
                                assert(g1[q] == g0[q]);
                            }
                        }
                    }
                },
                None => {},
            }
        }
        i = i + 1;
    }
    proof {
        lemma_hash_groups_bounds(fs, u0, fs.len() as int);
    }
    let ghost all = hash_groups(fs, u0, fs.len() as int);
    let mut cs: Vec<DuplicateCluster> = Vec::new();
    let mut p: usize = 0;
    while p < members.len()
        invariant
            p <= members@.len(),
            fs == files@,
            members@.len() == all.len(),
            forall|q: int| 0 <= q < members@.len() ==> (#[trigger] all[q]).1 == members@[q]@,
            forall|q: int, k: int| 0 <= q < all.len() && 0 <= k < all[q].1.len() ==> (#[trigger] all[q].1[k] as int) < fs.len(),
            clusters_view(cs@) == exact_views(fs, all.take(p as int)),
            used@ == u0 + cluster_ids(clusters_view(cs@)),
        decreases members@.len() - p,
    {
        proof {
            assert(all.take(p + 1) =~= all.take(p as int).push(all[p as int]));
            lemma_exact_views_push(fs, all.take(p as int), all[p as int]);
        }
        if members[p].len() >= 2 {
            assert(members@[p as int]@ == all[p as int].1);
            let ids = ids_of(files, &members[p]);
            mark_used(used, &ids);
            let c = DuplicateCluster { kind: DuplicateKind::Exact, min_distance: 0, distance_scale: 1, file_ids: ids };
            let ghost cv = c@;
            let ghost cs0 = clusters_view(cs@);
            proof {
                lemma_cluster_ids_push(cs0, cv);
                assert(cv.3 == ids_at(fs, all[p as int].1));
                assert(exact_view(fs, all[p as int]) == cv);
            }
            cs.push(c);
            proof {
                assert(clusters_view(cs@) =~= cs0.push(cv));
            }
        }
        p = p + 1;
    }
    proof {
        assert(all.take(all.len() as int) =~= all);
    }
    cs
}


// ---------------------------------------------------------------- visual

/// Two files may be visual duplicates only when their sizes are equal or
/// both have known, equal dimensions.
pub open spec fn size_compatible(a: FileRecord, b: FileRecord) -> bool {
    a.size == b.size || (a.width is Some && a.height is Some && b.width is Some && b.height is Some
        && a.width == b.width && a.height == b.height)
}

/// Whether two files may be visual duplicates of each other.
pub fn size_dimension_compatible(a: &FileRecord, b: &FileRecord) -> (r: bool)
    ensures
        r == size_compatible(*a, *b),
{
    if a.size == b.size {
        return true;
    }
    match (a.width, a.height, b.width, b.height) {
        (Some(w1), Some(h1), Some(w2), Some(h2)) => w1 == w2 && h1 == h2,
        _ => false,
    }
}

/// A file takes part in visual grouping when it is not used yet and has a
/// perceptual hash.
pub open spec fn visual_candidate(fs: Seq<FileRecord>, used: Set<i64>, i: int) -> bool {
    !used.contains(fs[i].id) && fs[i].phash is Some
}

/// Positions of the files taking part in visual grouping, in input order.
pub open spec fn candidates(fs: Seq<FileRecord>, used: Set<i64>) -> Seq<usize> {
    Seq::new(fs.len(), |i: int| i as usize).filter(|i: usize| visual_candidate(fs, used, i as int))
}

/// Perceptual hash of candidate `p`.
pub open spec fn cand_hash(fs: Seq<FileRecord>, cand: Seq<usize>, p: int) -> u64 {
    fs[cand[p] as int].phash->0
}

/// Candidates `p` and `q` are linked: their perceptual hashes share the top
/// sixteen bits and are within the threshold, and their sizes are compatible.
pub open spec fn visual_edge(fs: Seq<FileRecord>, cand: Seq<usize>, t: u8, p: int, q: int) -> bool {
    &&& (cand_hash(fs, cand, p) >> 48u64) == (cand_hash(fs, cand, q) >> 48u64)
    &&& size_compatible(fs[cand[p] as int], fs[cand[q] as int])
    &&& hamming(cand_hash(fs, cand, p), cand_hash(fs, cand, q)) <= t
}

/// Labels after merging candidate `p` with each linked candidate in `p+1..q`.
pub open spec fn row_labels(l: Seq<int>, fs: Seq<FileRecord>, cand: Seq<usize>, t: u8, p: int, q: int) -> Seq<int>
    decreases q - p,
{
    if q <= p + 1 {
        l
    } else {
        let l2 = row_labels(l, fs, cand, t, p, q - 1);
        if visual_edge(fs, cand, t, p, q - 1) {
            merge_labels(l2, p, q - 1)
        } else {
            l2
        }
    }
}

/// Labels after merging every linked pair whose first candidate is below `p`.
pub open spec fn visual_labels_upto(fs: Seq<FileRecord>, cand: Seq<usize>, t: u8, p: int) -> Seq<int>
    decreases p,
{
    if p <= 0 {
        singleton_labels(cand.len())
    } else {
        row_labels(visual_labels_upto(fs, cand, t, p - 1), fs, cand, t, p - 1, cand.len() as int)
    }
}

/// Labels of the candidates after merging all linked pairs.
pub open spec fn visual_labels(fs: Seq<FileRecord>, cand: Seq<usize>, t: u8) -> Seq<int> {
    visual_labels_upto(fs, cand, t, cand.len() as int)
}

/// Hamming distance between members `i` and `j` of a group of candidates.
pub open spec fn pair_dist(fs: Seq<FileRecord>, cand: Seq<usize>, g: Seq<usize>, i: int, j: int) -> nat {
    hamming(cand_hash(fs, cand, g[i] as int), cand_hash(fs, cand, g[j] as int))
}

/// `d` is the smallest distance between two members of the group, capped
/// at the threshold.
pub open spec fn is_group_min(fs: Seq<FileRecord>, cand: Seq<usize>, g: Seq<usize>, t: u8, d: nat) -> bool {
    &&& d <= t
    &&& forall|i: int, j: int| 0 <= i < j < g.len() ==> d <= #[trigger] pair_dist(fs, cand, g, i, j)
    &&& (d == t || exists|i: int, j: int| 0 <= i < j < g.len() && d == #[trigger] pair_dist(fs, cand, g, i, j))
}

/// The smallest distance between two members of the group, capped at the
/// threshold.
pub open spec fn group_min(fs: Seq<FileRecord>, cand: Seq<usize>, g: Seq<usize>, t: u8) -> nat {
    choose|d: nat| is_group_min(fs, cand, g, t, d)
}

/// The capped smallest distance is unique.
pub proof fn lemma_group_min_unique(fs: Seq<FileRecord>, cand: Seq<usize>, g: Seq<usize>, t: u8, d1: nat, d2: nat)
    requires
        is_group_min(fs, cand, g, t, d1),
        is_group_min(fs, cand, g, t, d2),
    ensures
        d1 == d2,
{
    if d1 != t {
        let (i, j) = choose|i: int, j: int| 0 <= i < j < g.len() && d1 == #[trigger] pair_dist(fs, cand, g, i, j);
        assert(d2 <= pair_dist(fs, cand, g, i, j));
    }
    if d2 != t {
        let (i, j) = choose|i: int, j: int| 0 <= i < j < g.len() && d2 == #[trigger] pair_dist(fs, cand, g, i, j);
        assert(d1 <= pair_dist(fs, cand, g, i, j));
    }
}

/// Candidate positions of a group, as file positions.
pub open spec fn group_files(cand: Seq<usize>, g: Seq<usize>) -> Seq<usize> {
    g.map_values(|m: usize| cand[m as int])
}

/// The visual cluster of a group of candidates.
pub open spec fn visual_view(fs: Seq<FileRecord>, cand: Seq<usize>, t: u8, g: Seq<usize>) -> ClusterView {
    (
        DuplicateKind::Visual,
        group_min(fs, cand, g, t) as u32,
        (if t >= 1 { t as u32 } else { 1u32 }),
        ids_at(fs, group_files(cand, g)),
    )
}

/// Clusters of the groups with at least two members.
pub open spec fn visual_views(fs: Seq<FileRecord>, cand: Seq<usize>, t: u8, gs: Seq<Seq<usize>>) -> Seq<ClusterView> {
    gs.filter(|g: Seq<usize>| g.len() >= 2).map_values(|g: Seq<usize>| visual_view(fs, cand, t, g))
}

/// Visual clusters: the candidates are merged along linked pairs, and
/// each resulting set of two or more becomes a cluster, sets in order of
/// their first candidate and members in input order.
pub open spec fn visual_ok(fs: Seq<FileRecord>, used: Set<i64>, t: u8, cs: Seq<ClusterView>) -> bool {
    exists|gs: Seq<Seq<usize>>|
        is_label_partition(visual_labels(fs, candidates(fs, used), t), gs)
            && cs == visual_views(fs, candidates(fs, used), t, gs)
}

proof fn lemma_visual_views_push(fs: Seq<FileRecord>, cand: Seq<usize>, t: u8, gs: Seq<Seq<usize>>, x: Seq<usize>)
    ensures
        visual_views(fs, cand, t, gs.push(x)) == (if x.len() >= 2 {
            visual_views(fs, cand, t, gs).push(visual_view(fs, cand, t, x))
        } else {
            visual_views(fs, cand, t, gs)
        }),
{
    reveal_with_fuel(Seq::filter, 1);
    assert(gs.push(x).drop_last() =~= gs);
    let f = gs.filter(|g: Seq<usize>| g.len() >= 2);
    if x.len() >= 2 {
        assert(f.push(x).map_values(|g: Seq<usize>| visual_view(fs, cand, t, g)) =~= f.map_values(
            |g: Seq<usize>| visual_view(fs, cand, t, g),
        ).push(visual_view(fs, cand, t, x)));
    }
}

proof fn lemma_row_len(l: Seq<int>, fs: Seq<FileRecord>, cand: Seq<usize>, t: u8, p: int, q: int)
    ensures
        row_labels(l, fs, cand, t, p, q).len() == l.len(),
    decreases q - p,
{
    if q > p + 1 {
        lemma_row_len(l, fs, cand, t, p, q - 1);
    }
}

proof fn lemma_upto_len(fs: Seq<FileRecord>, cand: Seq<usize>, t: u8, p: int)
    ensures
        visual_labels_upto(fs, cand, t, p).len() == cand.len(),
    decreases p,
{
    if p > 0 {
        lemma_upto_len(fs, cand, t, p - 1);
        lemma_row_len(visual_labels_upto(fs, cand, t, p - 1), fs, cand, t, p - 1, cand.len() as int);
    }
}

/// There is one label per candidate.
pub proof fn lemma_visual_len(fs: Seq<FileRecord>, cand: Seq<usize>, t: u8)
    ensures
        visual_labels(fs, cand, t).len() == cand.len(),
{
    lemma_upto_len(fs, cand, t, cand.len() as int);
}

/// Positions of the files that take part in visual grouping.
fn visual_candidates(files: &[FileRecord], used: &HashSet<i64>) -> (cand: Vec<usize>)
    ensures
        cand@ == candidates(files@, used@),
        forall|k: int| 0 <= k < cand@.len() ==> (#[trigger] cand@[k] as int) < files@.len()
            && visual_candidate(files@, used@, cand@[k] as int),
{
    let ghost fs = files@;
    let ghost all = Seq::new(fs.len(), |i: int| i as usize);
    let ghost pred = |i: usize| visual_candidate(fs, used@, i as int);
    let mut cand: Vec<usize> = Vec::new();
    let mut i: usize = 0;
    while i < files.len()
        invariant
            i <= fs.len(),
            fs == files@,
            all == Seq::new(fs.len(), |i: int| i as usize),
            pred == (|i: usize| visual_candidate(fs, used@, i as int)),
            cand@ == all.take(i as int).filter(pred),
            forall|k: int| 0 <= k < cand@.len() ==> (#[trigger] cand@[k] as int) < i
                && visual_candidate(fs, used@, cand@[k] as int),
        decreases fs.len() - i,
    {
        proof {
            reveal_with_fuel(Seq::filter, 1);
            assert(all.take(i + 1).drop_last() =~= all.take(i as int));
            assert(all.take(i + 1).last() == i);
        }
        if !used.contains(&files[i].id) && files[i].phash.is_some() {
            cand.push(i);
        }
        i = i + 1;
    }
    assert(all.take(fs.len() as int) =~= all);
    cand
}

/// Smallest pairwise Hamming distance within a group, capped at `t`.
fn min_group_distance(files: &[FileRecord], cand: &Vec<usize>, g: &Vec<usize>, t: u8) -> (d: u32)
    requires
        forall|k: int| 0 <= k < cand@.len() ==> (#[trigger] cand@[k] as int) < files@.len()
            && files@[cand@[k] as int].phash is Some,
        forall|k: int| 0 <= k < g@.len() ==> (#[trigger] g@[k] as int) < cand@.len(),
    ensures
        is_group_min(files@, cand@, g@, t, d as nat),
{
    let ghost fs = files@;
    let mut md: u32 = t as u32;
    let n = g.len();
    let mut i: usize = 0;
    while i < n
        invariant
            n == g@.len(),
            i <= n,
            fs == files@,
            forall|k: int| 0 <= k < cand@.len() ==> (#[trigger] cand@[k] as int) < files@.len()
                && files@[cand@[k] as int].phash is Some,
            forall|k: int| 0 <= k < g@.len() ==> (#[trigger] g@[k] as int) < cand@.len(),
            md <= t,
            forall|a: int, b: int| 0 <= a < b < n && a < i ==> md <= #[trigger] pair_dist(fs, cand@, g@, a, b),
            md == t || exists|a: int, b: int| 0 <= a < b < n && md == #[trigger] pair_dist(fs, cand@, g@, a, b),
        decreases n - i,
    {
        let ha = files[cand[g[i]]].phash.unwrap();
        let mut j: usize = i + 1;
        while j < n
            invariant
                n == g@.len(),
                i < n,
                i + 1 <= j <= n,
                fs == files@,
                forall|k: int| 0 <= k < cand@.len() ==> (#[trigger] cand@[k] as int) < files@.len()
                    && files@[cand@[k] as int].phash is Some,
                forall|k: int| 0 <= k < g@.len() ==> (#[trigger] g@[k] as int) < cand@.len(),
                ha == cand_hash(fs, cand@, g@[i as int] as int),
                md <= t,
                forall|a: int, b: int| 0 <= a < b < n && (a < i || (a == i && b < j)) ==> md <= #[trigger] pair_dist(fs, cand@, g@, a, b),
                md == t || exists|a: int, b: int| 0 <= a < b < n && md == #[trigger] pair_dist(fs, cand@, g@, a, b),
            decreases n - j,
        {
            let hb = files[cand[g[j]]].phash.unwrap();
            let d = hamming_distance(ha, hb);
            assert(d == pair_dist(fs, cand@, g@, i as int, j as int));
            if d < md {
                md = d;
            }
            j = j + 1;
        }
        i = i + 1;
    }
    md
}

/// Merges candidates along linked pairs; each resulting set of two or more
/// becomes a cluster, and its files are marked used.
fn cluster_visual(files: &[FileRecord], threshold: u8, used: &mut HashSet<i64>) -> (cs: Vec<DuplicateCluster>)
    ensures
        visual_ok(files@, old(used)@, threshold, clusters_view(cs@)),
        final(used)@ == old(used)@ + cluster_ids(clusters_view(cs@)),
{
    let ghost fs = files@;
    let ghost u0 = used@;
    let cand = visual_candidates(files, used);
    let m = cand.len();
    let mut uf = UnionFind::new(m);
    let mut p: usize = 0;
    while p < m
        invariant
            p <= m,
            m == cand@.len(),
            fs == files@,
            forall|k: int| 0 <= k < cand@.len() ==> (#[trigger] cand@[k] as int) < files@.len()
                && visual_candidate(fs, u0, cand@[k] as int),
            uf.wf(),
            uf@ == visual_labels_upto(fs, cand@, threshold, p as int),
        decreases m - p,
    {
        let ghost l0 = uf@;
        proof {
            lemma_upto_len(fs, cand@, threshold, p as int);
        }
        let a = &files[cand[p]];
        let ha = a.phash.unwrap();
        let mut q: usize = p + 1;
        while q < m
            invariant
                p < m,
                p + 1 <= q <= m,
                m == cand@.len(),
                fs == files@,
                forall|k: int| 0 <= k < cand@.len() ==> (#[trigger] cand@[k] as int) < files@.len()
                    && visual_candidate(fs, u0, cand@[k] as int),
                *a == fs[cand@[p as int] as int],
                ha == cand_hash(fs, cand@, p as int),
                l0.len() == m,
                uf.wf(),
                uf@ == row_labels(l0, fs, cand@, threshold, p as int, q as int),
            decreases m - q,
        {
            proof {
                lemma_row_len(l0, fs, cand@, threshold, p as int, q as int);
            }
            let b = &files[cand[q]];
            let hb = b.phash.unwrap();
            if (ha >> 48) == (hb >> 48) && size_dimension_compatible(a, b)
                && hamming_distance(ha, hb) <= threshold as u32 {
                uf.union(p, q);
            }
            q = q + 1;
        }
        p = p + 1;
    }
    let groups = uf.groups();
    let ghost labels = visual_labels(fs, cand@, threshold);
    let ghost gv = group_view(groups@);
    proof {
        lemma_upto_len(fs, cand@, threshold, m as int);
    }
    let mut cs: Vec<DuplicateCluster> = Vec::new();
    let mut k: usize = 0;
    while k < groups.len()
        invariant
            k <= groups@.len(),
            fs == files@,
            m == cand@.len(),
            cand@ == candidates(fs, u0),
            forall|q: int| 0 <= q < cand@.len() ==> (#[trigger] cand@[q] as int) < files@.len()
                && visual_candidate(fs, u0, cand@[q] as int),
            labels.len() == m,
            is_label_partition(labels, gv),
            gv == group_view(groups@),
            clusters_view(cs@) == visual_views(fs, cand@, threshold, gv.take(k as int)),
            used@ == u0 + cluster_ids(clusters_view(cs@)),
        decreases groups@.len() - k,
    {
        proof {
            assert(gv.take(k + 1) =~= gv.take(k as int).push(gv[k as int]));
            lemma_visual_views_push(fs, cand@, threshold, gv.take(k as int), gv[k as int]);
            assert(gv[k as int] == groups@[k as int]@);
        }
        let g = &groups[k];
        if g.len() >= 2 {
            assert forall|q: int| 0 <= q < g@.len() implies (#[trigger] g@[q] as int) < cand@.len() by {
                assert(gv[k as int][q] == g@[q]);
            }
            let mut fidx: Vec<usize> = Vec::new();
            let mut q: usize = 0;
            while q < g.len()
                invariant
                    q <= g@.len(),
                    forall|r: int| 0 <= r < g@.len() ==> (#[trigger] g@[r] as int) < cand@.len(),
                    forall|r: int| 0 <= r < cand@.len() ==> (#[trigger] cand@[r] as int) < files@.len(),
                    fidx@ == group_files(cand@, g@.take(q as int)),
                decreases g@.len() - q,
            {
                fidx.push(cand[g[q]]);
                assert(fidx@ =~= group_files(cand@, g@.take(q + 1)));
                q = q + 1;
            }
            assert(g@.take(g@.len() as int) =~= g@);
            let ids = ids_of(files, &fidx);
            mark_used(used, &ids);
            let md = min_group_distance(files, &cand, g, threshold);
            let scale: u32 = if threshold >= 1 { threshold as u32 } else { 1 };
            let c = DuplicateCluster { kind: DuplicateKind::Visual, min_distance: md, distance_scale: scale, file_ids: ids };
            let ghost cv = c@;
            let ghost cs0 = clusters_view(cs@);
            proof {
                lemma_cluster_ids_push(cs0, cv);
                let gm = group_min(fs, cand@, g@, threshold);
                assert(is_group_min(fs, cand@, g@, threshold, md as nat));
                lemma_group_min_unique(fs, cand@, g@, threshold, md as nat, gm);
                assert(visual_view(fs, cand@, threshold, gv[k as int]) == cv);
            }
            cs.push(c);
            proof {
                assert(clusters_view(cs@) =~= cs0.push(cv));
            }
        }
        k = k + 1;
    }
    proof {
        assert(gv.take(gv.len() as int) =~= gv);
    }
    cs
}


// ---------------------------------------------------------------- burst

/// A file takes part in burst grouping when it is not used yet and has a
/// capture time.
pub open spec fn dated_candidate(fs: Seq<FileRecord>, used: Set<i64>, i: int) -> bool {
    !used.contains(fs[i].id) && fs[i].exif is Some && fs[i].exif->0.date_taken is Some
}

/// Capture time of a dated file: seconds since the Unix epoch and
/// nanoseconds into the second.
pub open spec fn taken_at(fs: Seq<FileRecord>, i: int) -> (i64, u32) {
    fs[i].exif->0.date_taken->0
}

/// Instant `a` is earlier than instant `b`.
pub open spec fn time_lt(a: (i64, u32), b: (i64, u32)) -> bool {
    a.0 < b.0 || (a.0 == b.0 && a.1 < b.1)
}

/// File `a` comes before file `b`: earlier capture, or same capture time
/// and earlier in the input.
pub open spec fn shot_before(fs: Seq<FileRecord>, a: int, b: int) -> bool {
    time_lt(taken_at(fs, a), taken_at(fs, b)) || (taken_at(fs, a) == taken_at(fs, b) && a < b)
}

/// Second of the day of an instant `t` seconds after the Unix epoch.
pub open spec fn day_second(t: i64) -> int {
    (t as int) % 86400
}

/// Nanoseconds from instant `b` to instant `a`, measured as chrono measures
/// them: the difference of the two, where a leap second (nanoseconds of a
/// billion or more) counts one second more when the other instant lies at
/// a later time of day, or one second less when it lies at an earlier one.
pub open spec fn elapsed_nanos(a: (i64, u32), b: (i64, u32)) -> int {
    let adj: int = if day_second(a.0) > day_second(b.0) && b.1 >= 1_000_000_000 {
        1
    } else if day_second(a.0) < day_second(b.0) && a.1 >= 1_000_000_000 {
        -1
    } else {
        0
    };
    (a.0 - b.0 + adj) * 1_000_000_000 + (a.1 - b.1)
}

/// `o` lists exactly the dated candidates, by capture time and, for equal
/// times, in input order.
pub open spec fn is_dated_order(fs: Seq<FileRecord>, used: Set<i64>, o: Seq<usize>) -> bool {
    &&& forall|k: int| 0 <= k < o.len() ==> (#[trigger] o[k] as int) < fs.len() && dated_candidate(fs, used, o[k] as int)
    &&& forall|i: int| 0 <= i < fs.len() && dated_candidate(fs, used, i) ==> #[trigger] o.contains(i as usize)
    &&& forall|k: int, l: int| 0 <= k < l < o.len() ==> shot_before(fs, #[trigger] o[k] as int, #[trigger] o[l] as int)
}

/// Text of an optional string, empty when absent.
pub open spec fn text_or_empty(s: Option<String>) -> Seq<char> {
    match s {
        Some(t) => t@,
        None => Seq::empty(),
    }
}

/// Camera identity of a file with metadata: make, `|`, model.
pub open spec fn camera_text(e: ExifData) -> Seq<char> {
    text_or_empty(e.camera_make) + "|"@ + text_or_empty(e.camera_model)
}

/// Camera identity of a file, when it has metadata.
pub open spec fn camera_key_of(f: FileRecord) -> Option<Seq<char>> {
    match f.exif {
        Some(e) => Some(camera_text(e)),
        None => None,
    }
}

/// Camera identity of a file: make and model joined by `|`, a missing part
/// being empty; absent when the file has no metadata.
pub fn camera_key(file: &FileRecord) -> (k: Option<String>)
    ensures
        match k {
            Some(t) => camera_key_of(*file) == Some(t@),
            None => camera_key_of(*file) is None,
        },
{
    match &file.exif {
        None => None,
        Some(e) => {
            let mut t = String::new();
            match &e.camera_make {
                Some(m) => t.append(m.as_str()),
                None => {},
            }
            t.append("|");
            match &e.camera_model {
                Some(m) => t.append(m.as_str()),
                None => {},
            }
            proof {
                assert(t@ =~= camera_text(*e));
            }
            Some(t)
        },
    }
}

/// End of the window opened by the shot at `o[i]`: the first position from
/// `j` on that is past the end of `o` or more than `w` seconds after it.
pub open spec fn window_end(fs: Seq<FileRecord>, o: Seq<usize>, w: u32, i: int, j: int) -> int
    decreases o.len() - j,
{
    if j >= o.len() || elapsed_nanos(taken_at(fs, o[j] as int), taken_at(fs, o[i] as int)) > w * 1_000_000_000 {
        j
    } else {
        window_end(fs, o, w, i, j + 1)
    }
}

/// Ids of the shot at `o[i]` followed by the shots at `o[i+1..j]` from the
/// same camera.
pub open spec fn burst_members(fs: Seq<FileRecord>, o: Seq<usize>, i: int, j: int) -> Seq<i64>
    decreases j - i,
{
    if j <= i + 1 {
        seq![fs[o[i] as int].id]
    } else {
        let m = burst_members(fs, o, i, j - 1);
        if camera_key_of(fs[o[j - 1] as int]) == camera_key_of(fs[o[i] as int]) {
            m.push(fs[o[j - 1] as int].id)
        } else {
            m
        }
    }
}

/// Burst clusters found scanning `o` from position `i`: each window of
/// same-camera shots of two or more is a cluster, and scanning resumes at
/// the end of the window.
pub open spec fn burst_from(fs: Seq<FileRecord>, o: Seq<usize>, w: u32, i: int) -> Seq<ClusterView>
    decreases o.len() - i,
{
    if i < 0 || i >= o.len() {
        Seq::empty()
    } else {
        let j = window_end(fs, o, w, i, i + 1);
        proof {
            lemma_window_end_range(fs, o, w, i, i + 1);
        }
        let g = burst_members(fs, o, i, j);
        let next = if j > i + 1 { j } else { i + 1 };
        let rest = burst_from(fs, o, w, next);
        if g.len() >= 2 {
            seq![(DuplicateKind::Burst, 1u32, 4u32, g)] + rest
        } else {
            rest
        }
    }
}

/// Burst clusters of the dated candidates taken in capture order.
pub open spec fn burst_ok(fs: Seq<FileRecord>, used: Set<i64>, w: u32, cs: Seq<ClusterView>) -> bool {
    exists|o: Seq<usize>| is_dated_order(fs, used, o) && cs == burst_from(fs, o, w, 0)
}

/// `(seconds, nanoseconds, position)` triples ordered by time, then
/// position.
pub open spec fn pair_lt(a: (i64, u32, usize), b: (i64, u32, usize)) -> bool {
    time_lt((a.0, a.1), (b.0, b.1)) || ((a.0, a.1) == (b.0, b.1) && a.2 < b.2)
}

/// The dated candidates in capture order.
fn dated_order(files: &[FileRecord], used: &HashSet<i64>) -> (o: Vec<usize>)
    ensures
        is_dated_order(files@, used@, o@),
{
    let ghost fs = files@;
    let mut sorted: Vec<(i64, u32, usize)> = Vec::new();
    let mut i: usize = 0;
    while i < files.len()
        invariant
            i <= fs.len(),
            fs == files@,
            forall|k: int| 0 <= k < sorted@.len() ==> (#[trigger] sorted@[k]).2 < i
                && dated_candidate(fs, used@, sorted@[k].2 as int) && (sorted@[k].0, sorted@[k].1) == taken_at(fs, sorted@[k].2 as int),
            forall|x: int| 0 <= x < i && dated_candidate(fs, used@, x) ==> exists|k: int|
                0 <= k < sorted@.len() && (#[trigger] sorted@[k]).2 == x,
            forall|k: int, l: int| 0 <= k < l < sorted@.len() ==> pair_lt(#[trigger] sorted@[k], #[trigger] sorted@[l]),
        decreases fs.len() - i,
    {
        let f = &files[i];
        if !used.contains(&f.id) {
            match &f.exif {
                Some(e) => match e.date_taken {
                    Some(t) => {
                        let item: (i64, u32, usize) = (t.0, t.1, i);
                        let mut pos: usize = 0;
                        while pos < sorted.len() && (sorted[pos].0 < item.0 || (sorted[pos].0 == item.0 && sorted[pos].1 < item.1)
                            || (sorted[pos].0 == item.0 && sorted[pos].1 == item.1 && sorted[pos].2 < item.2))
                            invariant
                                pos <= sorted@.len(),
                                item == (t.0, t.1, i),
                                forall|k: int| 0 <= k < pos ==> pair_lt(#[trigger] sorted@[k], item),
                            decreases sorted@.len() - pos,
                        {
                            pos = pos + 1;
                        }
                        let ghost s0 = sorted@;
                        proof {
                            assert forall|k: int| pos <= k < s0.len() implies pair_lt(item, #[trigger] s0[k]) by {
                                if k > pos {
                                    assert(pair_lt(s0[pos as int], s0[k]));
                                }
                                assert(s0[k].2 < i);
                            }
                        }
                        sorted.insert(pos, item);
                        proof {
                            assert forall|k: int, l: int| 0 <= k < l < sorted@.len() implies pair_lt(#[trigger] sorted@[k], #[trigger] sorted@[l]) by {
                                if k < pos && l < pos {
                                    assert(sorted@[k] == s0[k] && sorted@[l] == s0[l]);
                                } else if k < pos && l == pos {
                                    assert(sorted@[k] == s0[k]);
                                } else if k < pos {
                                    assert(sorted@[k] == s0[k] && sorted@[l] == s0[l - 1]);
                                    assert(pair_lt(s0[k], item));
                                    assert(pair_lt(item, s0[l - 1]));
                                } else if k == pos {
                                    assert(sorted@[l] == s0[l - 1]);
                                } else {
                                    assert(sorted@[k] == s0[k - 1] && sorted@[l] == s0[l - 1]);
                                }
                            }
                            assert forall|x: int| 0 <= x < i + 1 && dated_candidate(fs, used@, x) implies exists|k: int|
                                0 <= k < sorted@.len() && (#[trigger] sorted@[k]).2 == x by {
                                if x == i {
                                    assert(sorted@[pos as int].2 == x);
                                } else {
                                    let k = choose|k: int| 0 <= k < s0.len() && (#[trigger] s0[k]).2 == x;
                                    if k < pos {
                                        assert(sorted@[k] == s0[k]);
                                    } else {
                                        assert(sorted@[k + 1] == s0[k]);
                                    }
                                }
                            }
                            assert forall|k: int| 0 <= k < sorted@.len() implies (#[trigger] sorted@[k]).2 < i + 1
                                && dated_candidate(fs, used@, sorted@[k].2 as int) && (sorted@[k].0, sorted@[k].1) == taken_at(fs, sorted@[k].2 as int) by {
                                if k < pos {
                                    assert(sorted@[k] == s0[k]);
                                } else if k > pos {
                                    assert(sorted@[k] == s0[k - 1]);
                                }
                            }
                        }
                    },
                    None => {},
                },
                None => {},
            }
        }
        i = i + 1;
    }
    let mut o: Vec<usize> = Vec::new();
    let mut k: usize = 0;
    while k < sorted.len()
        invariant
            k <= sorted@.len(),
            o@.len() == k,
            forall|q: int| 0 <= q < k ==> o@[q] == (#[trigger] sorted@[q]).2,
        decreases sorted@.len() - k,
    {
        o.push(sorted[k].2);
        k = k + 1;
    }
    proof {
        assert forall|x: int| 0 <= x < fs.len() && dated_candidate(fs, used@, x) implies #[trigger] o@.contains(x as usize) by {
            let q = choose|q: int| 0 <= q < sorted@.len() && (#[trigger] sorted@[q]).2 == x;
            assert(o@[q] == x);
        }
        assert forall|a: int, b: int| 0 <= a < b < o@.len() implies shot_before(fs, #[trigger] o@[a] as int, #[trigger] o@[b] as int) by {
            assert(pair_lt(sorted@[a], sorted@[b]));
        }
        assert forall|a: int| 0 <= a < o@.len() implies (#[trigger] o@[a] as int) < fs.len() && dated_candidate(fs, used@, o@[a] as int) by {
            assert(o@[a] == sorted@[a].2);
        }
    }
    o
}

/// Second of the day of an instant `t` seconds after the Unix epoch.
fn day_second_of(t: i64) -> (r: i64)
    ensures
        r == day_second(t),
{
    let q: i128 = t as i128 + 86400 * 106751991167302;
    proof {
        assert(q >= 0);
        vstd::arithmetic::div_mod::lemma_mod_add_multiples_vanish(t as int, 86400);
        assert((t + 86400 * 106751991167302) % 86400 == t % 86400) by {
            vstd::arithmetic::div_mod::lemma_mod_multiples_vanish(106751991167302, t as int, 86400);
        }
    }
    let r: i128 = q % 86400;
    r as i64
}

/// Whether more than `w` seconds pass from instant `b` to instant `a`.
fn elapsed_beyond(a: (i64, u32), b: (i64, u32), w: u32) -> (r: bool)
    ensures
        r == (elapsed_nanos(a, b) > w * 1_000_000_000),
{
    let sa = day_second_of(a.0);
    let sb = day_second_of(b.0);
    let adj: i128 = if sa > sb && b.1 >= 1_000_000_000 {
        1
    } else if sa < sb && a.1 >= 1_000_000_000 {
        -1
    } else {
        0
    };
    let secs: i128 = a.0 as i128 - b.0 as i128 + adj;
    proof {
        assert(-0x1_0000_0000_0000_0001 <= secs <= 0x1_0000_0000_0000_0001);
        assert(-0x1_0000_0000_0000_0001 * 1_000_000_000 <= secs * 1_000_000_000 <= 0x1_0000_0000_0000_0001 * 1_000_000_000)
            by (nonlinear_arith)
            requires
                -0x1_0000_0000_0000_0001 <= secs <= 0x1_0000_0000_0000_0001,
        ;
    }
    let nanos: i128 = secs * 1_000_000_000 + (a.1 as i128 - b.1 as i128);
    nanos > (w as i128) * 1_000_000_000
}

/// The window ends between its start and the end of the order.
pub proof fn lemma_window_end_range(fs: Seq<FileRecord>, o: Seq<usize>, w: u32, i: int, j: int)
    requires
        j <= o.len(),
    ensures
        j <= window_end(fs, o, w, i, j) <= o.len(),
    decreases o.len() - j,
{
    if !(j >= o.len() || elapsed_nanos(taken_at(fs, o[j] as int), taken_at(fs, o[i] as int)) > w * 1_000_000_000) {
        lemma_window_end_range(fs, o, w, i, j + 1);
    }
}

/// Groups dated shots of one camera taken within `window_secs` of the
/// first shot of each window; each group of two or more becomes a cluster
/// and its files are marked used.
fn cluster_burst(files: &[FileRecord], window_secs: u32, used: &mut HashSet<i64>) -> (cs: Vec<DuplicateCluster>)
    ensures
        burst_ok(files@, old(used)@, window_secs, clusters_view(cs@)),
        final(used)@ == old(used)@ + cluster_ids(clusters_view(cs@)),
{
    let ghost fs = files@;
    let ghost u0 = used@;
    let o = dated_order(files, used);
    let n = o.len();
    let mut cs: Vec<DuplicateCluster> = Vec::new();
    let mut i: usize = 0;
    while i < n
        invariant
            i <= n,
            n == o@.len(),
            fs == files@,
            is_dated_order(fs, u0, o@),
            clusters_view(cs@) + burst_from(fs, o@, window_secs, i as int) == burst_from(fs, o@, window_secs, 0),
            used@ == u0 + cluster_ids(clusters_view(cs@)),
        decreases n - i,
    {
        let base = &files[o[i]];
        let base_time: (i64, u32) = match &base.exif {
            Some(e) => match e.date_taken {
                Some(t) => t,
                None => (0, 0),
            },
            None => (0, 0),
        };
        assert(base_time == taken_at(fs, o@[i as int] as int));
        let base_camera = camera_key(base);
        let mut group: Vec<i64> = Vec::new();
        group.push(base.id);
        let mut j: usize = i + 1;
        proof {
            assert(group@ =~= burst_members(fs, o@, i as int, j as int));
        }
        while j < n
            invariant_except_break
                i < n,
                i + 1 <= j <= n,
                n == o@.len(),
                fs == files@,
                is_dated_order(fs, u0, o@),
                base_time == taken_at(fs, o@[i as int] as int),
                *base == fs[o@[i as int] as int],
                camera_key_of(*base) == match base_camera { Some(t) => Some(t@), None => None::<Seq<char>> },
                group@ == burst_members(fs, o@, i as int, j as int),
                window_end(fs, o@, window_secs, i as int, i + 1) == window_end(fs, o@, window_secs, i as int, j as int),
            ensures
                i + 1 <= j <= n,
                group@ == burst_members(fs, o@, i as int, j as int),
                window_end(fs, o@, window_secs, i as int, i + 1) == j,
            decreases n - j,
        {
            let next = &files[o[j]];
            let next_time: (i64, u32) = match &next.exif {
                Some(e) => match e.date_taken {
                    Some(t) => t,
                    None => (0, 0),
                },
                None => (0, 0),
            };
            assert(next_time == taken_at(fs, o@[j as int] as int));
            if elapsed_beyond(next_time, base_time, window_secs) {
                break;
            }
            let cam = camera_key(next);
            let same = match (&cam, &base_camera) {
                (Some(a), Some(b)) => str_eq(a.as_str(), b.as_str()),
                (None, None) => true,
                _ => false,
            };
            if same {
                group.push(next.id);
            }
            proof {
                assert(camera_key_of(fs[o@[j as int] as int]) == camera_key_of(fs[o@[i as int] as int]) <==> same);
            }
            j = j + 1;
        }
        proof {
            lemma_window_end_range(fs, o@, window_secs, i as int, i + 1);
        }
        let ghost rest = burst_from(fs, o@, window_secs, j as int);
        if group.len() >= 2 {
            mark_used(used, &group);
            let c = DuplicateCluster { kind: DuplicateKind::Burst, min_distance: 1, distance_scale: 4, file_ids: group };
            let ghost cv = c@;
            let ghost cs0 = clusters_view(cs@);
            proof {
                lemma_cluster_ids_push(cs0, cv);
                assert(burst_from(fs, o@, window_secs, i as int) == seq![cv] + rest);
            }
            cs.push(c);
            proof {
                assert(clusters_view(cs@) =~= cs0.push(cv));
                assert(cs0.push(cv) + rest =~= cs0 + (seq![cv] + rest));
            }
        } else {
            assert(burst_from(fs, o@, window_secs, i as int) == rest);
        }
        i = j;
    }
    proof {
        assert(burst_from(fs, o@, window_secs, n as int) == Seq::<ClusterView>::empty());
        assert(clusters_view(cs@) + Seq::<ClusterView>::empty() =~= clusters_view(cs@));
    }
    cs
}


// ---------------------------------------------------------------- all

/// The clusters of a scan: exact clusters (when enabled), then visual
/// clusters of the files not yet clustered (when enabled), then burst
/// clusters of the files still not clustered (when enabled).
pub open spec fn clustering_ok(fs: Seq<FileRecord>, config: ScanConfig, cs: Seq<ClusterView>) -> bool {
    exists|a: Seq<ClusterView>, b: Seq<ClusterView>, c: Seq<ClusterView>| {
        &&& cs == a + b + c
        &&& a == (if config.exact_hash { exact_clusters(fs, Set::empty()) } else { Seq::empty() })
        &&& (if config.visual_similar {
            visual_ok(fs, cluster_ids(a), config.phash_threshold, b)
        } else {
            b == Seq::<ClusterView>::empty()
        })
        &&& (if config.burst_detection {
            burst_ok(fs, cluster_ids(a) + cluster_ids(b), config.burst_window_secs, c)
        } else {
            c == Seq::<ClusterView>::empty()
        })
    }
}

proof fn lemma_cluster_ids_concat(a: Seq<ClusterView>, b: Seq<ClusterView>)
    ensures
        cluster_ids(a + b) == cluster_ids(a) + cluster_ids(b),
    decreases b.len(),
{
    if b.len() == 0 {
        assert(a + b =~= a);
        assert(cluster_ids(a) + Set::empty() =~= cluster_ids(a));
    } else {
        assert((a + b).drop_last() =~= a + b.drop_last());
        lemma_cluster_ids_concat(a, b.drop_last());
        assert(cluster_ids(a + b) =~= cluster_ids(a) + cluster_ids(b));
    }
}

/// Runs the enabled detectors in order: exact, visual, burst.
pub fn cluster_duplicates(files: Vec<FileRecord>, config: &ScanConfig) -> (cs: Vec<DuplicateCluster>)
    ensures
        clustering_ok(files@, *config, clusters_view(cs@)),
{
    let mut clusters: Vec<DuplicateCluster> = Vec::new();
    let mut used: HashSet<i64> = HashSet::new();
    let ghost fs = files@;
    let mut a: Vec<DuplicateCluster> = if config.exact_hash {
        cluster_exact(files.as_slice(), &mut used)
    } else {
        Vec::new()
    };
    let ghost av = clusters_view(a@);
    proof {
        assert(used@ =~= cluster_ids(av)) by {
            if !config.exact_hash {
                assert(av =~= Seq::<ClusterView>::empty());
            }
        }
    }
    let ghost used_a = used@;
    let mut b: Vec<DuplicateCluster> = if config.visual_similar {
        cluster_visual(files.as_slice(), config.phash_threshold, &mut used)
    } else {
        Vec::new()
    };
    let ghost bv = clusters_view(b@);
    proof {
        if !config.visual_similar {
            assert(bv =~= Seq::<ClusterView>::empty());
            assert(used@ =~= used_a + cluster_ids(bv));
        }
    }
    let ghost used_b = used@;
    let mut c: Vec<DuplicateCluster> = if config.burst_detection {
        cluster_burst(files.as_slice(), config.burst_window_secs, &mut used)
    } else {
        Vec::new()
    };
    let ghost cv = clusters_view(c@);
    proof {
        if !config.burst_detection {
            assert(cv =~= Seq::<ClusterView>::empty());
        }
    }
    clusters.append(&mut a);
    clusters.append(&mut b);
    clusters.append(&mut c);
    proof {
        assert(clusters_view(clusters@) =~= av + bv + cv);
        assert(av == (if config.exact_hash { exact_clusters(fs, Set::empty()) } else { Seq::empty() }));
        assert(used_a == cluster_ids(av));
        assert(used_b == cluster_ids(av) + cluster_ids(bv));
        assert(config.visual_similar ==> visual_ok(fs, cluster_ids(av), config.phash_threshold, bv));
        assert(config.burst_detection ==> burst_ok(fs, cluster_ids(av) + cluster_ids(bv), config.burst_window_secs, cv));
        assert(clustering_ok(fs, *config, clusters_view(clusters@)));
    }
    clusters
}

} // verus!
