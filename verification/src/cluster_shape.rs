//! The shape of every cluster a scan reports: at least two files, and a
//! confidence between zero and one.

use vstd::prelude::*;
use crate::cluster::{
    ClusterView, FileRecord, burst_from, burst_ok, clustering_ok, exact_clusters, exact_view,
    exact_views, group_min, hash_groups, is_group_min, pair_dist, visual_ok, visual_view,
    visual_views, window_end, burst_members, lemma_window_end_range,
};
use crate::config::ScanConfig;

verus! {

/// A reported cluster: at least two files, and a confidence
/// `1 - min_distance / distance_scale` between zero and one.
pub open spec fn cluster_shape_ok(c: ClusterView) -> bool {
    &&& c.3.len() >= 2
    &&& 1 <= c.2
    &&& c.1 <= c.2
}

/// All clusters of a sequence have the reported shape.
pub open spec fn all_shaped(cs: Seq<ClusterView>) -> bool {
    forall|k: int| 0 <= k < cs.len() ==> cluster_shape_ok(#[trigger] cs[k])
}

/// Every distance in the group is at least `d`, and `d` is at most the
/// threshold.
spec fn below_all_pairs(fs: Seq<FileRecord>, cand: Seq<usize>, g: Seq<usize>, t: u8, d: nat) -> bool {
    &&& d <= t
    &&& forall|i: int, j: int| 0 <= i < j < g.len() ==> d <= #[trigger] pair_dist(fs, cand, g, i, j)
}

/// Raising a lower bound of the group's distances one step at a time reaches
/// the capped smallest distance.
proof fn lemma_group_min_from(fs: Seq<FileRecord>, cand: Seq<usize>, g: Seq<usize>, t: u8, d: nat)
    requires
        below_all_pairs(fs, cand, g, t, d),
    ensures
        exists|m: nat| is_group_min(fs, cand, g, t, m),
    decreases t - d,
{
    if is_group_min(fs, cand, g, t, d) {
    } else {
        assert(d != t);
        assert forall|i: int, j: int| 0 <= i < j < g.len() implies d + 1 <= #[trigger] pair_dist(fs, cand, g, i, j) by {
            if pair_dist(fs, cand, g, i, j) == d {
                assert(is_group_min(fs, cand, g, t, d));
            }
        }
        lemma_group_min_from(fs, cand, g, t, d + 1);
    }
}

/// The capped smallest distance of a group exists and is at most the
/// threshold.
proof fn lemma_group_min_capped(fs: Seq<FileRecord>, cand: Seq<usize>, g: Seq<usize>, t: u8)
    ensures
        is_group_min(fs, cand, g, t, group_min(fs, cand, g, t)),
        group_min(fs, cand, g, t) <= t,
{
    lemma_group_min_from(fs, cand, g, t, 0);
}

proof fn lemma_exact_shaped(fs: Seq<FileRecord>)
    ensures
        all_shaped(exact_clusters(fs, Set::empty())),
{
    let gs = hash_groups(fs, Set::empty(), fs.len() as int);
    let pred = |g: (Seq<char>, Seq<usize>)| g.1.len() >= 2;
    let kept = gs.filter(pred);
    assert forall|k: int| 0 <= k < exact_clusters(fs, Set::empty()).len() implies
        cluster_shape_ok(#[trigger] exact_clusters(fs, Set::empty())[k]) by {
        gs.lemma_filter_pred(pred, k);
        assert(exact_views(fs, gs)[k] == exact_view(fs, kept[k]));
    }
}

proof fn lemma_visual_shaped(fs: Seq<FileRecord>, used: Set<i64>, t: u8, cs: Seq<ClusterView>)
    requires
        visual_ok(fs, used, t, cs),
    ensures
        all_shaped(cs),
{
    let cand = crate::cluster::candidates(fs, used);
    let gs = choose|gs: Seq<Seq<usize>>|
        crate::unionfind::is_label_partition(crate::cluster::visual_labels(fs, cand, t), gs)
            && cs == visual_views(fs, cand, t, gs);
    let pred = |g: Seq<usize>| g.len() >= 2;
    let kept = gs.filter(pred);
    assert forall|k: int| 0 <= k < cs.len() implies cluster_shape_ok(#[trigger] cs[k]) by {
        gs.lemma_filter_pred(pred, k);
        assert(cs[k] == visual_view(fs, cand, t, kept[k]));
        lemma_group_min_capped(fs, cand, kept[k], t);
    }
}

proof fn lemma_burst_shaped(fs: Seq<FileRecord>, o: Seq<usize>, w: u32, i: int)
    ensures
        all_shaped(burst_from(fs, o, w, i)),
    decreases o.len() - i,
{
    if 0 <= i < o.len() {
        let j = window_end(fs, o, w, i, i + 1);
        lemma_window_end_range(fs, o, w, i, i + 1);
        let g = burst_members(fs, o, i, j);
        let next = if j > i + 1 { j } else { i + 1 };
        let rest = burst_from(fs, o, w, next);
        lemma_burst_shaped(fs, o, w, next);
        let cs = burst_from(fs, o, w, i);
        assert forall|k: int| 0 <= k < cs.len() implies cluster_shape_ok(#[trigger] cs[k]) by {
            if g.len() >= 2 {
                if k > 0 {
                    assert(cs[k] == rest[k - 1]);
                }
            } else {
                assert(cs[k] == rest[k]);
            }
        }
    }
}

/// Every cluster a scan reports lists at least two files and has a
/// confidence between zero and one (`min_distance <= distance_scale`, with a
/// scale of at least one).
pub proof fn lemma_clusters_shaped(fs: Seq<FileRecord>, config: ScanConfig, cs: Seq<ClusterView>)
    requires
        clustering_ok(fs, config, cs),
    ensures
        all_shaped(cs),
{
    let (a, b, c) = choose|a: Seq<ClusterView>, b: Seq<ClusterView>, c: Seq<ClusterView>| {
        &&& cs == a + b + c
        &&& a == (if config.exact_hash { exact_clusters(fs, Set::empty()) } else { Seq::empty() })
        &&& (if config.visual_similar {
            visual_ok(fs, crate::cluster::cluster_ids(a), config.phash_threshold, b)
        } else {
            b == Seq::<ClusterView>::empty()
        })
        &&& (if config.burst_detection {
            burst_ok(fs, crate::cluster::cluster_ids(a) + crate::cluster::cluster_ids(b), config.burst_window_secs, c)
        } else {
            c == Seq::<ClusterView>::empty()
        })
    };
    if config.exact_hash {
        lemma_exact_shaped(fs);
    }
    if config.visual_similar {
        lemma_visual_shaped(fs, crate::cluster::cluster_ids(a), config.phash_threshold, b);
    }
    if config.burst_detection {
        let used = crate::cluster::cluster_ids(a) + crate::cluster::cluster_ids(b);
        let o = choose|o: Seq<usize>|
            crate::cluster::is_dated_order(fs, used, o) && c == burst_from(fs, o, config.burst_window_secs, 0);
        lemma_burst_shaped(fs, o, config.burst_window_secs, 0);
    }
    assert forall|k: int| 0 <= k < cs.len() implies cluster_shape_ok(#[trigger] cs[k]) by {
        if k < a.len() {
            assert(cs[k] == a[k]);
        } else if k < a.len() + b.len() {
            assert(cs[k] == b[k - a.len()]);
        } else {
            assert(cs[k] == c[k - a.len() - b.len()]);
        }
    }
}

} // verus!
