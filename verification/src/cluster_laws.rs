//! Properties of duplicate clustering that hold for every input.

use vstd::prelude::*;
use crate::cluster::{
    ClusterView, FileRecord, burst_from, burst_members, candidates, cluster_ids, clustering_ok,
    exact_clusters, exact_key, exact_view, group_files, hash_groups,
    ids_at, is_dated_order, key_pos, visual_candidate, visual_ok, visual_view,
    visual_views, window_end, dated_candidate, lemma_window_end_range, burst_ok, camera_key_of,
    taken_at, time_lt, elapsed_nanos,
};
use crate::config::ScanConfig;
use crate::unionfind::is_label_partition;

verus! {

/// An id is clustered exactly when some cluster lists it.
pub proof fn lemma_cluster_ids_contains(cs: Seq<ClusterView>, x: i64)
    ensures
        cluster_ids(cs).contains(x) <==> exists|k: int| 0 <= k < cs.len() && (#[trigger] cs[k]).3.contains(x),
    decreases cs.len(),
{
    if cs.len() > 0 {
        lemma_cluster_ids_contains(cs.drop_last(), x);
        if cluster_ids(cs.drop_last()).contains(x) {
            let k = choose|k: int| 0 <= k < cs.drop_last().len() && (#[trigger] cs.drop_last()[k]).3.contains(x);
            assert(cs[k] == cs.drop_last()[k]);
        }
        if exists|k: int| 0 <= k < cs.len() && (#[trigger] cs[k]).3.contains(x) {
            let k = choose|k: int| 0 <= k < cs.len() && (#[trigger] cs[k]).3.contains(x);
            if k < cs.len() - 1 {
                assert(cs.drop_last()[k] == cs[k]);
            } else {
                assert(cs.last().3.to_set().contains(x));
            }
        }
    }
}

/// Every file of a hash group takes part in exact grouping and carries the
/// group's content hash; groups carry distinct hashes; and every file that
/// takes part lies in the group of its hash.
pub proof fn lemma_hash_groups_by_hash(fs: Seq<FileRecord>, used: Set<i64>, n: int)
    requires
        0 <= n <= fs.len(),
        fs.len() <= usize::MAX,
    ensures
        forall|p: int, k: int|
            0 <= p < hash_groups(fs, used, n).len() && 0 <= k < hash_groups(fs, used, n)[p].1.len() ==> {
                let j = #[trigger] hash_groups(fs, used, n)[p].1[k] as int;
                &&& 0 <= j < n
                &&& exact_key(fs, used, j) == Some(hash_groups(fs, used, n)[p].0)
            },
        forall|p: int, q: int|
            0 <= p < q < hash_groups(fs, used, n).len() ==> (#[trigger] hash_groups(fs, used, n)[p]).0
                != (#[trigger] hash_groups(fs, used, n)[q]).0,
        forall|j: int|
            0 <= j < n && #[trigger] exact_key(fs, used, j) is Some ==> exists|p: int|
                0 <= p < hash_groups(fs, used, n).len() && hash_groups(fs, used, n)[p].0 == exact_key(fs, used, j)->0
                    && hash_groups(fs, used, n)[p].1.contains(j as usize),
    decreases n,
{
    if n > 0 {
        lemma_hash_groups_by_hash(fs, used, n - 1);
        let g = hash_groups(fs, used, n - 1);
        let g2 = hash_groups(fs, used, n);
        match exact_key(fs, used, n - 1) {
            None => {},
            Some(h) => {
                let p = key_pos(g, h);
                lemma_key_pos_facts(g, h);
                assert(g2 == (if p >= 0 {
                    g.update(p, (h, g[p].1.push((n - 1) as usize)))
                } else {
                    g.push((h, seq![(n - 1) as usize]))
                }));
                assert forall|q: int, k: int| 0 <= q < g2.len() && 0 <= k < g2[q].1.len() implies {
                    let j = #[trigger] g2[q].1[k] as int;
                    &&& 0 <= j < n
                    &&& exact_key(fs, used, j) == Some(g2[q].0)
                } by {
                    if p >= 0 && q == p {
                        if k < g[p].1.len() {
                            assert(g2[q].1[k] == g[p].1[k]);
                            let jj = g[p].1[k] as int;
                            assert(0 <= jj < n - 1 && exact_key(fs, used, jj) == Some(g[p].0));
                        } else {
                            assert(g2[q].1[k] == (n - 1) as usize);
                        }
                    } else if p < 0 && q == g.len() {
                        assert(g2[q].1[k] == (n - 1) as usize);
                    } else {
                        assert(g2[q] == g[q]);
                        let jj = g[q].1[k] as int;
                        assert(0 <= jj < n - 1 && exact_key(fs, used, jj) == Some(g[q].0));
                    }
                }
                assert forall|a: int, b: int| 0 <= a < b < g2.len() implies (#[trigger] g2[a]).0 != (#[trigger] g2[b]).0 by {
                    if p < 0 && b == g.len() {
                        assert(g2[a] == g[a]);
                    } else {
                        assert(g2[a].0 == g[a].0);
                        assert(g2[b].0 == g[b].0);
                    }
                }
                assert forall|j: int| 0 <= j < n && #[trigger] exact_key(fs, used, j) is Some implies exists|q: int|
                    0 <= q < g2.len() && g2[q].0 == exact_key(fs, used, j)->0 && g2[q].1.contains(j as usize) by {
                    if j == n - 1 {
                        if p >= 0 {
                            assert(g2[p].1.last() == j as usize);
                        } else {
                            assert(g2[g.len() as int].1[0] == j as usize);
                        }
                    } else {
                        let q = choose|q: int| 0 <= q < g.len() && g[q].0 == exact_key(fs, used, j)->0 && g[q].1.contains(j as usize);
                        let k = choose|k: int| 0 <= k < g[q].1.len() && g[q].1[k] == j as usize;
                        if p >= 0 && q == p {
                            assert(g2[q].1[k] == j as usize);
                        } else {
                            assert(g2[q] == g[q]);
                        }
                    }
                }
            },
        }
    }
}

proof fn lemma_key_pos_facts(g: Seq<(Seq<char>, Seq<usize>)>, h: Seq<char>)
    ensures
        -1 <= key_pos(g, h) < g.len(),
        key_pos(g, h) >= 0 ==> g[key_pos(g, h)].0 == h,
        key_pos(g, h) < 0 ==> forall|p: int| 0 <= p < g.len() ==> (#[trigger] g[p]).0 != h,
    decreases g.len(),
{
    if g.len() > 0 {
        lemma_key_pos_facts(g.drop_last(), h);
        assert forall|p: int| 0 <= p < g.len() - 1 implies (#[trigger] g[p]) == g.drop_last()[p] by {}
    }
}

/// Two files taking part in exact grouping with equal content hashes are
/// in one exact cluster, and the files of an exact cluster share one
/// content hash.
pub proof fn lemma_exact_clusters_are_hash_classes(fs: Seq<FileRecord>, used: Set<i64>, i: int, j: int)
    requires
        0 <= i < fs.len(),
        0 <= j < fs.len(),
        fs.len() <= usize::MAX,
        exact_key(fs, used, i) is Some,
        exact_key(fs, used, i) == exact_key(fs, used, j),
    ensures
        exists|p: int|
            0 <= p < hash_groups(fs, used, fs.len() as int).len() && hash_groups(fs, used, fs.len() as int)[p].1.contains(i as usize)
                && hash_groups(fs, used, fs.len() as int)[p].1.contains(j as usize),
{
    let n = fs.len() as int;
    lemma_hash_groups_by_hash(fs, used, n);
    let g = hash_groups(fs, used, n);
    assert(exact_key(fs, used, i) is Some);
    let p = choose|p: int| 0 <= p < g.len() && g[p].0 == exact_key(fs, used, i)->0 && g[p].1.contains(i as usize);
    assert(exact_key(fs, used, j) is Some);
    let q = choose|q: int| 0 <= q < g.len() && g[q].0 == exact_key(fs, used, j)->0 && g[q].1.contains(j as usize);
    if p != q {
        if p < q {
            assert(g[p].0 != g[q].0);
        } else {
            assert(g[q].0 != g[p].0);
        }
    }
}

/// Exact clustering never takes a file already used.
pub proof fn lemma_exact_avoids_used(fs: Seq<FileRecord>, used: Set<i64>, x: i64)
    requires
        used.contains(x),
        fs.len() <= usize::MAX,
    ensures
        !cluster_ids(exact_clusters(fs, used)).contains(x),
{
    let n = fs.len() as int;
    let g = hash_groups(fs, used, n);
    lemma_hash_groups_by_hash(fs, used, n);
    let f = g.filter(|e: (Seq<char>, Seq<usize>)| e.1.len() >= 2);
    broadcast use vstd::seq_lib::group_filter_ensures;
    let cs = exact_clusters(fs, used);
    lemma_cluster_ids_contains(cs, x);
    if cluster_ids(cs).contains(x) {
        let k = choose|k: int| 0 <= k < cs.len() && (#[trigger] cs[k]).3.contains(x);
        assert(cs[k] == exact_view(fs, f[k]));
        assert(g.contains(f[k])) by {
            g.lemma_filter_contains_rev(|e: (Seq<char>, Seq<usize>)| e.1.len() >= 2, f[k]);
        }
        let p = choose|p: int| 0 <= p < g.len() && g[p] == f[k];
        let m = choose|m: int| 0 <= m < cs[k].3.len() && cs[k].3[m] == x;
        assert(cs[k].3 == ids_at(fs, g[p].1));
        let j = g[p].1[m] as int;
        assert(exact_key(fs, used, j) == Some(g[p].0));
        assert(fs[j].id == x);
    }
}

/// Candidates of visual grouping are files taking part in it.
pub proof fn lemma_candidates_are_candidates(fs: Seq<FileRecord>, used: Set<i64>, k: int)
    requires
        0 <= k < candidates(fs, used).len(),
    ensures
        (candidates(fs, used)[k] as int) < fs.len(),
        visual_candidate(fs, used, candidates(fs, used)[k] as int),
{
    let all = Seq::new(fs.len(), |i: int| i as usize);
    let pred = |i: usize| visual_candidate(fs, used, i as int);
    broadcast use vstd::seq_lib::group_filter_ensures;
    let c = candidates(fs, used);
    all.lemma_filter_contains_rev(pred, c[k]);
    let i = choose|i: int| 0 <= i < all.len() && all[i] == c[k];
    assert(pred(c[k]));
}

/// Visual clustering never takes a file already used.
pub proof fn lemma_visual_avoids_used(fs: Seq<FileRecord>, used: Set<i64>, t: u8, cs: Seq<ClusterView>, x: i64)
    requires
        visual_ok(fs, used, t, cs),
        used.contains(x),
    ensures
        !cluster_ids(cs).contains(x),
{
    let cand = candidates(fs, used);
    let gs = choose|gs: Seq<Seq<usize>>|
        is_label_partition(crate::cluster::visual_labels(fs, cand, t), gs) && cs == visual_views(fs, cand, t, gs);
    let f = gs.filter(|g: Seq<usize>| g.len() >= 2);
    lemma_cluster_ids_contains(cs, x);
    if cluster_ids(cs).contains(x) {
        let k = choose|k: int| 0 <= k < cs.len() && (#[trigger] cs[k]).3.contains(x);
        assert(cs[k] == visual_view(fs, cand, t, f[k]));
        assert(gs.contains(f[k])) by {
            broadcast use vstd::seq_lib::group_filter_ensures;
            gs.lemma_filter_contains_rev(|g: Seq<usize>| g.len() >= 2, f[k]);
        }
        let p = choose|p: int| 0 <= p < gs.len() && gs[p] == f[k];
        let m = choose|m: int| 0 <= m < cs[k].3.len() && cs[k].3[m] == x;
        crate::unionfind::lemma_partition_member_bound(crate::cluster::visual_labels(fs, cand, t), gs, p, m);
        crate::cluster::lemma_visual_len(fs, cand, t);
        let c = gs[p][m] as int;
        lemma_candidates_are_candidates(fs, used, c);
        assert(cs[k].3 == ids_at(fs, group_files(cand, gs[p])));
        assert(group_files(cand, gs[p])[m] == cand[c]);
        assert(fs[cand[c] as int].id == x);
    }
}

pub(crate) proof fn lemma_burst_members_from(fs: Seq<FileRecord>, o: Seq<usize>, i: int, j: int, m: int)
    requires
        0 <= i < j <= o.len(),
        0 <= m < burst_members(fs, o, i, j).len(),
    ensures
        exists|k: int| i <= k < j && burst_members(fs, o, i, j)[m] == fs[o[k] as int].id,
    decreases j - i,
{
    if j > i + 1 {
        let prev = burst_members(fs, o, i, j - 1);
        if m < prev.len() {
            lemma_burst_members_from(fs, o, i, j - 1, m);
            let k = choose|k: int| i <= k < j - 1 && prev[m] == fs[o[k] as int].id;
            assert(burst_members(fs, o, i, j)[m] == prev[m]);
        } else {
            assert(burst_members(fs, o, i, j)[m] == fs[o[j - 1] as int].id);
        }
    } else {
        assert(burst_members(fs, o, i, j)[m] == fs[o[i] as int].id);
    }
}

pub(crate) proof fn lemma_burst_from_ids(fs: Seq<FileRecord>, o: Seq<usize>, w: u32, i: int, x: i64)
    requires
        0 <= i,
        cluster_ids(burst_from(fs, o, w, i)).contains(x),
    ensures
        exists|k: int| i <= k < o.len() && fs[o[k] as int].id == x,
    decreases o.len() - i,
{
    let cs = burst_from(fs, o, w, i);
    if i < o.len() {
        let j = window_end(fs, o, w, i, i + 1);
        lemma_window_end_range(fs, o, w, i, i + 1);
        let g = burst_members(fs, o, i, j);
        let next = if j > i + 1 { j } else { i + 1 };
        let rest = burst_from(fs, o, w, next);
        lemma_cluster_ids_contains(cs, x);
        lemma_cluster_ids_contains(rest, x);
        let k = choose|k: int| 0 <= k < cs.len() && (#[trigger] cs[k]).3.contains(x);
        if g.len() >= 2 && k == 0 {
            let m = choose|m: int| 0 <= m < g.len() && g[m] == x;
            lemma_burst_members_from(fs, o, i, j, m);
        } else {
            if g.len() >= 2 {
                assert(cs[k] == rest[k - 1]);
                assert(rest[k - 1].3.contains(x));
            } else {
                assert(cs[k] == rest[k]);
            }
            lemma_burst_from_ids(fs, o, w, next, x);
        }
    } else {
        lemma_cluster_ids_contains(cs, x);
    }
}

/// Burst clustering never takes a file already used.
pub proof fn lemma_burst_avoids_used(fs: Seq<FileRecord>, used: Set<i64>, w: u32, o: Seq<usize>, x: i64)
    requires
        is_dated_order(fs, used, o),
        used.contains(x),
    ensures
        !cluster_ids(burst_from(fs, o, w, 0)).contains(x),
{
    if cluster_ids(burst_from(fs, o, w, 0)).contains(x) {
        lemma_burst_from_ids(fs, o, w, 0, x);
        let k = choose|k: int| 0 <= k < o.len() && fs[o[k] as int].id == x;
        assert(dated_candidate(fs, used, o[k] as int));
    }
}

/// The detectors never share a file: a file clustered by one detector is
/// in no cluster of a later one.
pub proof fn lemma_detectors_disjoint(
    fs: Seq<FileRecord>,
    config: ScanConfig,
    a: Seq<ClusterView>,
    b: Seq<ClusterView>,
    c: Seq<ClusterView>,
    x: i64,
)
    requires
        fs.len() <= usize::MAX,
        a == (if config.exact_hash { exact_clusters(fs, Set::empty()) } else { Seq::empty() }),
        config.visual_similar ==> visual_ok(fs, cluster_ids(a), config.phash_threshold, b),
        !config.visual_similar ==> b == Seq::<ClusterView>::empty(),
        config.burst_detection ==> crate::cluster::burst_ok(fs, cluster_ids(a) + cluster_ids(b), config.burst_window_secs, c),
        !config.burst_detection ==> c == Seq::<ClusterView>::empty(),
    ensures
        cluster_ids(a).contains(x) ==> !cluster_ids(b).contains(x),
        cluster_ids(a).contains(x) || cluster_ids(b).contains(x) ==> !cluster_ids(c).contains(x),
{
    lemma_cluster_ids_contains(b, x);
    lemma_cluster_ids_contains(c, x);
    if cluster_ids(a).contains(x) && config.visual_similar {
        lemma_visual_avoids_used(fs, cluster_ids(a), config.phash_threshold, b, x);
    }
    if (cluster_ids(a).contains(x) || cluster_ids(b).contains(x)) && config.burst_detection {
        let used = cluster_ids(a) + cluster_ids(b);
        let o = choose|o: Seq<usize>| is_dated_order(fs, used, o) && c == burst_from(fs, o, config.burst_window_secs, 0);
        lemma_burst_avoids_used(fs, used, config.burst_window_secs, o, x);
    }
}

/// The clusters of a scan never share a file between detectors.
pub proof fn lemma_clustering_disjoint(fs: Seq<FileRecord>, config: ScanConfig, cs: Seq<ClusterView>)
    requires
        fs.len() <= usize::MAX,
        clustering_ok(fs, config, cs),
    ensures
        exists|a: Seq<ClusterView>, b: Seq<ClusterView>, c: Seq<ClusterView>|
            cs == a + b + c && cluster_ids(a).disjoint(cluster_ids(b)) && (cluster_ids(a) + cluster_ids(b)).disjoint(
                cluster_ids(c),
            ),
{
    let (a, b, c) = choose|a: Seq<ClusterView>, b: Seq<ClusterView>, c: Seq<ClusterView>| {
        &&& cs == a + b + c
        &&& a == (if config.exact_hash { exact_clusters(fs, Set::empty()) } else { Seq::empty() })
        &&& (if config.visual_similar {
            visual_ok(fs, cluster_ids(a), config.phash_threshold, b)
        } else {
            b == Seq::<ClusterView>::empty()
        })
        &&& (if config.burst_detection {
            crate::cluster::burst_ok(fs, cluster_ids(a) + cluster_ids(b), config.burst_window_secs, c)
        } else {
            c == Seq::<ClusterView>::empty()
        })
    };
    assert forall|x: i64| !(cluster_ids(a).contains(x) && cluster_ids(b).contains(x)) by {
        lemma_detectors_disjoint(fs, config, a, b, c, x);
    }
    assert forall|x: i64| !((cluster_ids(a) + cluster_ids(b)).contains(x) && cluster_ids(c).contains(x)) by {
        lemma_detectors_disjoint(fs, config, a, b, c, x);
    }
}

/// A burst cluster: its first file is the first shot of the window, and
/// every member is a file from the same camera taken no earlier than it and
/// at most `w` seconds after it (as chrono measures time).
pub open spec fn burst_cluster_ok(fs: Seq<FileRecord>, w: u32, c: ClusterView) -> bool {
    exists|b: int|
        #![trigger fs[b]]
        0 <= b < fs.len() && c.3.len() > 0 && c.3[0] == fs[b].id && fs[b].exif is Some
            && fs[b].exif->0.date_taken is Some
            && forall|m: int|
            0 <= m < c.3.len() ==> exists|q: int|
                0 <= q < fs.len() && fs[q].id == #[trigger] c.3[m] && fs[q].exif is Some
                    && fs[q].exif->0.date_taken is Some
                    && camera_key_of(fs[q]) == camera_key_of(fs[b])
                    && !time_lt(taken_at(fs, q), taken_at(fs, b))
                    && elapsed_nanos(taken_at(fs, q), taken_at(fs, b)) <= w * 1_000_000_000
}

/// Shots before the end of a window are within `w` seconds of its first shot.
proof fn lemma_window_members(fs: Seq<FileRecord>, o: Seq<usize>, w: u32, i: int, j: int, k: int)
    requires
        j <= k < window_end(fs, o, w, i, j),
        0 <= j,
    ensures
        elapsed_nanos(taken_at(fs, o[k] as int), taken_at(fs, o[i] as int)) <= w * 1_000_000_000,
    decreases o.len() - j,
{
    if !(j >= o.len() || elapsed_nanos(taken_at(fs, o[j] as int), taken_at(fs, o[i] as int)) > w * 1_000_000_000) {
        if k > j {
            lemma_window_members(fs, o, w, i, j + 1, k);
        }
    }
}

/// A window's group always holds its first shot.
proof fn lemma_burst_members_nonempty(fs: Seq<FileRecord>, o: Seq<usize>, i: int, j: int)
    ensures
        burst_members(fs, o, i, j).len() >= 1,
        burst_members(fs, o, i, j)[0] == fs[o[i] as int].id,
    decreases j - i,
{
    if j > i + 1 {
        lemma_burst_members_nonempty(fs, o, i, j - 1);
    }
}

/// Each member of a window's group is a shot of the window from the
/// camera of its first shot.
proof fn lemma_burst_member_camera(fs: Seq<FileRecord>, o: Seq<usize>, i: int, j: int, m: int)
    requires
        0 <= i < j <= o.len(),
        0 <= m < burst_members(fs, o, i, j).len(),
    ensures
        exists|k: int|
            i <= k < j && burst_members(fs, o, i, j)[m] == fs[o[k] as int].id
                && #[trigger] camera_key_of(fs[o[k] as int]) == camera_key_of(fs[o[i] as int]),
    decreases j - i,
{
    if j > i + 1 {
        let prev = burst_members(fs, o, i, j - 1);
        lemma_burst_members_nonempty(fs, o, i, j);
        if m < prev.len() {
            lemma_burst_member_camera(fs, o, i, j - 1, m);
            let k = choose|k: int|
                i <= k < j - 1 && prev[m] == fs[o[k] as int].id
                    && #[trigger] camera_key_of(fs[o[k] as int]) == camera_key_of(fs[o[i] as int]);
            assert(burst_members(fs, o, i, j)[m] == prev[m]);
        } else {
            assert(burst_members(fs, o, i, j)[m] == fs[o[j - 1] as int].id);
        }
    } else {
        assert(burst_members(fs, o, i, j)[m] == fs[o[i] as int].id);
    }
}

proof fn lemma_burst_from_windows(fs: Seq<FileRecord>, used: Set<i64>, o: Seq<usize>, w: u32, i: int)
    requires
        is_dated_order(fs, used, o),
        0 <= i,
    ensures
        forall|k: int| 0 <= k < burst_from(fs, o, w, i).len() ==> burst_cluster_ok(fs, w, #[trigger] burst_from(fs, o, w, i)[k]),
    decreases o.len() - i,
{
    if i < o.len() {
        let j = window_end(fs, o, w, i, i + 1);
        lemma_window_end_range(fs, o, w, i, i + 1);
        let g = burst_members(fs, o, i, j);
        let next = if j > i + 1 { j } else { i + 1 };
        let rest = burst_from(fs, o, w, next);
        let cs = burst_from(fs, o, w, i);
        lemma_burst_from_windows(fs, used, o, w, next);
        if g.len() >= 2 {
            let b = o[i] as int;
            let c = cs[0];
            assert(c.3 == g);
            assert forall|m: int| 0 <= m < c.3.len() implies exists|q: int|
                0 <= q < fs.len() && fs[q].id == #[trigger] c.3[m] && fs[q].exif is Some
                    && fs[q].exif->0.date_taken is Some
                    && camera_key_of(fs[q]) == camera_key_of(fs[b])
                    && !time_lt(taken_at(fs, q), taken_at(fs, b))
                    && elapsed_nanos(taken_at(fs, q), taken_at(fs, b)) <= w * 1_000_000_000 by {
                lemma_burst_member_camera(fs, o, i, j, m);
                let k = choose|k: int|
                    i <= k < j && g[m] == fs[o[k] as int].id
                        && #[trigger] camera_key_of(fs[o[k] as int]) == camera_key_of(fs[o[i] as int]);
                if k > i {
                    lemma_window_members(fs, o, w, i, i + 1, k);
                    assert(crate::cluster::shot_before(fs, o[i] as int, o[k] as int));
                }
                assert(dated_candidate(fs, used, o[k] as int));
                let q = o[k] as int;
                assert(fs[q].id == c.3[m]);
            }
            lemma_burst_members_nonempty(fs, o, i, j);
            assert(dated_candidate(fs, used, b));
            assert(burst_cluster_ok(fs, w, c));
            assert forall|k: int| 0 <= k < cs.len() implies burst_cluster_ok(fs, w, #[trigger] cs[k]) by {
                if k > 0 {
                    assert(cs[k] == rest[k - 1]);
                }
            }
        } else {
            assert forall|k: int| 0 <= k < cs.len() implies burst_cluster_ok(fs, w, #[trigger] cs[k]) by {
                assert(cs[k] == rest[k]);
            }
        }
    }
}

/// Every burst cluster gathers shots from one camera, each taken at most
/// `window_secs` after the cluster's first shot.
pub proof fn lemma_burst_same_camera_within_window(fs: Seq<FileRecord>, used: Set<i64>, w: u32, cs: Seq<ClusterView>)
    requires
        burst_ok(fs, used, w, cs),
    ensures
        forall|k: int| 0 <= k < cs.len() ==> burst_cluster_ok(fs, w, #[trigger] cs[k]),
{
    let o = choose|o: Seq<usize>| is_dated_order(fs, used, o) && cs == burst_from(fs, o, w, 0);
    lemma_burst_from_windows(fs, used, o, w, 0);
}

} // verus!
