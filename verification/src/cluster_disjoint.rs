//! No file lands in two clusters of one scan.

use vstd::prelude::*;
use crate::cluster::{
    ClusterView, FileRecord, burst_from, burst_members, burst_ok, candidates, cluster_ids,
    clustering_ok, exact_clusters, exact_key, exact_view, group_files, hash_groups, ids_at,
    is_dated_order, lemma_visual_len, lemma_window_end_range, visual_labels, visual_ok,
    visual_view, window_end,
};
use crate::cluster_laws::{
    lemma_burst_from_ids, lemma_burst_members_from, lemma_candidates_are_candidates,
    lemma_cluster_ids_contains, lemma_detectors_disjoint, lemma_hash_groups_by_hash,
};
use crate::config::ScanConfig;
use crate::unionfind::{is_label_partition, lemma_partition_member_bound};

verus! {

/// No two files share an id.
pub open spec fn ids_distinct(fs: Seq<FileRecord>) -> bool {
    forall|i: int, j: int| 0 <= i < j < fs.len() ==> (#[trigger] fs[i]).id != (#[trigger] fs[j]).id
}

/// The two clusters list no common file.
pub open spec fn no_shared_file(a: ClusterView, b: ClusterView) -> bool {
    forall|x: i64| !(#[trigger] a.3.contains(x) && b.3.contains(x))
}

/// No two clusters of the sequence list a common file.
pub open spec fn pairwise_disjoint(cs: Seq<ClusterView>) -> bool {
    forall|k: int, l: int| 0 <= k < l < cs.len() ==> no_shared_file(#[trigger] cs[k], #[trigger] cs[l])
}

/// A relation that holds between every earlier and later element still
/// holds after filtering.
proof fn lemma_filter_pairwise<A>(s: Seq<A>, pred: spec_fn(A) -> bool, rel: spec_fn(A, A) -> bool)
    requires
        forall|p: int, q: int| #![trigger s[p], s[q]] 0 <= p < q < s.len() ==> rel(s[p], s[q]),
    ensures
        forall|k: int, l: int|
            #![trigger s.filter(pred)[k], s.filter(pred)[l]]
            0 <= k < l < s.filter(pred).len() ==> rel(s.filter(pred)[k], s.filter(pred)[l]),
    decreases s.len(),
{
    reveal_with_fuel(Seq::filter, 1);
    if s.len() > 0 {
        let s0 = s.drop_last();
        let f0 = s0.filter(pred);
        let f = s.filter(pred);
        assert forall|p: int, q: int| #![trigger s0[p], s0[q]] 0 <= p < q < s0.len() implies rel(s0[p], s0[q]) by {
            assert(s0[p] == s[p] && s0[q] == s[q]);
        }
        lemma_filter_pairwise(s0, pred, rel);
        if pred(s.last()) {
            assert(f == f0.push(s.last()));
            assert forall|k: int, l: int| #![trigger f[k], f[l]] 0 <= k < l < f.len() implies rel(f[k], f[l]) by {
                if l < f0.len() {
                    assert(f[k] == f0[k] && f[l] == f0[l]);
                } else {
                    assert(f[k] == f0[k]);
                    assert(f0.contains(f0[k]));
                    s0.lemma_filter_contains_rev(pred, f0[k]);
                    let p = choose|p: int| 0 <= p < s0.len() && s0[p] == f0[k];
                    assert(s[p] == f0[k]);
                    assert(s[s.len() - 1] == s.last());
                }
            }
        } else {
            assert(f == f0);
        }
    }
}

/// Exact clusters of files with distinct ids share no file.
proof fn lemma_exact_pairwise(fs: Seq<FileRecord>, used: Set<i64>)
    requires
        fs.len() <= usize::MAX,
        ids_distinct(fs),
    ensures
        pairwise_disjoint(exact_clusters(fs, used)),
{
    let n = fs.len() as int;
    let g = hash_groups(fs, used, n);
    lemma_hash_groups_by_hash(fs, used, n);
    let pred = |e: (Seq<char>, Seq<usize>)| e.1.len() >= 2;
    let rel = |a: (Seq<char>, Seq<usize>), b: (Seq<char>, Seq<usize>)| a.0 != b.0;
    assert forall|p: int, q: int| #![trigger g[p], g[q]] 0 <= p < q < g.len() implies rel(g[p], g[q]) by {}
    lemma_filter_pairwise(g, pred, rel);
    let f = g.filter(pred);
    let cs = exact_clusters(fs, used);
    assert forall|k: int, l: int| 0 <= k < l < cs.len() implies no_shared_file(#[trigger] cs[k], #[trigger] cs[l]) by {
        assert(cs[k] == exact_view(fs, f[k]));
        assert(cs[l] == exact_view(fs, f[l]));
        assert forall|x: i64| !(#[trigger] cs[k].3.contains(x) && cs[l].3.contains(x)) by {
            if cs[k].3.contains(x) && cs[l].3.contains(x) {
                let m1 = choose|m: int| 0 <= m < cs[k].3.len() && cs[k].3[m] == x;
                let m2 = choose|m: int| 0 <= m < cs[l].3.len() && cs[l].3[m] == x;
                g.lemma_filter_contains_rev(pred, f[k]);
                g.lemma_filter_contains_rev(pred, f[l]);
                let p1 = choose|p: int| 0 <= p < g.len() && g[p] == f[k];
                let p2 = choose|p: int| 0 <= p < g.len() && g[p] == f[l];
                let a = g[p1].1[m1] as int;
                let b = g[p2].1[m2] as int;
                assert(ids_at(fs, g[p1].1)[m1] == fs[a].id);
                assert(ids_at(fs, g[p2].1)[m2] == fs[b].id);
                assert(exact_key(fs, used, a) == Some(g[p1].0));
                assert(exact_key(fs, used, b) == Some(g[p2].0));
                if a < b {
                    assert(fs[a].id != fs[b].id);
                } else if b < a {
                    assert(fs[b].id != fs[a].id);
                }
                assert(rel(f[k], f[l]));
            }
        }
    }
}

/// Visual clusters of files with distinct ids share no file.
proof fn lemma_visual_pairwise(fs: Seq<FileRecord>, used: Set<i64>, t: u8, cs: Seq<ClusterView>)
    requires
        fs.len() <= usize::MAX,
        visual_ok(fs, used, t, cs),
        ids_distinct(fs),
    ensures
        pairwise_disjoint(cs),
{
    let cand = candidates(fs, used);
    let labels = visual_labels(fs, cand, t);
    let gs = choose|gs: Seq<Seq<usize>>|
        is_label_partition(labels, gs) && cs == crate::cluster::visual_views(fs, cand, t, gs);
    lemma_visual_len(fs, cand, t);
    let pred = |g: Seq<usize>| g.len() >= 2;
    let rel = |a: Seq<usize>, b: Seq<usize>| labels[a[0] as int] != labels[b[0] as int];
    assert forall|p: int, q: int| #![trigger gs[p], gs[q]] 0 <= p < q < gs.len() implies rel(gs[p], gs[q]) by {}
    lemma_filter_pairwise(gs, pred, rel);
    let f = gs.filter(pred);
    let all = Seq::new(fs.len(), |i: int| i as usize);
    let cpred = |i: usize| crate::cluster::visual_candidate(fs, used, i as int);
    let ne = |x: usize, y: usize| x != y;
    assert forall|p: int, q: int| #![trigger all[p], all[q]] 0 <= p < q < all.len() implies ne(all[p], all[q]) by {
        assert(all[p] == p as usize && all[q] == q as usize);
    }
    lemma_filter_pairwise(all, cpred, ne);
    assert(cand == all.filter(cpred));
    assert forall|k: int, l: int| 0 <= k < l < cs.len() implies no_shared_file(#[trigger] cs[k], #[trigger] cs[l]) by {
        assert(cs[k] == visual_view(fs, cand, t, f[k]));
        assert(cs[l] == visual_view(fs, cand, t, f[l]));
        assert forall|x: i64| !(#[trigger] cs[k].3.contains(x) && cs[l].3.contains(x)) by {
            if cs[k].3.contains(x) && cs[l].3.contains(x) {
                let m1 = choose|m: int| 0 <= m < cs[k].3.len() && cs[k].3[m] == x;
                let m2 = choose|m: int| 0 <= m < cs[l].3.len() && cs[l].3[m] == x;
                gs.lemma_filter_contains_rev(pred, f[k]);
                gs.lemma_filter_contains_rev(pred, f[l]);
                let p1 = choose|p: int| 0 <= p < gs.len() && gs[p] == f[k];
                let p2 = choose|p: int| 0 <= p < gs.len() && gs[p] == f[l];
                lemma_partition_member_bound(labels, gs, p1, m1);
                lemma_partition_member_bound(labels, gs, p2, m2);
                let c1 = gs[p1][m1] as int;
                let c2 = gs[p2][m2] as int;
                lemma_candidates_are_candidates(fs, used, c1);
                lemma_candidates_are_candidates(fs, used, c2);
                assert(group_files(cand, gs[p1])[m1] == cand[c1]);
                assert(group_files(cand, gs[p2])[m2] == cand[c2]);
                assert(ids_at(fs, group_files(cand, gs[p1]))[m1] == fs[cand[c1] as int].id);
                assert(ids_at(fs, group_files(cand, gs[p2]))[m2] == fs[cand[c2] as int].id);
                let a = cand[c1] as int;
                let b = cand[c2] as int;
                if a < b {
                    assert(fs[a].id != fs[b].id);
                } else if b < a {
                    assert(fs[b].id != fs[a].id);
                }
                if c1 < c2 {
                    assert(ne(cand[c1], cand[c2]));
                } else if c2 < c1 {
                    assert(ne(cand[c2], cand[c1]));
                }
                assert(labels[c1] == labels[gs[p1][0] as int]);
                assert(labels[c2] == labels[gs[p2][0] as int]);
                assert(rel(f[k], f[l]));
            }
        }
    }
}

/// Burst clusters of files with distinct ids, found from position `i` on,
/// share no file.
proof fn lemma_burst_pairwise(fs: Seq<FileRecord>, used: Set<i64>, o: Seq<usize>, w: u32, i: int)
    requires
        is_dated_order(fs, used, o),
        ids_distinct(fs),
        0 <= i,
    ensures
        pairwise_disjoint(burst_from(fs, o, w, i)),
    decreases o.len() - i,
{
    if i < o.len() {
        let j = window_end(fs, o, w, i, i + 1);
        lemma_window_end_range(fs, o, w, i, i + 1);
        let g = burst_members(fs, o, i, j);
        let next = if j > i + 1 { j } else { i + 1 };
        let rest = burst_from(fs, o, w, next);
        let cs = burst_from(fs, o, w, i);
        lemma_burst_pairwise(fs, used, o, w, next);
        if g.len() >= 2 {
            let c0 = cs[0];
            assert(c0.3 == g);
            assert forall|l: int| 0 <= l < rest.len() implies no_shared_file(c0, #[trigger] rest[l]) by {
                assert forall|x: i64| !(#[trigger] c0.3.contains(x) && rest[l].3.contains(x)) by {
                    if c0.3.contains(x) && rest[l].3.contains(x) {
                        let m = choose|m: int| 0 <= m < g.len() && g[m] == x;
                        lemma_burst_members_from(fs, o, i, j, m);
                        let k1 = choose|k: int| i <= k < j && g[m] == fs[o[k] as int].id;
                        lemma_cluster_ids_contains(rest, x);
                        lemma_burst_from_ids(fs, o, w, next, x);
                        let k2 = choose|k: int| next <= k < o.len() && fs[o[k] as int].id == x;
                        assert(crate::cluster::shot_before(fs, o[k1] as int, o[k2] as int));
                        let a = o[k1] as int;
                        let b = o[k2] as int;
                        if a < b {
                            assert(fs[a].id != fs[b].id);
                        } else if b < a {
                            assert(fs[b].id != fs[a].id);
                        }
                    }
                }
            }
            assert forall|k: int, l: int| 0 <= k < l < cs.len() implies no_shared_file(#[trigger] cs[k], #[trigger] cs[l]) by {
                assert(cs[l] == rest[l - 1]);
                if k > 0 {
                    assert(cs[k] == rest[k - 1]);
                }
            }
        } else {
            assert(cs == rest);
        }
    }
}

/// When files carry distinct ids, no file lands in two clusters of a scan:
/// neither in two clusters of one detector nor in clusters of two
/// detectors.
pub proof fn lemma_no_file_in_two_clusters(fs: Seq<FileRecord>, config: ScanConfig, cs: Seq<ClusterView>)
    requires
        fs.len() <= usize::MAX,
        ids_distinct(fs),
        clustering_ok(fs, config, cs),
    ensures
        pairwise_disjoint(cs),
{
    let (a, b, c) = choose|a: Seq<ClusterView>, b: Seq<ClusterView>, c: Seq<ClusterView>| {
        &&& cs == a + b + c
        &&& a == (if config.exact_hash { exact_clusters(fs, Set::empty()) } else { Seq::empty() })
        &&& (if config.visual_similar {
            visual_ok(fs, cluster_ids(a), config.phash_threshold, b)
        } else {
            b == Seq::<ClusterView>::empty()
        })
        &&& (if config.burst_detection {
            burst_ok(fs, cluster_ids(a) + cluster_ids(b), config.burst_window_secs, c)
        } else {
            c == Seq::<ClusterView>::empty()
        })
    };
    if config.exact_hash {
        lemma_exact_pairwise(fs, Set::empty());
    }
    if config.visual_similar {
        lemma_visual_pairwise(fs, cluster_ids(a), config.phash_threshold, b);
    }
    if config.burst_detection {
        let used = cluster_ids(a) + cluster_ids(b);
        let o = choose|o: Seq<usize>| is_dated_order(fs, used, o) && c == burst_from(fs, o, config.burst_window_secs, 0);
        lemma_burst_pairwise(fs, used, o, config.burst_window_secs, 0);
    }
    let na = a.len() as int;
    let nb = b.len() as int;
    assert forall|k: int, l: int| 0 <= k < l < cs.len() implies no_shared_file(#[trigger] cs[k], #[trigger] cs[l]) by {
        assert forall|x: i64| !(#[trigger] cs[k].3.contains(x) && cs[l].3.contains(x)) by {
            if cs[k].3.contains(x) && cs[l].3.contains(x) {
                lemma_detectors_disjoint(fs, config, a, b, c, x);
                lemma_cluster_ids_contains(a, x);
                lemma_cluster_ids_contains(b, x);
                lemma_cluster_ids_contains(c, x);
                if k < na {
                    assert(cs[k] == a[k]);
                    if l < na {
                        assert(cs[l] == a[l]);
                        assert(no_shared_file(a[k], a[l]));
                    } else if l < na + nb {
                        assert(cs[l] == b[l - na]);
                    } else {
                        assert(cs[l] == c[l - na - nb]);
                    }
                } else if k < na + nb {
                    assert(cs[k] == b[k - na]);
                    if l < na + nb {
                        assert(cs[l] == b[l - na]);
                        assert(no_shared_file(b[k - na], b[l - na]));
                    } else {
                        assert(cs[l] == c[l - na - nb]);
                    }
                } else {
                    assert(cs[k] == c[k - na - nb]);
                    assert(cs[l] == c[l - na - nb]);
                    assert(no_shared_file(c[k - na - nb], c[l - na - nb]));
                }
            }
        }
    }
}

} // verus!
