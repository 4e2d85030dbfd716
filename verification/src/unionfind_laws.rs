//! What a sequence of unions computes: two elements end up in one set
//! exactly when the merged pairs connect them.

use vstd::prelude::*;
use crate::unionfind::{
    is_label_partition, lemma_merge_joins_sets, lemma_partition_member_bound, merge_labels,
    singleton_labels,
};

verus! {

/// `s` holds both elements of each pair or neither.
pub open spec fn closed_under(s: Set<int>, pairs: Seq<(int, int)>) -> bool {
    forall|k: int| 0 <= k < pairs.len() ==> (s.contains(#[trigger] pairs[k].0) <==> s.contains(pairs[k].1))
}

/// `i` and `j` are connected in the undirected graph whose edges are the
/// pairs: `j` lies in every set that holds `i` and holds both ends of each
/// pair or neither.
pub open spec fn connected(pairs: Seq<(int, int)>, i: int, j: int) -> bool {
    forall|s: Set<int>| #[trigger] closed_under(s, pairs) && s.contains(i) ==> s.contains(j)
}

/// Labels after merging the sets of each pair in turn.
pub open spec fn union_all(l: Seq<int>, pairs: Seq<(int, int)>) -> Seq<int>
    decreases pairs.len(),
{
    if pairs.len() == 0 {
        l
    } else {
        merge_labels(union_all(l, pairs.drop_last()), pairs.last().0, pairs.last().1)
    }
}

/// Every pair lies within `0..n`.
pub open spec fn pairs_within(pairs: Seq<(int, int)>, n: nat) -> bool {
    forall|k: int| 0 <= k < pairs.len() ==> 0 <= (#[trigger] pairs[k]).0 < n && 0 <= pairs[k].1 < n
}

proof fn lemma_union_all_len(n: nat, pairs: Seq<(int, int)>)
    ensures
        union_all(singleton_labels(n), pairs).len() == n,
    decreases pairs.len(),
{
    if pairs.len() > 0 {
        lemma_union_all_len(n, pairs.drop_last());
    }
}

/// Connection goes both ways.
proof fn lemma_connected_symmetric(pairs: Seq<(int, int)>, i: int, j: int)
    requires
        connected(pairs, i, j),
    ensures
        connected(pairs, j, i),
{
    assert forall|s: Set<int>| #[trigger] closed_under(s, pairs) && s.contains(j) implies s.contains(i) by {
        if !s.contains(i) {
            let t = s.complement();
            assert(closed_under(t, pairs));
        }
    }
}

/// A connection through fewer pairs is a connection through more.
proof fn lemma_connected_extend(pairs: Seq<(int, int)>, i: int, j: int)
    requires
        pairs.len() > 0,
        connected(pairs.drop_last(), i, j),
    ensures
        connected(pairs, i, j),
{
    assert forall|s: Set<int>| #[trigger] closed_under(s, pairs) && s.contains(i) implies s.contains(j) by {
        assert forall|k: int| 0 <= k < pairs.drop_last().len() implies
            (s.contains(#[trigger] pairs.drop_last()[k].0) <==> s.contains(pairs.drop_last()[k].1)) by {
            assert(pairs.drop_last()[k] == pairs[k]);
        }
        assert(closed_under(s, pairs.drop_last()));
    }
}

/// After the unions, the two elements of every pair share a label.
proof fn lemma_pairs_joined(n: nat, pairs: Seq<(int, int)>, k: int)
    requires
        pairs_within(pairs, n),
        0 <= k < pairs.len(),
    ensures
        union_all(singleton_labels(n), pairs)[pairs[k].0] == union_all(singleton_labels(n), pairs)[pairs[k].1],
    decreases pairs.len(),
{
    let p0 = pairs.drop_last();
    let l0 = union_all(singleton_labels(n), p0);
    lemma_union_all_len(n, p0);
    let (a, b) = pairs.last();
    assert(pairs[pairs.len() - 1] == pairs.last());
    assert(pairs_within(p0, n)) by {
        assert forall|q: int| 0 <= q < p0.len() implies 0 <= (#[trigger] p0[q]).0 < n && 0 <= p0[q].1 < n by {
            assert(p0[q] == pairs[q]);
        }
    }
    if k < pairs.len() - 1 {
        lemma_pairs_joined(n, p0, k);
        assert(p0[k] == pairs[k]);
        lemma_merge_joins_sets(l0, a, b, pairs[k].0, pairs[k].1);
    } else {
        lemma_merge_joins_sets(l0, a, b, a, b);
    }
}

/// Elements sharing a label after the unions are connected by the pairs.
proof fn lemma_joined_connected(n: nat, pairs: Seq<(int, int)>, i: int, j: int)
    requires
        pairs_within(pairs, n),
        0 <= i < n,
        0 <= j < n,
        union_all(singleton_labels(n), pairs)[i] == union_all(singleton_labels(n), pairs)[j],
    ensures
        connected(pairs, i, j),
    decreases pairs.len(),
{
    if pairs.len() == 0 {
        assert(singleton_labels(n)[i] == i && singleton_labels(n)[j] == j);
    } else {
        let p0 = pairs.drop_last();
        let l0 = union_all(singleton_labels(n), p0);
        lemma_union_all_len(n, p0);
        let (a, b) = pairs.last();
        assert(pairs[pairs.len() - 1] == pairs.last());
        assert(pairs_within(p0, n)) by {
            assert forall|q: int| 0 <= q < p0.len() implies 0 <= (#[trigger] p0[q]).0 < n && 0 <= p0[q].1 < n by {
                assert(p0[q] == pairs[q]);
            }
        }
        lemma_merge_joins_sets(l0, a, b, i, j);
        assert(connected(pairs, a, b)) by {
            assert forall|s: Set<int>| #[trigger] closed_under(s, pairs) && s.contains(a) implies s.contains(b) by {
                assert(s.contains(pairs[pairs.len() - 1].0));
            }
        }
        if l0[i] == l0[j] {
            lemma_joined_connected(n, p0, i, j);
            lemma_connected_extend(pairs, i, j);
        } else if l0[i] == l0[a] && l0[j] == l0[b] {
            lemma_joined_connected(n, p0, i, a);
            lemma_joined_connected(n, p0, j, b);
            lemma_connected_extend(pairs, i, a);
            lemma_connected_extend(pairs, j, b);
            lemma_connected_symmetric(pairs, j, b);
        } else {
            lemma_joined_connected(n, p0, i, b);
            lemma_joined_connected(n, p0, j, a);
            lemma_connected_extend(pairs, i, b);
            lemma_connected_extend(pairs, j, a);
            lemma_connected_symmetric(pairs, j, a);
            lemma_connected_symmetric(pairs, a, b);
        }
    }
}

/// Starting from singleton sets over `0..n` and merging the sets of each
/// pair in turn, two elements end up with one label exactly when the pairs
/// connect them, as edges of an undirected graph.
pub proof fn lemma_unions_join_connected(n: nat, pairs: Seq<(int, int)>, i: int, j: int)
    requires
        pairs_within(pairs, n),
        0 <= i < n,
        0 <= j < n,
    ensures
        union_all(singleton_labels(n), pairs)[i] == union_all(singleton_labels(n), pairs)[j] <==> connected(pairs, i, j),
{
    let l = union_all(singleton_labels(n), pairs);
    lemma_union_all_len(n, pairs);
    if l[i] == l[j] {
        lemma_joined_connected(n, pairs, i, j);
    }
    if connected(pairs, i, j) {
        let s = Set::new(|z: int| 0 <= z < n && l[z] == l[i]);
        assert forall|k: int| 0 <= k < pairs.len() implies (s.contains(#[trigger] pairs[k].0) <==> s.contains(pairs[k].1)) by {
            lemma_pairs_joined(n, pairs, k);
        }
        assert(closed_under(s, pairs));
        assert(s.contains(i));
    }
}

/// One more union extends the sequence of unions by its pair.
pub proof fn lemma_union_all_push(l: Seq<int>, pairs: Seq<(int, int)>, a: int, b: int)
    ensures
        merge_labels(union_all(l, pairs), a, b) == union_all(l, pairs.push((a, b))),
{
    assert(pairs.push((a, b)).drop_last() =~= pairs);
}

/// The groups of the labels after the unions are the connected components
/// of the pairs: two listed elements are in one group exactly when the
/// pairs connect them. (Each group is non-empty and ascending, and every
/// element of `0..n` is listed, by `is_label_partition`.)
pub proof fn lemma_groups_are_components(
    n: nat,
    pairs: Seq<(int, int)>,
    gs: Seq<Seq<usize>>,
    p1: int,
    m1: int,
    p2: int,
    m2: int,
)
    requires
        pairs_within(pairs, n),
        is_label_partition(union_all(singleton_labels(n), pairs), gs),
        0 <= p1 < gs.len(),
        0 <= m1 < gs[p1].len(),
        0 <= p2 < gs.len(),
        0 <= m2 < gs[p2].len(),
    ensures
        p1 == p2 <==> connected(pairs, gs[p1][m1] as int, gs[p2][m2] as int),
{
    let l = union_all(singleton_labels(n), pairs);
    lemma_union_all_len(n, pairs);
    lemma_partition_member_bound(l, gs, p1, m1);
    lemma_partition_member_bound(l, gs, p2, m2);
    let x = gs[p1][m1] as int;
    let y = gs[p2][m2] as int;
    lemma_unions_join_connected(n, pairs, x, y);
    let g1 = gs[p1];
    let g2 = gs[p2];
    assert(l[g1[m1] as int] == l[g1[0] as int]);
    assert(l[g2[m2] as int] == l[g2[0] as int]);
    if p1 < p2 {
        assert(l[gs[p1][0] as int] != l[gs[p2][0] as int]);
    } else if p2 < p1 {
        assert(l[gs[p2][0] as int] != l[gs[p1][0] as int]);
    }
}

} // verus!
