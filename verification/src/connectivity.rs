//! Visual grouping merges transitively: two candidates end up in one group
//! exactly when a chain of linked pairs joins them.

use vstd::prelude::*;
use crate::cluster::{
    FileRecord, row_labels, visual_edge, visual_labels, visual_labels_upto, size_compatible,
};
use crate::hash::lemma_hamming_symmetric;
use crate::unionfind::{lemma_merge_joins_sets, merge_labels, singleton_labels};

verus! {

/// Candidates `u` and `v` are linked (in either order).
pub open spec fn linked(fs: Seq<FileRecord>, cand: Seq<usize>, t: u8, u: int, v: int) -> bool {
    ||| (0 <= u < v < cand.len() && visual_edge(fs, cand, t, u, v))
    ||| (0 <= v < u < cand.len() && visual_edge(fs, cand, t, v, u))
}

/// `path` is a chain of candidates, each linked to the next.
pub open spec fn is_chain(fs: Seq<FileRecord>, cand: Seq<usize>, t: u8, path: Seq<int>) -> bool {
    &&& path.len() >= 1
    &&& forall|i: int| 0 <= i < path.len() ==> 0 <= #[trigger] path[i] < cand.len()
    &&& forall|i: int| 0 <= i < path.len() - 1 ==> linked(fs, cand, t, #[trigger] path[i], path[i + 1])
}

/// Candidates `x` and `y` are joined by a chain of linked pairs.
pub open spec fn chained(fs: Seq<FileRecord>, cand: Seq<usize>, t: u8, x: int, y: int) -> bool {
    exists|path: Seq<int>| #[trigger] is_chain(fs, cand, t, path) && path[0] == x && path.last() == y
}

/// The pair `u < v` comes before `(p0, q0)` in row order.
pub open spec fn before(p0: int, q0: int, u: int, v: int) -> bool {
    u < p0 || (u == p0 && v < q0)
}

/// `u` and `v` are linked by a pair that comes before `(p0, q0)`.
pub open spec fn linked_before(fs: Seq<FileRecord>, cand: Seq<usize>, t: u8, p0: int, q0: int, u: int, v: int) -> bool {
    ||| (0 <= u < v < cand.len() && before(p0, q0, u, v) && visual_edge(fs, cand, t, u, v))
    ||| (0 <= v < u < cand.len() && before(p0, q0, v, u) && visual_edge(fs, cand, t, v, u))
}

/// A chain using only pairs before `(p0, q0)`.
pub open spec fn is_chain_before(fs: Seq<FileRecord>, cand: Seq<usize>, t: u8, p0: int, q0: int, path: Seq<int>) -> bool {
    &&& path.len() >= 1
    &&& forall|i: int| 0 <= i < path.len() ==> 0 <= #[trigger] path[i] < cand.len()
    &&& forall|i: int| 0 <= i < path.len() - 1 ==> linked_before(fs, cand, t, p0, q0, #[trigger] path[i], path[i + 1])
}

/// `x` and `y` are joined by a chain of pairs before `(p0, q0)`.
pub open spec fn conn(fs: Seq<FileRecord>, cand: Seq<usize>, t: u8, p0: int, q0: int, x: int, y: int) -> bool {
    exists|path: Seq<int>| #[trigger] is_chain_before(fs, cand, t, p0, q0, path) && path[0] == x && path.last() == y
}

/// Labels agree exactly on candidates joined by pairs before `(p0, q0)`.
pub open spec fn labels_match(l: Seq<int>, fs: Seq<FileRecord>, cand: Seq<usize>, t: u8, p0: int, q0: int) -> bool {
    &&& l.len() == cand.len()
    &&& forall|x: int, y: int|
        0 <= x < cand.len() && 0 <= y < cand.len() ==> ((l[x] == l[y]) <==> #[trigger] conn(fs, cand, t, p0, q0, x, y))
}

proof fn lemma_conn_refl(fs: Seq<FileRecord>, cand: Seq<usize>, t: u8, p0: int, q0: int, x: int)
    requires
        0 <= x < cand.len(),
    ensures
        conn(fs, cand, t, p0, q0, x, x),
{
    let path = seq![x];
    assert(is_chain_before(fs, cand, t, p0, q0, path));
}

proof fn lemma_conn_sym(fs: Seq<FileRecord>, cand: Seq<usize>, t: u8, p0: int, q0: int, x: int, y: int)
    requires
        conn(fs, cand, t, p0, q0, x, y),
    ensures
        conn(fs, cand, t, p0, q0, y, x),
{
    let path = choose|path: Seq<int>| #[trigger] is_chain_before(fs, cand, t, p0, q0, path) && path[0] == x && path.last() == y;
    let r = path.reverse();
    assert forall|i: int| 0 <= i < r.len() - 1 implies linked_before(fs, cand, t, p0, q0, #[trigger] r[i], r[i + 1]) by {
        let k = path.len() - 2 - i;
        assert(linked_before(fs, cand, t, p0, q0, path[k], path[k + 1]));
        assert(r[i] == path[k + 1]);
        assert(r[i + 1] == path[k]);
    }
    assert(is_chain_before(fs, cand, t, p0, q0, r));
    assert(r[0] == y);
    assert(r.last() == x);
}

proof fn lemma_conn_trans(fs: Seq<FileRecord>, cand: Seq<usize>, t: u8, p0: int, q0: int, x: int, y: int, z: int)
    requires
        conn(fs, cand, t, p0, q0, x, y),
        conn(fs, cand, t, p0, q0, y, z),
    ensures
        conn(fs, cand, t, p0, q0, x, z),
{
    let a = choose|path: Seq<int>| #[trigger] is_chain_before(fs, cand, t, p0, q0, path) && path[0] == x && path.last() == y;
    let b = choose|path: Seq<int>| #[trigger] is_chain_before(fs, cand, t, p0, q0, path) && path[0] == y && path.last() == z;
    let c = a + b.drop_first();
    assert forall|i: int| 0 <= i < c.len() implies 0 <= #[trigger] c[i] < cand.len() by {
        if i >= a.len() {
            assert(c[i] == b[i - a.len() + 1]);
        }
    }
    assert forall|i: int| 0 <= i < c.len() - 1 implies linked_before(fs, cand, t, p0, q0, #[trigger] c[i], c[i + 1]) by {
        if i < a.len() - 1 {
            assert(c[i] == a[i] && c[i + 1] == a[i + 1]);
        } else if i == a.len() - 1 {
            assert(c[i] == a.last());
            assert(c[i + 1] == b[1]);
            assert(linked_before(fs, cand, t, p0, q0, b[0], b[1]));
        } else {
            let k = i - a.len() + 1;
            assert(c[i] == b[k] && c[i + 1] == b[k + 1]);
            assert(linked_before(fs, cand, t, p0, q0, b[k], b[k + 1]));
        }
    }
    assert(is_chain_before(fs, cand, t, p0, q0, c));
    assert(c[0] == x);
    if b.len() == 1 {
        assert(c =~= a);
    } else {
        assert(c.last() == b.last());
    }
}

proof fn lemma_conn_link(fs: Seq<FileRecord>, cand: Seq<usize>, t: u8, p0: int, q0: int, x: int, y: int)
    requires
        linked_before(fs, cand, t, p0, q0, x, y),
    ensures
        conn(fs, cand, t, p0, q0, x, y),
{
    let path = seq![x, y];
    assert(is_chain_before(fs, cand, t, p0, q0, path));
}

/// Chains that may use the pair `(p, q)` as well: joined then exactly when
/// joined before, or joined to the two ends of the new pair.
proof fn lemma_split_chain(fs: Seq<FileRecord>, cand: Seq<usize>, t: u8, p: int, q: int, path: Seq<int>)
    requires
        is_chain_before(fs, cand, t, p, q + 1, path),
        0 <= p < q < cand.len(),
    ensures
        ({
            let x = path[0];
            let y = path.last();
            ||| conn(fs, cand, t, p, q, x, y)
            ||| (conn(fs, cand, t, p, q, x, p) && conn(fs, cand, t, p, q, q, y))
            ||| (conn(fs, cand, t, p, q, x, q) && conn(fs, cand, t, p, q, p, y))
        }),
    decreases path.len(),
{
    let x = path[0];
    let y = path.last();
    if path.len() == 1 {
        lemma_conn_refl(fs, cand, t, p, q, x);
    } else {
        let pre = path.drop_last();
        assert forall|i: int| 0 <= i < pre.len() - 1 implies linked_before(fs, cand, t, p, q + 1, #[trigger] pre[i], pre[i + 1]) by {
            assert(pre[i] == path[i] && pre[i + 1] == path[i + 1]);
        }
        assert(is_chain_before(fs, cand, t, p, q + 1, pre));
        lemma_split_chain(fs, cand, t, p, q, pre);
        let z = pre.last();
        assert(z == path[path.len() - 2]);
        assert(linked_before(fs, cand, t, p, q + 1, z, y));
        lemma_conn_refl(fs, cand, t, p, q, y);
        lemma_conn_refl(fs, cand, t, p, q, x);
        if linked_before(fs, cand, t, p, q, z, y) {
            lemma_conn_link(fs, cand, t, p, q, z, y);
            if conn(fs, cand, t, p, q, x, z) {
                lemma_conn_trans(fs, cand, t, p, q, x, z, y);
            } else if conn(fs, cand, t, p, q, x, p) && conn(fs, cand, t, p, q, q, z) {
                lemma_conn_trans(fs, cand, t, p, q, q, z, y);
            } else {
                lemma_conn_trans(fs, cand, t, p, q, p, z, y);
            }
        } else {
            // the link z-y is the new pair (p, q)
            assert((z == p && y == q) || (z == q && y == p));
            lemma_conn_refl(fs, cand, t, p, q, p);
            lemma_conn_refl(fs, cand, t, p, q, q);
        }
    }
}

/// Chains before `(p, q)` are chains before `(p, q + 1)`.
proof fn lemma_widen(fs: Seq<FileRecord>, cand: Seq<usize>, t: u8, p: int, q: int, x: int, y: int)
    requires
        conn(fs, cand, t, p, q, x, y),
    ensures
        conn(fs, cand, t, p, q + 1, x, y),
{
    let path = choose|path: Seq<int>| #[trigger] is_chain_before(fs, cand, t, p, q, path) && path[0] == x && path.last() == y;
    assert forall|i: int| 0 <= i < path.len() - 1 implies linked_before(fs, cand, t, p, q + 1, #[trigger] path[i], path[i + 1]) by {
        assert(linked_before(fs, cand, t, p, q, path[i], path[i + 1]));
    }
    assert(is_chain_before(fs, cand, t, p, q + 1, path));
}

/// Adding the pair `(p, q)`: joined exactly when joined before or joined to
/// its two ends.
proof fn lemma_add_pair(fs: Seq<FileRecord>, cand: Seq<usize>, t: u8, p: int, q: int, x: int, y: int)
    requires
        0 <= p < q < cand.len(),
        0 <= x < cand.len(),
        0 <= y < cand.len(),
        visual_edge(fs, cand, t, p, q),
    ensures
        conn(fs, cand, t, p, q + 1, x, y) <==> (conn(fs, cand, t, p, q, x, y) || (conn(fs, cand, t, p, q, x, p)
            && conn(fs, cand, t, p, q, q, y)) || (conn(fs, cand, t, p, q, x, q) && conn(fs, cand, t, p, q, p, y))),
{
    if conn(fs, cand, t, p, q + 1, x, y) {
        let path = choose|path: Seq<int>| #[trigger] is_chain_before(fs, cand, t, p, q + 1, path) && path[0] == x && path.last() == y;
        lemma_split_chain(fs, cand, t, p, q, path);
    }
    assert(linked_before(fs, cand, t, p, q + 1, p, q));
    lemma_conn_link(fs, cand, t, p, q + 1, p, q);
    lemma_conn_sym(fs, cand, t, p, q + 1, p, q);
    if conn(fs, cand, t, p, q, x, y) {
        lemma_widen(fs, cand, t, p, q, x, y);
    }
    if conn(fs, cand, t, p, q, x, p) && conn(fs, cand, t, p, q, q, y) {
        lemma_widen(fs, cand, t, p, q, x, p);
        lemma_widen(fs, cand, t, p, q, q, y);
        lemma_conn_trans(fs, cand, t, p, q + 1, x, p, q);
        lemma_conn_trans(fs, cand, t, p, q + 1, x, q, y);
    }
    if conn(fs, cand, t, p, q, x, q) && conn(fs, cand, t, p, q, p, y) {
        lemma_widen(fs, cand, t, p, q, x, q);
        lemma_widen(fs, cand, t, p, q, p, y);
        lemma_conn_trans(fs, cand, t, p, q + 1, x, q, p);
        lemma_conn_trans(fs, cand, t, p, q + 1, x, p, y);
    }
}

/// Two bounds that admit the same pairs give the same joins.
proof fn lemma_same_pairs(fs: Seq<FileRecord>, cand: Seq<usize>, t: u8, p1: int, q1: int, p2: int, q2: int, x: int, y: int)
    requires
        forall|u: int, v: int| 0 <= u < v < cand.len() ==> (before(p1, q1, u, v) <==> before(p2, q2, u, v)),
    ensures
        conn(fs, cand, t, p1, q1, x, y) <==> conn(fs, cand, t, p2, q2, x, y),
{
    if conn(fs, cand, t, p1, q1, x, y) {
        let path = choose|path: Seq<int>| #[trigger] is_chain_before(fs, cand, t, p1, q1, path) && path[0] == x && path.last() == y;
        assert forall|i: int| 0 <= i < path.len() - 1 implies linked_before(fs, cand, t, p2, q2, #[trigger] path[i], path[i + 1]) by {
            assert(linked_before(fs, cand, t, p1, q1, path[i], path[i + 1]));
        }
        assert(is_chain_before(fs, cand, t, p2, q2, path));
    }
    if conn(fs, cand, t, p2, q2, x, y) {
        let path = choose|path: Seq<int>| #[trigger] is_chain_before(fs, cand, t, p2, q2, path) && path[0] == x && path.last() == y;
        assert forall|i: int| 0 <= i < path.len() - 1 implies linked_before(fs, cand, t, p1, q1, #[trigger] path[i], path[i + 1]) by {
            assert(linked_before(fs, cand, t, p2, q2, path[i], path[i + 1]));
        }
        assert(is_chain_before(fs, cand, t, p1, q1, path));
    }
}

/// One step of a row keeps labels matching joins.
proof fn lemma_row_step(l: Seq<int>, fs: Seq<FileRecord>, cand: Seq<usize>, t: u8, p: int, q: int)
    requires
        labels_match(l, fs, cand, t, p, q),
        0 <= p < q < cand.len(),
    ensures
        labels_match(
            if visual_edge(fs, cand, t, p, q) {
                merge_labels(l, p, q)
            } else {
                l
            },
            fs,
            cand,
            t,
            p,
            q + 1,
        ),
{
    let l2 = if visual_edge(fs, cand, t, p, q) { merge_labels(l, p, q) } else { l };
    assert forall|x: int, y: int| 0 <= x < cand.len() && 0 <= y < cand.len() implies ((l2[x] == l2[y])
        <==> #[trigger] conn(fs, cand, t, p, q + 1, x, y)) by {
        if visual_edge(fs, cand, t, p, q) {
            lemma_merge_joins_sets(l, p, q, x, y);
            lemma_add_pair(fs, cand, t, p, q, x, y);
            assert(conn(fs, cand, t, p, q, x, p) == (l[x] == l[p]));
            assert(conn(fs, cand, t, p, q, q, y) == (l[q] == l[y]));
            assert(conn(fs, cand, t, p, q, x, q) == (l[x] == l[q]));
            assert(conn(fs, cand, t, p, q, p, y) == (l[p] == l[y]));
        } else {
            assert forall|u: int, v: int| 0 <= u < v < cand.len() && visual_edge(fs, cand, t, u, v) implies (before(p, q, u, v)
                <==> before(p, q + 1, u, v)) by {}
            if conn(fs, cand, t, p, q + 1, x, y) {
                let path = choose|path: Seq<int>| #[trigger] is_chain_before(fs, cand, t, p, q + 1, path) && path[0] == x && path.last() == y;
                assert forall|i: int| 0 <= i < path.len() - 1 implies linked_before(fs, cand, t, p, q, #[trigger] path[i], path[i + 1]) by {
                    assert(linked_before(fs, cand, t, p, q + 1, path[i], path[i + 1]));
                }
                assert(is_chain_before(fs, cand, t, p, q, path));
            }
            if conn(fs, cand, t, p, q, x, y) {
                lemma_widen(fs, cand, t, p, q, x, y);
            }
        }
    }
}

proof fn lemma_row(l: Seq<int>, fs: Seq<FileRecord>, cand: Seq<usize>, t: u8, p: int, q: int)
    requires
        labels_match(l, fs, cand, t, p, p + 1),
        0 <= p < cand.len(),
        p + 1 <= q <= cand.len(),
    ensures
        labels_match(row_labels(l, fs, cand, t, p, q), fs, cand, t, p, q),
    decreases q - p,
{
    if q > p + 1 {
        lemma_row(l, fs, cand, t, p, q - 1);
        lemma_row_step(row_labels(l, fs, cand, t, p, q - 1), fs, cand, t, p, q - 1);
    }
}

proof fn lemma_upto(fs: Seq<FileRecord>, cand: Seq<usize>, t: u8, p: int)
    requires
        0 <= p <= cand.len(),
    ensures
        labels_match(visual_labels_upto(fs, cand, t, p), fs, cand, t, p, p + 1),
    decreases p,
{
    let m = cand.len() as int;
    if p == 0 {
        let l = singleton_labels(cand.len());
        assert forall|x: int, y: int| 0 <= x < m && 0 <= y < m implies ((l[x] == l[y]) <==> #[trigger] conn(fs, cand, t, 0, 1, x, y)) by {
            if x == y {
                lemma_conn_refl(fs, cand, t, 0, 1, x);
            }
            if conn(fs, cand, t, 0, 1, x, y) {
                let path = choose|path: Seq<int>| #[trigger] is_chain_before(fs, cand, t, 0, 1, path) && path[0] == x && path.last() == y;
                if path.len() > 1 {
                    assert(linked_before(fs, cand, t, 0, 1, path[0], path[1]));
                }
            }
        }
    } else {
        lemma_upto(fs, cand, t, p - 1);
        let l0 = visual_labels_upto(fs, cand, t, p - 1);
        lemma_row(l0, fs, cand, t, p - 1, m);
        let l = visual_labels_upto(fs, cand, t, p);
        assert forall|x: int, y: int| 0 <= x < m && 0 <= y < m implies ((l[x] == l[y]) <==> #[trigger] conn(fs, cand, t, p, p + 1, x, y)) by {
            lemma_same_pairs(fs, cand, t, p - 1, m, p, p + 1, x, y);
            assert(conn(fs, cand, t, p - 1, m, x, y) == (l[x] == l[y]));
        }
    }
}

/// Linked pairs are linked whichever candidate comes first.
pub proof fn lemma_edge_symmetric(fs: Seq<FileRecord>, cand: Seq<usize>, t: u8, p: int, q: int)
    ensures
        visual_edge(fs, cand, t, p, q) == visual_edge(fs, cand, t, q, p),
{
    lemma_hamming_symmetric(
        fs[cand[p] as int].phash->0,
        fs[cand[q] as int].phash->0,
    );
    assert(size_compatible(fs[cand[p] as int], fs[cand[q] as int]) == size_compatible(fs[cand[q] as int], fs[cand[p] as int]));
}

/// Visual grouping merges transitively and only along links: two
/// candidates get the same label exactly when a chain of linked pairs
/// (shared hash prefix, compatible size, distance within the threshold)
/// joins them.
pub proof fn lemma_visual_labels_are_chains(fs: Seq<FileRecord>, cand: Seq<usize>, t: u8, x: int, y: int)
    requires
        0 <= x < cand.len(),
        0 <= y < cand.len(),
    ensures
        (visual_labels(fs, cand, t)[x] == visual_labels(fs, cand, t)[y]) <==> chained(fs, cand, t, x, y),
{
    let m = cand.len() as int;
    lemma_upto(fs, cand, t, m);
    let l = visual_labels(fs, cand, t);
    assert(l[x] == l[y] <==> conn(fs, cand, t, m, m + 1, x, y));
    if conn(fs, cand, t, m, m + 1, x, y) {
        let path = choose|path: Seq<int>| #[trigger] is_chain_before(fs, cand, t, m, m + 1, path) && path[0] == x && path.last() == y;
        assert forall|i: int| 0 <= i < path.len() - 1 implies linked(fs, cand, t, #[trigger] path[i], path[i + 1]) by {
            assert(linked_before(fs, cand, t, m, m + 1, path[i], path[i + 1]));
        }
        assert(is_chain(fs, cand, t, path));
    }
    if chained(fs, cand, t, x, y) {
        let path = choose|path: Seq<int>| #[trigger] is_chain(fs, cand, t, path) && path[0] == x && path.last() == y;
        assert forall|i: int| 0 <= i < path.len() - 1 implies linked_before(fs, cand, t, m, m + 1, #[trigger] path[i], path[i + 1]) by {
            assert(linked(fs, cand, t, path[i], path[i + 1]));
        }
        assert(is_chain_before(fs, cand, t, m, m + 1, path));
    }
}

} // verus!
