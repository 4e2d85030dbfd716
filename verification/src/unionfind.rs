//! Disjoint-set forest with path compression, used to merge visually
//! similar photos into groups.
//!
//! The abstract view of a `UnionFind` over `n` elements is a sequence of
//! `n` labels: element `i` carries the label of the representative of its set.
//! Two elements are in the same set exactly when their labels are equal.

use vstd::prelude::*;

verus! {

/// Representative reached from `i` by following parent links.
///
/// `lv` is a ghost ranking that strictly increases along parent links, which
/// is what makes the walk finite; `bound` caps the ranking.
pub open spec fn root_in(p: Seq<usize>, lv: Seq<nat>, bound: nat, i: int) -> int
    decreases bound - lv[i],
{
    if 0 <= i < p.len() && (p[i] as int) < p.len() && p[i] as int != i && lv[i] < lv[p[i] as int]
        && lv[p[i] as int] <= bound {
        root_in(p, lv, bound, p[i] as int)
    } else {
        i
    }
}

/// Well-formedness of a parent array together with its ghost ranking.
pub open spec fn forest_wf(p: Seq<usize>, lv: Seq<nat>, bound: nat) -> bool {
    &&& lv.len() == p.len()
    &&& forall|i: int| 0 <= i < p.len() ==> (#[trigger] p[i] as int) < p.len()
    &&& forall|i: int| 0 <= i < p.len() ==> #[trigger] lv[i] <= bound
    &&& forall|i: int| 0 <= i < p.len() && #[trigger] p[i] as int != i ==> lv[i] < lv[p[i] as int]
}

/// Labels of all elements of a forest.
pub open spec fn forest_labels(p: Seq<usize>, lv: Seq<nat>, bound: nat) -> Seq<int> {
    Seq::new(p.len(), |i: int| root_in(p, lv, bound, i))
}

/// The labels obtained from `l` by merging the sets of `a` and `b`: every
/// element labelled like `b` takes the label of `a`.
pub open spec fn merge_labels(l: Seq<int>, a: int, b: int) -> Seq<int> {
    if l[a] == l[b] {
        l
    } else {
        Seq::new(l.len(), |i: int| if l[i] == l[b] { l[a] } else { l[i] })
    }
}

/// Labels of `n` singleton sets.
pub open spec fn singleton_labels(n: nat) -> Seq<int> {
    Seq::new(n, |i: int| i)
}

/// A labelling is valid when every label is an element that labels itself.
pub open spec fn labels_valid(l: Seq<int>) -> bool {
    forall|i: int| 0 <= i < l.len() ==> 0 <= #[trigger] l[i] < l.len() && l[l[i]] == l[i]
}

/// Unfolding of `root_in` one step under well-formedness.
pub proof fn lemma_root_step(p: Seq<usize>, lv: Seq<nat>, bound: nat, i: int)
    requires
        forest_wf(p, lv, bound),
        0 <= i < p.len(),
    ensures
        p[i] as int == i ==> root_in(p, lv, bound, i) == i,
        p[i] as int != i ==> root_in(p, lv, bound, i) == root_in(p, lv, bound, p[i] as int),
{
    if p[i] as int != i {
        assert(lv[i] < lv[p[i] as int]);
        assert(lv[p[i] as int] <= bound);
    }
}

/// The representative of an element is an element, is its own parent, and
/// ranks at least as high as the element (strictly higher unless equal).
pub proof fn lemma_root_props(p: Seq<usize>, lv: Seq<nat>, bound: nat, i: int)
    requires
        forest_wf(p, lv, bound),
        0 <= i < p.len(),
    ensures
        0 <= root_in(p, lv, bound, i) < p.len(),
        p[root_in(p, lv, bound, i)] as int == root_in(p, lv, bound, i),
        lv[i] <= lv[root_in(p, lv, bound, i)],
        root_in(p, lv, bound, i) != i ==> lv[i] < lv[root_in(p, lv, bound, i)],
        root_in(p, lv, bound, root_in(p, lv, bound, i)) == root_in(p, lv, bound, i),
    decreases bound - lv[i],
{
    lemma_root_step(p, lv, bound, i);
    if p[i] as int != i {
        assert(lv[p[i] as int] <= bound);
        lemma_root_props(p, lv, bound, p[i] as int);
    }
    let r = root_in(p, lv, bound, i);
    lemma_root_step(p, lv, bound, r);
}

/// The labels of a well-formed forest are valid.
pub proof fn lemma_labels_valid(p: Seq<usize>, lv: Seq<nat>, bound: nat)
    requires
        forest_wf(p, lv, bound),
    ensures
        labels_valid(forest_labels(p, lv, bound)),
        forest_labels(p, lv, bound).len() == p.len(),
{
    let l = forest_labels(p, lv, bound);
    assert forall|i: int| 0 <= i < l.len() implies 0 <= #[trigger] l[i] < l.len() && l[l[i]]
        == l[i] by {
        lemma_root_props(p, lv, bound, i);
    }
}

/// Pointing an element directly at its representative keeps the forest
/// well formed.
pub proof fn lemma_compress_wf(p: Seq<usize>, lv: Seq<nat>, bound: nat, x: int)
    requires
        forest_wf(p, lv, bound),
        0 <= x < p.len(),
    ensures
        forest_wf(p.update(x, root_in(p, lv, bound, x) as usize), lv, bound),
{
    let r = root_in(p, lv, bound, x);
    lemma_root_props(p, lv, bound, x);
    let p2 = p.update(x, r as usize);
    assert forall|i: int| 0 <= i < p2.len() && #[trigger] p2[i] as int != i implies lv[i]
        < lv[p2[i] as int] by {
        if i != x {
            assert(p2[i] == p[i]);
        }
    }
    assert forall|i: int| 0 <= i < p2.len() implies (#[trigger] p2[i] as int) < p2.len() by {}
}

/// Pointing an element directly at its representative leaves the
/// representative of every element unchanged.
pub proof fn lemma_compress_root(p: Seq<usize>, lv: Seq<nat>, bound: nat, x: int, j: int)
    requires
        forest_wf(p, lv, bound),
        forest_wf(p.update(x, root_in(p, lv, bound, x) as usize), lv, bound),
        0 <= x < p.len(),
        0 <= j < p.len(),
    ensures
        root_in(p.update(x, root_in(p, lv, bound, x) as usize), lv, bound, j) == root_in(
            p,
            lv,
            bound,
            j,
        ),
    decreases bound - lv[j],
{
    let r = root_in(p, lv, bound, x);
    lemma_root_props(p, lv, bound, x);
    let p2 = p.update(x, r as usize);
    lemma_root_step(p, lv, bound, j);
    lemma_root_step(p2, lv, bound, j);
    if j == x {
        if r != x {
            lemma_root_step(p2, lv, bound, r);
            assert(p2[r] == p[r]);
        }
    } else if p[j] as int != j {
        assert(p2[j] == p[j]);
        assert(lv[j] < lv[p[j] as int]);
        lemma_compress_root(p, lv, bound, x, p[j] as int);
    }
}

/// Path compression at `x` in one statement: well-formedness and all
/// representatives are preserved.
pub proof fn lemma_compress(p: Seq<usize>, lv: Seq<nat>, bound: nat, x: int)
    requires
        forest_wf(p, lv, bound),
        0 <= x < p.len(),
    ensures
        forest_wf(p.update(x, root_in(p, lv, bound, x) as usize), lv, bound),
        forall|j: int|
            0 <= j < p.len() ==> #[trigger] root_in(
                p.update(x, root_in(p, lv, bound, x) as usize),
                lv,
                bound,
                j,
            ) == root_in(p, lv, bound, j),
{
    lemma_compress_wf(p, lv, bound, x);
    assert forall|j: int| 0 <= j < p.len() implies #[trigger] root_in(
        p.update(x, root_in(p, lv, bound, x) as usize),
        lv,
        bound,
        j,
    ) == root_in(p, lv, bound, j) by {
        lemma_compress_root(p, lv, bound, x, j);
    }
}

/// Ranking after attaching representative `rb` below representative `ra`.
pub open spec fn link_level(lv: Seq<nat>, ra: int, rb: int) -> Seq<nat> {
    lv.update(ra, if lv[ra] > lv[rb] { lv[ra] } else { lv[rb] + 1 })
}

/// Bound after attaching representative `rb` below representative `ra`.
pub open spec fn link_bound(lv: Seq<nat>, bound: nat, ra: int, rb: int) -> nat {
    let nl = if lv[ra] > lv[rb] { lv[ra] } else { lv[rb] + 1 };
    if bound > nl { bound } else { nl }
}

/// Attaching representative `rb` below representative `ra` (raising the
/// ranking of `ra` if needed) keeps the forest well formed.
pub proof fn lemma_link_wf(p: Seq<usize>, lv: Seq<nat>, bound: nat, ra: int, rb: int)
    requires
        forest_wf(p, lv, bound),
        0 <= ra < p.len(),
        0 <= rb < p.len(),
        ra != rb,
        p[ra] as int == ra,
        p[rb] as int == rb,
    ensures
        forest_wf(p.update(rb, ra as usize), link_level(lv, ra, rb), link_bound(lv, bound, ra, rb)),
{
    let lv2 = link_level(lv, ra, rb);
    let b2 = link_bound(lv, bound, ra, rb);
    let p2 = p.update(rb, ra as usize);
    assert forall|i: int| 0 <= i < p2.len() && #[trigger] p2[i] as int != i implies lv2[i]
        < lv2[p2[i] as int] by {
        if i != rb {
            assert(p2[i] == p[i]);
            assert(i != ra);
        }
    }
    assert forall|i: int| 0 <= i < p2.len() implies (#[trigger] p2[i] as int) < p2.len() by {}
    assert forall|i: int| 0 <= i < p2.len() implies #[trigger] lv2[i] <= b2 by {}
}

/// After attaching `rb` below `ra`, exactly the elements represented by
/// `rb` change representative, to `ra`.
pub proof fn lemma_link_root(p: Seq<usize>, lv: Seq<nat>, bound: nat, ra: int, rb: int, j: int)
    requires
        forest_wf(p, lv, bound),
        forest_wf(p.update(rb, ra as usize), link_level(lv, ra, rb), link_bound(lv, bound, ra, rb)),
        0 <= ra < p.len(),
        0 <= rb < p.len(),
        ra != rb,
        p[ra] as int == ra,
        p[rb] as int == rb,
        0 <= j < p.len(),
    ensures
        root_in(p.update(rb, ra as usize), link_level(lv, ra, rb), link_bound(lv, bound, ra, rb), j)
            == (if root_in(p, lv, bound, j) == rb {
            ra
        } else {
            root_in(p, lv, bound, j)
        }),
    decreases bound - lv[j],
{
    let lv2 = link_level(lv, ra, rb);
    let b2 = link_bound(lv, bound, ra, rb);
    let p2 = p.update(rb, ra as usize);
    lemma_root_step(p, lv, bound, j);
    lemma_root_step(p2, lv2, b2, j);
    lemma_root_step(p2, lv2, b2, ra);
    assert(p2[ra] == p[ra]);
    if j == rb {
    } else if j == ra {
    } else if p[j] as int != j {
        assert(p2[j] == p[j]);
        assert(lv[j] < lv[p[j] as int]);
        lemma_link_root(p, lv, bound, ra, rb, p[j] as int);
    }
}

/// Linking in one statement: well-formedness, and the new labels are the
/// old labels with the set of `rb` relabelled `ra`.
pub proof fn lemma_link(p: Seq<usize>, lv: Seq<nat>, bound: nat, ra: int, rb: int)
    requires
        forest_wf(p, lv, bound),
        0 <= ra < p.len(),
        0 <= rb < p.len(),
        ra != rb,
        p[ra] as int == ra,
        p[rb] as int == rb,
    ensures
        forest_wf(p.update(rb, ra as usize), link_level(lv, ra, rb), link_bound(lv, bound, ra, rb)),
        forall|j: int|
            0 <= j < p.len() ==> #[trigger] root_in(
                p.update(rb, ra as usize),
                link_level(lv, ra, rb),
                link_bound(lv, bound, ra, rb),
                j,
            ) == (if root_in(p, lv, bound, j) == rb {
                ra
            } else {
                root_in(p, lv, bound, j)
            }),
{
    lemma_link_wf(p, lv, bound, ra, rb);
    assert forall|j: int| 0 <= j < p.len() implies #[trigger] root_in(
        p.update(rb, ra as usize),
        link_level(lv, ra, rb),
        link_bound(lv, bound, ra, rb),
        j,
    ) == (if root_in(p, lv, bound, j) == rb {
        ra
    } else {
        root_in(p, lv, bound, j)
    }) by {
        lemma_link_root(p, lv, bound, ra, rb, j);
    }
}

/// Merging the sets of `a` and `b` puts `x` and `y` in one set exactly when
/// they were in one set before, or one was with `a` and the other with `b`.
pub proof fn lemma_merge_joins_sets(l: Seq<int>, a: int, b: int, x: int, y: int)
    requires
        0 <= a < l.len(),
        0 <= b < l.len(),
        0 <= x < l.len(),
        0 <= y < l.len(),
    ensures
        merge_labels(l, a, b).len() == l.len(),
        (merge_labels(l, a, b)[x] == merge_labels(l, a, b)[y]) <==> (l[x] == l[y] || (l[x] == l[a]
            && l[y] == l[b]) || (l[x] == l[b] && l[y] == l[a])),
{
}

/// Merging keeps labels valid.
pub proof fn lemma_merge_valid(l: Seq<int>, a: int, b: int)
    requires
        labels_valid(l),
        0 <= a < l.len(),
        0 <= b < l.len(),
    ensures
        labels_valid(merge_labels(l, a, b)),
{
    let n = merge_labels(l, a, b);
    if l[a] != l[b] {
        assert forall|i: int| 0 <= i < n.len() implies 0 <= #[trigger] n[i] < n.len() && n[n[i]] == n[i] by {
            if l[i] == l[b] {
                assert(l[l[a]] == l[a]);
            } else {
                assert(l[l[i]] == l[i]);
            }
        }
    }
}

/// Disjoint sets over the elements `0..n`.
pub struct UnionFind {
    parent: Vec<usize>,
    level: Ghost<Seq<nat>>,
    bound: Ghost<nat>,
}

impl View for UnionFind {
    type V = Seq<int>;

    /// The label of each element: the representative of its set.
    closed spec fn view(&self) -> Seq<int> {
        forest_labels(self.parent@, self.level@, self.bound@)
    }
}

impl UnionFind {
    /// The internal invariant: the parent links form a forest.
    pub closed spec fn wf(&self) -> bool {
        forest_wf(self.parent@, self.level@, self.bound@)
    }

    /// Every well-formed union-find has valid labels, one per element.
    pub proof fn lemma_view_valid(&self)
        requires
            self.wf(),
        ensures
            labels_valid(self@),
    {
        lemma_labels_valid(self.parent@, self.level@, self.bound@);
    }

    /// Number of elements.
    pub fn len(&self) -> (n: usize)
        requires
            self.wf(),
        ensures
            n == self@.len(),
    {
        self.parent.len()
    }

    /// `size` singleton sets.
    pub fn new(size: usize) -> (uf: Self)
        ensures
            uf.wf(),
            uf@ == singleton_labels(size as nat),
    {
        let mut parent: Vec<usize> = Vec::with_capacity(size);
        let mut i: usize = 0;
        while i < size
            invariant
                i <= size,
                parent@.len() == i,
                forall|k: int| 0 <= k < i ==> parent@[k] == k,
            decreases size - i,
        {
            parent.push(i);
            i = i + 1;
        }
        let ghost lv = Seq::new(size as nat, |k: int| 0nat);
        let uf = UnionFind { parent, level: Ghost(lv), bound: Ghost(0) };
        assert forall|k: int| 0 <= k < size implies uf@[k] == singleton_labels(size as nat)[k] by {
            lemma_root_step(uf.parent@, lv, 0, k);
        }
        assert(uf@ =~= singleton_labels(size as nat));
        uf
    }

    /// Representative of the set of `x`. Compresses the path from `x` to its
    /// representative; the sets are unchanged.
    pub fn find(&mut self, x: usize) -> (r: usize)
        requires
            old(self).wf(),
            x < old(self)@.len(),
        ensures
            final(self).wf(),
            final(self)@ == old(self)@,
            r == old(self)@[x as int],
    {
        let ghost p0 = self.parent@;
        let ghost lv = self.level@;
        let ghost b = self.bound@;
        proof {
            lemma_root_props(p0, lv, b, x as int);
        }
        let mut cur = x;
        while self.parent[cur] != cur
            invariant
                self.parent@ == p0,
                self.level@ == lv,
                self.bound@ == b,
                forest_wf(p0, lv, b),
                cur < p0.len(),
                root_in(p0, lv, b, cur as int) == root_in(p0, lv, b, x as int),
            decreases b - lv[cur as int],
        {
            proof {
                lemma_root_step(p0, lv, b, cur as int);
            }
            cur = self.parent[cur];
        }
        proof {
            lemma_root_step(p0, lv, b, cur as int);
        }
        let root = cur;
        let mut node = x;
        while node != root
            invariant
                self.level@ == lv,
                self.bound@ == b,
                forest_wf(self.parent@, lv, b),
                self.parent@.len() == p0.len(),
                node < p0.len(),
                forall|j: int|
                    0 <= j < p0.len() ==> #[trigger] root_in(self.parent@, lv, b, j) == root_in(
                        p0,
                        lv,
                        b,
                        j,
                    ),
                root_in(self.parent@, lv, b, node as int) == root as int,
                root_in(p0, lv, b, x as int) == root as int,
            decreases b - lv[node as int],
        {
            let ghost p1 = self.parent@;
            let next = self.parent[node];
            proof {
                lemma_root_step(p1, lv, b, node as int);
                lemma_root_props(p1, lv, b, node as int);
                lemma_compress(p1, lv, b, node as int);
            }
            self.parent.set(node, root);
            node = next;
        }
        proof {
            assert(self@ =~= forest_labels(p0, lv, b));
        }
        root
    }

    /// Merges the sets of `a` and `b`: the set of `b` joins the set of `a`.
    pub fn union(&mut self, a: usize, b: usize)
        requires
            old(self).wf(),
            a < old(self)@.len(),
            b < old(self)@.len(),
        ensures
            final(self).wf(),
            final(self)@ == merge_labels(old(self)@, a as int, b as int),
    {
        let ghost l0 = self@;
        let ra = self.find(a);
        let rb = self.find(b);
        if ra != rb {
            let ghost p = self.parent@;
            let ghost lv = self.level@;
            let ghost bd = self.bound@;
            let ghost lv2 = link_level(lv, ra as int, rb as int);
            let ghost b2 = link_bound(lv, bd, ra as int, rb as int);
            proof {
                lemma_root_props(p, lv, bd, a as int);
                lemma_root_props(p, lv, bd, b as int);
                lemma_link(p, lv, bd, ra as int, rb as int);
            }
            self.level = Ghost(lv2);
            self.bound = Ghost(b2);
            self.parent.set(rb, ra);
            proof {
                assert(self@ =~= merge_labels(l0, a as int, b as int));
            }
        }
    }

    /// The sets, each listed in increasing element order; the sets are listed
    /// in the order of their smallest elements.
    pub fn groups(&mut self) -> (gs: Vec<Vec<usize>>)
        requires
            old(self).wf(),
        ensures
            final(self).wf(),
            final(self)@ == old(self)@,
            is_label_partition(old(self)@, group_view(gs@)),
    {
        let n = self.parent.len();
        let ghost l = self@;
        proof {
            self.lemma_view_valid();
        }
        let mut slot: Vec<usize> = Vec::with_capacity(n);
        let mut i: usize = 0;
        while i < n
            invariant
                i <= n,
                slot@.len() == i,
                forall|k: int| 0 <= k < i ==> slot@[k] == n,
            decreases n - i,
        {
            slot.push(n);
            i = i + 1;
        }
        let mut gs: Vec<Vec<usize>> = Vec::new();
        let mut i: usize = 0;
        while i < n
            invariant
                self.wf(),
                self@ == l,
                labels_valid(l),
                l.len() == n,
                i <= n,
                slot@.len() == n,
                partition_prefix(l, group_view(gs@), i as int),
                gs@.len() <= i,
                forall|r: int|
                    0 <= r < n ==> {
                        let s = #[trigger] slot@[r];
                        &&& (s == n || s < gs@.len())
                        &&& (s < gs@.len() ==> l[group_view(gs@)[s as int][0] as int] == r)
                        &&& (s == n ==> forall|k: int|
                            0 <= k < gs@.len() ==> l[group_view(gs@)[k][0] as int] != r)
                    },
            decreases n - i,
        {
            let ghost g0 = group_view(gs@);
            let r = self.find(i);
            let s = slot[r];
            proof {
                assert(0 <= l[i as int] < n);
            }
            if s == n {
                let ghost old_slot = slot@;
                slot.set(r, gs.len());
                let mut g: Vec<usize> = Vec::new();
                g.push(i);
                gs.push(g);
                proof {
                    let g1 = group_view(gs@);
                    assert(g1 =~= g0.push(seq![i]));
                    lemma_partition_new_group(l, g0, i);
                    assert forall|r2: int| 0 <= r2 < n implies {
                        let s2 = #[trigger] slot@[r2];
                        &&& (s2 == n || s2 < gs@.len())
                        &&& (s2 < gs@.len() ==> l[group_view(gs@)[s2 as int][0] as int] == r2)
                        &&& (s2 == n ==> forall|k: int|
                            0 <= k < gs@.len() ==> l[group_view(gs@)[k][0] as int] != r2)
                    } by {
                        if r2 != r as int {
                            assert(slot@[r2] == old_slot[r2]);
                            if old_slot[r2] < g0.len() {
                                assert(g1[old_slot[r2] as int] == g0[old_slot[r2] as int]);
                            }
                            if old_slot[r2] == n {
                                assert forall|k: int| 0 <= k < gs@.len() implies l[group_view(gs@)[k][0] as int] != r2 by {
                                    if k < g0.len() {
                                        assert(g1[k] == g0[k]);
                                    } else {
                                        assert(g1[k][0] == i);
                                    }
                                }
                            }
                        } else {
                            assert(g1[g0.len() as int][0] == i);
                            assert(l[i as int] == r as int);
                        }
                    }
                }
            } else {
                proof {
                    assert(g0[s as int].len() > 0);
                }
                gs[s].push(i);
                proof {
                    let g1 = group_view(gs@);
                    assert(g1 =~= g0.update(s as int, g0[s as int].push(i)));
                    lemma_partition_extend_group(l, g0, i, s as int);
                    assert forall|r2: int| 0 <= r2 < n implies {
                        let s2 = #[trigger] slot@[r2];
                        &&& (s2 == n || s2 < gs@.len())
                        &&& (s2 < gs@.len() ==> l[group_view(gs@)[s2 as int][0] as int] == r2)
                        &&& (s2 == n ==> forall|k: int|
                            0 <= k < gs@.len() ==> l[group_view(gs@)[k][0] as int] != r2)
                    } by {
                        if slot@[r2] < gs@.len() {
                            assert(g1[slot@[r2] as int][0] == g0[slot@[r2] as int][0]);
                        }
                        if slot@[r2] == n {
                            assert forall|k: int| 0 <= k < gs@.len() implies l[group_view(gs@)[k][0] as int] != r2 by {
                                assert(g1[k][0] == g0[k][0]);
                            }
                        }
                    }
                }
            }
            i = i + 1;
        }
        gs
    }
}

/// The element lists of a sequence of vectors.
pub open spec fn group_view(gs: Seq<Vec<usize>>) -> Seq<Seq<usize>> {
    gs.map_values(|g: Vec<usize>| g@)
}

/// `gs` lists the sets of labelling `l` restricted to the elements `0..k`:
/// every listed element is below `k`; groups are non-empty, strictly
/// increasing, carry one label each, and distinct groups carry distinct
/// labels; every element below `k` is listed; and groups are ordered by
/// their first elements.
pub open spec fn partition_prefix(l: Seq<int>, gs: Seq<Seq<usize>>, k: int) -> bool {
    &&& forall|g: int|
        0 <= g < gs.len() ==> {
            let grp = #[trigger] gs[g];
            &&& grp.len() > 0
            &&& forall|m: int| 0 <= m < grp.len() ==> (#[trigger] grp[m] as int) < k
            &&& forall|m1: int, m2: int|
                0 <= m1 < m2 < grp.len() ==> (#[trigger] grp[m1] as int) < (#[trigger] grp[m2] as int)
            &&& forall|m: int| 0 <= m < grp.len() ==> l[#[trigger] grp[m] as int] == l[grp[0] as int]
        }
    &&& forall|g1: int, g2: int|
        0 <= g1 < g2 < gs.len() ==> l[(#[trigger] gs[g1])[0] as int] != l[(#[trigger] gs[g2])[0] as int]
            && (gs[g1][0] as int) < (gs[g2][0] as int)
    &&& forall|e: int| 0 <= e < k ==> #[trigger] is_listed(gs, e)
}

/// Element `e` occurs in some group of `gs`.
pub open spec fn is_listed(gs: Seq<Seq<usize>>, e: int) -> bool {
    exists|g: int, m: int| 0 <= g < gs.len() && 0 <= m < gs[g].len() && #[trigger] gs[g][m] as int == e
}

/// `gs` is the partition of all elements of `l` into sets of equal label,
/// in the order described by `partition_prefix`.
pub open spec fn is_label_partition(l: Seq<int>, gs: Seq<Seq<usize>>) -> bool {
    partition_prefix(l, gs, l.len() as int)
}

/// Every listed element of a partition is an element of the labelling.
pub proof fn lemma_partition_member_bound(l: Seq<int>, gs: Seq<Seq<usize>>, p: int, m: int)
    requires
        is_label_partition(l, gs),
        0 <= p < gs.len(),
        0 <= m < gs[p].len(),
    ensures
        (gs[p][m] as int) < l.len(),
{
    let grp = gs[p];
    assert(grp[m] == gs[p][m]);
}

proof fn lemma_partition_new_group(l: Seq<int>, gs: Seq<Seq<usize>>, i: usize)
    requires
        partition_prefix(l, gs, i as int),
        i < l.len(),
        forall|k: int| 0 <= k < gs.len() ==> l[gs[k][0] as int] != l[i as int],
    ensures
        partition_prefix(l, gs.push(seq![i]), i + 1),
{
    let g2 = gs.push(seq![i]);
    assert forall|e: int| 0 <= e < i + 1 implies #[trigger] is_listed(g2, e) by {
        if e == i {
            assert(g2[gs.len() as int][0] as int == e);
        } else {
            assert(is_listed(gs, e));
            let (g, m) = choose|g: int, m: int|
                0 <= g < gs.len() && 0 <= m < gs[g].len() && #[trigger] gs[g][m] as int == e;
            assert(g2[g][m] as int == e);
        }
    }
    assert forall|g1: int, g2i: int|
        0 <= g1 < g2i < g2.len() implies l[(#[trigger] g2[g1])[0] as int] != l[(#[trigger] g2[g2i])[0] as int]
        && (g2[g1][0] as int) < (g2[g2i][0] as int) by {
        if g2i == gs.len() {
            assert(g2[g1] == gs[g1]);
            assert(gs[g1].len() > 0);
            assert((gs[g1][0] as int) < i);
        }
    }
    assert forall|g: int| 0 <= g < g2.len() implies {
        let grp = #[trigger] g2[g];
        &&& grp.len() > 0
        &&& forall|m: int| 0 <= m < grp.len() ==> (#[trigger] grp[m] as int) < i + 1
        &&& forall|m1: int, m2: int|
            0 <= m1 < m2 < grp.len() ==> (#[trigger] grp[m1] as int) < (#[trigger] grp[m2] as int)
        &&& forall|m: int| 0 <= m < grp.len() ==> l[#[trigger] grp[m] as int] == l[grp[0] as int]
    } by {
        if g < gs.len() {
            assert(g2[g] == gs[g]);
        }
    }
}

proof fn lemma_partition_extend_group(l: Seq<int>, gs: Seq<Seq<usize>>, i: usize, s: int)
    requires
        partition_prefix(l, gs, i as int),
        i < l.len(),
        0 <= s < gs.len(),
        l[gs[s][0] as int] == l[i as int],
    ensures
        partition_prefix(l, gs.update(s, gs[s].push(i)), i + 1),
{
    let g2 = gs.update(s, gs[s].push(i));
    assert forall|e: int| 0 <= e < i + 1 implies #[trigger] is_listed(g2, e) by {
        if e == i {
            assert(g2[s][gs[s].len() as int] as int == e);
        } else {
            assert(is_listed(gs, e));
            let (g, m) = choose|g: int, m: int|
                0 <= g < gs.len() && 0 <= m < gs[g].len() && #[trigger] gs[g][m] as int == e;
            if g == s {
                assert(g2[g][m] == gs[g][m]);
            }
            assert(g2[g][m] as int == e);
        }
    }
    assert forall|g: int| 0 <= g < g2.len() implies {
        let grp = #[trigger] g2[g];
        &&& grp.len() > 0
        &&& forall|m: int| 0 <= m < grp.len() ==> (#[trigger] grp[m] as int) < i + 1
        &&& forall|m1: int, m2: int|
            0 <= m1 < m2 < grp.len() ==> (#[trigger] grp[m1] as int) < (#[trigger] grp[m2] as int)
        &&& forall|m: int| 0 <= m < grp.len() ==> l[#[trigger] grp[m] as int] == l[grp[0] as int]
    } by {
        if g == s {
            let grp = g2[g];
            assert forall|m1: int, m2: int|
                0 <= m1 < m2 < grp.len() implies (#[trigger] grp[m1] as int) < (#[trigger] grp[m2] as int) by {
                if m2 == grp.len() - 1 {
                    assert(grp[m1] == gs[s][m1]);
                } else {
                    assert(grp[m1] == gs[s][m1]);
                    assert(grp[m2] == gs[s][m2]);
                }
            }
            assert forall|m: int| 0 <= m < grp.len() implies l[#[trigger] grp[m] as int] == l[grp[0] as int] by {
                if m < grp.len() - 1 {
                    assert(grp[m] == gs[s][m]);
                }
            }
        } else {
            assert(g2[g] == gs[g]);
        }
    }
    assert forall|g1: int, g2i: int|
        0 <= g1 < g2i < g2.len() implies l[(#[trigger] g2[g1])[0] as int] != l[(#[trigger] g2[g2i])[0] as int]
        && (g2[g1][0] as int) < (g2[g2i][0] as int) by {
        assert(g2[g1][0] == gs[g1][0]);
        assert(g2[g2i][0] == gs[g2i][0]);
    }
}

} // verus!
