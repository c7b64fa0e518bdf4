//! Disjoint-set forest with path compression and union by rank.
use vstd::prelude::*;

verus! {

/// Number of indices `i < k` that are their own parent (the roots among the first `k`).
pub open spec fn count_roots(parent: Seq<usize>, k: int) -> nat
    decreases k,
{
    if k <= 0 {
        0
    } else {
        count_roots(parent, k - 1) + if parent[k - 1] as int == k - 1 {
            1nat
        } else {
            0nat
        }
    }
}

proof fn lemma_count_roots_le(parent: Seq<usize>, k: int)
    requires
        0 <= k,
    ensures
        count_roots(parent, k) <= k,
    decreases k,
{
    if k > 0 {
        lemma_count_roots_le(parent, k - 1);
    }
}

proof fn lemma_count_roots_all(parent: Seq<usize>, k: int)
    requires
        0 <= k <= parent.len(),
        forall|i: int| 0 <= i < k ==> parent[i] as int == i,
    ensures
        count_roots(parent, k) == k,
    decreases k,
{
    if k > 0 {
        lemma_count_roots_all(parent, k - 1);
    }
}

proof fn lemma_count_roots_same(p: Seq<usize>, q: Seq<usize>, k: int)
    requires
        0 <= k <= p.len(),
        k <= q.len(),
        forall|i: int| 0 <= i < k ==> (p[i] as int == i) == (q[i] as int == i),
    ensures
        count_roots(p, k) == count_roots(q, k),
    decreases k,
{
    if k > 0 {
        lemma_count_roots_same(p, q, k - 1);
    }
}

proof fn lemma_count_roots_drop_one(p: Seq<usize>, q: Seq<usize>, k: int, r: int)
    requires
        0 <= r < k <= p.len(),
        k <= q.len(),
        p[r] as int == r,
        q[r] as int != r,
        forall|i: int| 0 <= i < k && i != r ==> (p[i] as int == i) == (q[i] as int == i),
    ensures
        count_roots(q, k) + 1 == count_roots(p, k),
    decreases k,
{
    if k - 1 == r {
        lemma_count_roots_same(p, q, k - 1);
    } else {
        lemma_count_roots_drop_one(p, q, k - 1, r);
    }
}

proof fn lemma_count_roots_one(p: Seq<usize>, k: int, a: int)
    requires
        0 <= a < k <= p.len(),
        p[a] as int == a,
    ensures
        count_roots(p, k) >= 1,
    decreases k,
{
    if k - 1 != a {
        lemma_count_roots_one(p, k - 1, a);
    }
}

proof fn lemma_count_roots_two(p: Seq<usize>, k: int, a: int, b: int)
    requires
        0 <= a < k <= p.len(),
        0 <= b < k,
        a != b,
        p[a] as int == a,
        p[b] as int == b,
    ensures
        count_roots(p, k) >= 2,
    decreases k,
{
    if k - 1 == a {
        lemma_count_roots_one(p, k - 1, b);
    } else if k - 1 == b {
        lemma_count_roots_one(p, k - 1, a);
    } else {
        lemma_count_roots_two(p, k - 1, a, b);
    }
}

/// A partition of `0..n` kept as a forest of parent links.
///
/// Abstractly the structure is a map from each element to its representative
/// (`rep_of`); two elements are in the same set when they have the same representative.
pub struct UnionFind {
    parent: Vec<usize>,
    rank: Vec<usize>,
    rep: Ghost<Seq<int>>,
    merges: Ghost<nat>,
}

impl UnionFind {
    /// Number of elements of the partitioned range.
    pub closed spec fn n_elems(&self) -> nat {
        self.parent@.len()
    }

    /// Representative of the set that holds `x`.
    pub closed spec fn rep_of(&self, x: int) -> int {
        self.rep@[x]
    }

    /// `x` and `y` lie in the same set.
    pub open spec fn same_set(&self, x: int, y: int) -> bool {
        self.rep_of(x) == self.rep_of(y)
    }

    /// Rank distance from `x` up to its representative; shrinks along parent links.
    pub closed spec fn height(&self, x: int) -> int {
        self.rank@[self.rep@[x]] - self.rank@[x]
    }

    /// `self` holds the same sets, ranks and roots as `other`; only parent links differ.
    pub closed spec fn same_partition(&self, other: &Self) -> bool {
        &&& self.rep@ == other.rep@
        &&& self.rank@ == other.rank@
        &&& self.merges@ == other.merges@
        &&& self.parent@.len() == other.parent@.len()
        &&& forall|i: int|
            0 <= i < other.parent@.len() ==> (#[trigger] self.parent@[i] as int == i) == (
            other.parent@[i] as int == i)
    }

    /// Shape invariant of the forest.
    pub closed spec fn wf(&self) -> bool {
        let n = self.parent@.len();
        &&& self.rank@.len() == n
        &&& self.rep@.len() == n
        &&& forall|i: int| 0 <= i < n ==> (#[trigger] self.parent@[i] as int) < n
        &&& forall|i: int| 0 <= i < n ==> 0 <= #[trigger] self.rep@[i] < n
        &&& forall|i: int|
            0 <= i < n ==> self.parent@[#[trigger] self.rep@[i]] as int == self.rep@[i]
        &&& forall|i: int| 0 <= i < n && #[trigger] self.parent@[i] as int == i ==> self.rep@[i] == i
        &&& forall|i: int|
            0 <= i < n && #[trigger] self.parent@[i] as int != i ==> {
                &&& self.rep@[self.parent@[i] as int] == self.rep@[i]
                &&& self.rank@[i] < self.rank@[self.parent@[i] as int]
                &&& self.rank@[i] < self.rank@[self.rep@[i]]
            }
        &&& forall|i: int| 0 <= i < n ==> #[trigger] self.rank@[i] <= self.merges@
        &&& self.merges@ + count_roots(self.parent@, n as int) == n
    }

    /// Every element of `0..n` in a set of its own.
    pub fn new(n: usize) -> (uf: Self)
        ensures
            uf.wf(),
            uf.n_elems() == n,
            forall|x: int, y: int| 0 <= x < n && 0 <= y < n ==> (uf.same_set(x, y) <==> x == y),
    {
        let mut parent: Vec<usize> = Vec::new();
        let mut rank: Vec<usize> = Vec::new();
        let mut i: usize = 0;
        while i < n
            invariant
                i <= n,
                parent@.len() == i,
                rank@.len() == i,
                forall|j: int| 0 <= j < i ==> parent@[j] as int == j,
                forall|j: int| 0 <= j < i ==> rank@[j] == 0,
            decreases n - i,
        {
            parent.push(i);
            rank.push(0);
            i = i + 1;
        }
        let ghost rep = Seq::new(n as nat, |j: int| j);
        proof {
            lemma_count_roots_all(parent@, n as int);
        }
        UnionFind { parent, rank, rep: Ghost(rep), merges: Ghost(0) }
    }

    /// Representative of `x`; compresses the path from `x` on the way.
    pub fn find(&mut self, x: usize) -> (r: usize)
        requires
            old(self).wf(),
            (x as int) < old(self).n_elems(),
        ensures
            final(self).wf(),
            final(self).n_elems() == old(self).n_elems(),
            final(self).same_partition(old(self)),
            forall|i: int| 0 <= i < old(self).n_elems() ==> #[trigger] final(self).rep_of(i) == old(self).rep_of(i),
            r as int == old(self).rep_of(x as int),
            (r as int) < old(self).n_elems(),
            old(self).rep_of(r as int) == r as int,
        decreases old(self).height(x as int),
    {
        proof {
            let rx = self.rep@[x as int];
            assert(self.parent@[rx] as int == rx);
            assert(self.rep@[rx] == rx);
        }
        let p = self.parent[x];
        if p != x {
            proof {
                assert(self.parent@[x as int] as int != x as int);
                let pi = p as int;
                assert(self.rep@[pi] == self.rep@[x as int]);
                assert(self.rank@[x as int] < self.rank@[pi]);
                if self.parent@[pi] as int != pi {
                    assert(self.rank@[pi] < self.rank@[self.rep@[pi]]);
                } else {
                    assert(self.rep@[pi] == pi);
                }
                assert(self.height(pi) < self.height(x as int));
                assert(self.height(pi) >= 0);
            }
            let r = self.find(p);
            let ghost mid = self.parent@;
            self.parent.set(x, r);
            proof {
                let n = self.parent@.len();
                assert(mid[x as int] as int != x as int);
                assert forall|i: int| 0 <= i < n implies (#[trigger] self.parent@[i] as int == i) == (
                mid[i] as int == i) by {
                    if i == x as int {
                        assert(self.rank@[x as int] < self.rank@[self.rep@[x as int]]);
                    }
                }
                lemma_count_roots_same(mid, self.parent@, n as int);
                assert(self.wf()) by {
                    assert forall|i: int|
                        0 <= i < n && #[trigger] self.parent@[i] as int != i implies {
                        &&& self.rep@[self.parent@[i] as int] == self.rep@[i]
                        &&& self.rank@[i] < self.rank@[self.parent@[i] as int]
                        &&& self.rank@[i] < self.rank@[self.rep@[i]]
                    } by {
                        if i == x as int {
                            assert(mid[self.rep@[i]] as int == self.rep@[i]);
                        } else {
                            assert(mid[i] as int != i);
                        }
                    }
                    assert forall|i: int|
                        0 <= i < n implies self.parent@[#[trigger] self.rep@[i]] as int
                        == self.rep@[i] by {
                        assert(mid[self.rep@[i]] as int == self.rep@[i]);
                        if self.rep@[i] == x as int {
                            assert(mid[x as int] as int == x as int);
                        }
                    }
                    assert forall|i: int|
                        0 <= i < n && #[trigger] self.parent@[i] as int == i implies self.rep@[i]
                        == i by {
                        assert(mid[i] as int == i);
                    }
                    assert forall|i: int| 0 <= i < n implies (
                    #[trigger] self.parent@[i] as int) < n by {
                        if i != x as int {
                            assert((mid[i] as int) < n);
                        }
                    }
                }
            }
            r
        } else {
            x
        }
    }

    /// Merges the sets of `a` and `b`.
    pub fn union(&mut self, a: usize, b: usize)
        requires
            old(self).wf(),
            (a as int) < old(self).n_elems(),
            (b as int) < old(self).n_elems(),
        ensures
            final(self).wf(),
            final(self).n_elems() == old(self).n_elems(),
            forall|x: int, y: int|
                0 <= x < old(self).n_elems() && 0 <= y < old(self).n_elems() ==> (
                #[trigger] final(self).same_set(x, y) <==> (old(self).same_set(x, y) || (old(
                    self,
                ).same_set(x, a as int) && old(self).same_set(y, b as int)) || (old(self).same_set(
                    x,
                    b as int,
                ) && old(self).same_set(y, a as int)))),
    {
        let ghost pre = *self;
        let ra = self.find(a);
        let rb = self.find(b);
        if ra == rb {
            return;
        }
        let ghost mid = *self;
        let n = self.parent.len();
        let rka = self.rank[ra];
        let rkb = self.rank[rb];
        proof {
            assert(mid.parent@[mid.rep@[a as int]] as int == mid.rep@[a as int]);
            assert(mid.parent@[mid.rep@[b as int]] as int == mid.rep@[b as int]);
        }
        // `child` is hung below `root`.
        let (child, root) = if rka < rkb {
            (ra, rb)
        } else {
            (rb, ra)
        };
        self.parent.set(child, root);
        if rka == rkb {
            proof {
                lemma_count_roots_two(mid.parent@, n as int, ra as int, rb as int);
                lemma_count_roots_le(mid.parent@, n as int);
                assert(mid.rank@[ra as int] <= mid.merges@);
            }
            self.rank.set(root, rka + 1);
        }
        let ghost new_rep = Seq::new(
            n as nat,
            |i: int|
                if mid.rep@[i] == child as int {
                    root as int
                } else {
                    mid.rep@[i]
                },
        );
        self.rep = Ghost(new_rep);
        self.merges = Ghost((mid.merges@ + 1) as nat);
        proof {
            lemma_count_roots_drop_one(mid.parent@, self.parent@, n as int, child as int);
            assert forall|i: int|
                0 <= i < n && #[trigger] self.parent@[i] as int != i implies {
                &&& self.rep@[self.parent@[i] as int] == self.rep@[i]
                &&& self.rank@[i] < self.rank@[self.parent@[i] as int]
                &&& self.rank@[i] < self.rank@[self.rep@[i]]
            } by {
                if i == child as int {
                    assert(mid.rep@[child as int] == child as int);
                    assert(mid.rep@[root as int] == root as int);
                } else {
                    assert(mid.parent@[i] as int != i);
                    assert(mid.rep@[mid.parent@[i] as int] == mid.rep@[i]);
                    assert(mid.rank@[i] < mid.rank@[mid.rep@[i]]);
                    if mid.rep@[i] == child as int {
                        assert(mid.rep@[root as int] == root as int);
                    }
                }
            }
            assert forall|i: int|
                0 <= i < n implies self.parent@[#[trigger] self.rep@[i]] as int
                == self.rep@[i] by {
                assert(mid.parent@[mid.rep@[i]] as int == mid.rep@[i]);
            }
            assert forall|i: int|
                0 <= i < n && #[trigger] self.parent@[i] as int == i implies self.rep@[i] == i by {
                assert(mid.parent@[i] as int == i);
                assert(mid.rep@[i] == i);
            }
            assert forall|i: int| 0 <= i < n implies #[trigger] self.rank@[i] <= self.merges@ by {
                assert(mid.rank@[i] <= mid.merges@);
            }
            assert forall|i: int| 0 <= i < n implies (#[trigger] self.parent@[i] as int) < n by {
                assert((mid.parent@[i] as int) < n);
            }
            assert forall|i: int| 0 <= i < n implies 0 <= #[trigger] self.rep@[i] < n by {
                assert(0 <= mid.rep@[i] < n);
            }
            assert(self.wf());
            assert forall|x: int, y: int|
                0 <= x < n && 0 <= y < n implies (#[trigger] self.same_set(x, y) <==> (pre.same_set(
                x,
                y,
            ) || (pre.same_set(x, a as int) && pre.same_set(y, b as int)) || (pre.same_set(
                x,
                b as int,
            ) && pre.same_set(y, a as int)))) by {
                assert(mid.rep@ == pre.rep@);
            }
        }
    }
}

} // verus!
