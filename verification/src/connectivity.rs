//! Reachability in an undirected graph given as an edge list, and the
//! proof that a union-find run over the edges tracks it exactly.
use vstd::prelude::*;

verus! {

/// `x` and `y` are the two ends of some edge (in either direction).
pub open spec fn linked(edges: Seq<(usize, usize)>, x: int, y: int) -> bool {
    exists|k: int|
        0 <= k < edges.len() && ((edges[k].0 as int == x && edges[k].1 as int == y) || (
        edges[k].0 as int == y && edges[k].1 as int == x))
}

/// The step from `p[i]` to `p[i + 1]` follows an edge.
pub open spec fn step_ok(edges: Seq<(usize, usize)>, p: Seq<int>, i: int) -> bool {
    linked(edges, p[i], p[i + 1])
}

/// `p` is a non-empty walk along edges.
pub open spec fn is_path(edges: Seq<(usize, usize)>, p: Seq<int>) -> bool {
    &&& p.len() >= 1
    &&& forall|i: int| 0 <= i < p.len() - 1 ==> #[trigger] step_ok(edges, p, i)
}

/// `y` can be reached from `x` by a walk along edges (every vertex reaches itself).
pub open spec fn connected(edges: Seq<(usize, usize)>, x: int, y: int) -> bool {
    exists|p: Seq<int>| #[trigger] is_path(edges, p) && p[0] == x && p.last() == y
}

/// Every edge has both ends below `n`.
pub open spec fn edges_in_range(edges: Seq<(usize, usize)>, n: int) -> bool {
    forall|k: int| 0 <= k < edges.len() ==> (#[trigger] edges[k].0 as int) < n && (edges[k].1 as int) < n
}

pub proof fn lemma_connected_refl(edges: Seq<(usize, usize)>, x: int)
    ensures
        connected(edges, x, x),
{
    let p = seq![x];
    assert(is_path(edges, p));
}

pub proof fn lemma_linked_connected(edges: Seq<(usize, usize)>, x: int, y: int)
    requires
        linked(edges, x, y),
    ensures
        connected(edges, x, y),
{
    let p = seq![x, y];
    assert(step_ok(edges, p, 0));
    assert(is_path(edges, p));
}

pub proof fn lemma_connected_sym(edges: Seq<(usize, usize)>, x: int, y: int)
    requires
        connected(edges, x, y),
    ensures
        connected(edges, y, x),
{
    let p = choose|p: Seq<int>| #[trigger] is_path(edges, p) && p[0] == x && p.last() == y;
    let l = p.len();
    let q = Seq::new(l, |i: int| p[l - 1 - i]);
    assert forall|i: int| 0 <= i < q.len() - 1 implies #[trigger] step_ok(edges, q, i) by {
        assert(step_ok(edges, p, l - 2 - i));
        let k = choose|k: int|
            0 <= k < edges.len() && ((edges[k].0 as int == p[l - 2 - i] && edges[k].1 as int == p[l
                - 1 - i]) || (edges[k].0 as int == p[l - 1 - i] && edges[k].1 as int == p[l - 2
                - i]));
        assert(q[i] == p[l - 1 - i]);
        assert(q[i + 1] == p[l - 2 - i]);
    }
    assert(is_path(edges, q));
}

pub proof fn lemma_connected_trans(edges: Seq<(usize, usize)>, x: int, y: int, z: int)
    requires
        connected(edges, x, y),
        connected(edges, y, z),
    ensures
        connected(edges, x, z),
{
    let p1 = choose|p: Seq<int>| #[trigger] is_path(edges, p) && p[0] == x && p.last() == y;
    let p2 = choose|p: Seq<int>| #[trigger] is_path(edges, p) && p[0] == y && p.last() == z;
    let q = p1 + p2.drop_first();
    assert forall|i: int| 0 <= i < q.len() - 1 implies #[trigger] step_ok(edges, q, i) by {
        if i < p1.len() - 1 {
            assert(step_ok(edges, p1, i));
            assert(q[i] == p1[i] && q[i + 1] == p1[i + 1]);
        } else {
            let j = i - (p1.len() - 1);
            assert(step_ok(edges, p2, j));
            assert(q[i] == p2[j]);
            assert(q[i + 1] == p2[j + 1]);
        }
    }
    assert(is_path(edges, q));
    if p2.len() == 1 {
        assert(q.last() == p1.last());
    } else {
        assert(q.last() == p2.last());
    }
}

/// Adding an edge keeps every existing walk.
pub proof fn lemma_connected_push(edges: Seq<(usize, usize)>, e: (usize, usize), x: int, y: int)
    requires
        connected(edges, x, y),
    ensures
        connected(edges.push(e), x, y),
{
    let p = choose|p: Seq<int>| #[trigger] is_path(edges, p) && p[0] == x && p.last() == y;
    let big = edges.push(e);
    assert forall|i: int| 0 <= i < p.len() - 1 implies #[trigger] step_ok(big, p, i) by {
        assert(step_ok(edges, p, i));
        let k = choose|k: int|
            0 <= k < edges.len() && ((edges[k].0 as int == p[i] && edges[k].1 as int == p[i + 1])
                || (edges[k].0 as int == p[i + 1] && edges[k].1 as int == p[i]));
        assert(big[k] == edges[k]);
    }
    assert(is_path(big, p));
}

/// Along a walk in `edges.push((a, b))`, a labelling `r2` that is constant on the
/// classes of `r` (which match reachability in `edges`) and equates `a` with `b`
/// is constant.
proof fn lemma_path_labels(
    edges: Seq<(usize, usize)>,
    a: usize,
    b: usize,
    n: int,
    r: Seq<int>,
    r2: Seq<int>,
    p: Seq<int>,
)
    requires
        (a as int) < n,
        (b as int) < n,
        r.len() == n,
        r2.len() == n,
        edges_in_range(edges, n),
        forall|x: int, y: int|
            0 <= x < n && 0 <= y < n ==> (r[x] == r[y] <==> #[trigger] connected(edges, x, y)),
        forall|x: int, y: int|
            0 <= x < n && 0 <= y < n ==> (#[trigger] r2[x] == #[trigger] r2[y] <==> (r[x] == r[y]
                || (r[x] == r[a as int] && r[y] == r[b as int]) || (r[x] == r[b as int] && r[y] == r[a as int]))),
        is_path(edges.push((a, b)), p),
        0 <= p[0] < n,
    ensures
        0 <= p.last() < n,
        r2[p[0]] == r2[p.last()],
    decreases p.len(),
{
    let big = edges.push((a, b));
    if p.len() > 1 {
        let q = p.drop_last();
        assert forall|i: int| 0 <= i < q.len() - 1 implies #[trigger] step_ok(big, q, i) by {
            assert(step_ok(big, p, i));
        }
        lemma_path_labels(edges, a, b, n, r, r2, q);
        let u = p[p.len() - 2];
        let v = p.last();
        assert(u == q.last());
        assert(step_ok(big, p, p.len() - 2));
        let k = choose|k: int|
            0 <= k < big.len() && ((big[k].0 as int == u && big[k].1 as int == v) || (big[k].0 as int
                == v && big[k].1 as int == u));
        if k < edges.len() {
            assert(big[k] == edges[k]);
            assert(linked(edges, u, v));
            lemma_linked_connected(edges, u, v);
            assert(0 <= v < n);
            assert(r[u] == r[v]);
            assert(r2[u] == r2[v]);
        } else {
            assert(big[k] == (a, b));
            assert(r2[a as int] == r2[b as int]);
            assert(r2[u] == r2[v]);
        }
    }
}

/// One union step keeps "same class" equal to reachability.
pub proof fn lemma_union_step(
    edges: Seq<(usize, usize)>,
    a: usize,
    b: usize,
    n: int,
    r: Seq<int>,
    r2: Seq<int>,
)
    requires
        (a as int) < n,
        (b as int) < n,
        r.len() == n,
        r2.len() == n,
        edges_in_range(edges, n),
        forall|x: int, y: int|
            0 <= x < n && 0 <= y < n ==> (r[x] == r[y] <==> #[trigger] connected(edges, x, y)),
        forall|x: int, y: int|
            0 <= x < n && 0 <= y < n ==> (#[trigger] r2[x] == #[trigger] r2[y] <==> (r[x] == r[y]
                || (r[x] == r[a as int] && r[y] == r[b as int]) || (r[x] == r[b as int] && r[y] == r[a as int]))),
    ensures
        forall|x: int, y: int|
            0 <= x < n && 0 <= y < n ==> (r2[x] == r2[y] <==> #[trigger] connected(
                edges.push((a, b)),
                x,
                y,
            )),
{
    let e = (a, b);
    let big = edges.push(e);
    assert(big[edges.len() as int] == e);
    assert(linked(big, a as int, b as int));
    lemma_linked_connected(big, a as int, b as int);
    lemma_connected_sym(big, a as int, b as int);
    assert forall|x: int, y: int|
        0 <= x < n && 0 <= y < n implies (r2[x] == r2[y] <==> #[trigger] connected(big, x, y)) by {
        if r2[x] == r2[y] {
            if r[x] == r[y] {
                assert(connected(edges, x, y));
                lemma_connected_push(edges, e, x, y);
            } else if r[x] == r[a as int] && r[y] == r[b as int] {
                assert(connected(edges, x, a as int));
                assert(connected(edges, b as int, y));
                lemma_connected_push(edges, e, x, a as int);
                lemma_connected_push(edges, e, b as int, y);
                lemma_connected_trans(big, x, a as int, b as int);
                lemma_connected_trans(big, x, b as int, y);
            } else {
                assert(r[x] == r[b as int] && r[y] == r[a as int]);
                assert(connected(edges, x, b as int));
                assert(connected(edges, a as int, y));
                lemma_connected_push(edges, e, x, b as int);
                lemma_connected_push(edges, e, a as int, y);
                lemma_connected_trans(big, x, b as int, a as int);
                lemma_connected_trans(big, x, a as int, y);
            }
        }
        if connected(big, x, y) {
            let p = choose|p: Seq<int>| #[trigger] is_path(big, p) && p[0] == x && p.last() == y;
            lemma_path_labels(edges, a, b, n, r, r2, p);
        }
    }
}

} // verus!
