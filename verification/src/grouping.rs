//! Grouping of media into clusters of visually similar items.
//!
//! The similarity test itself (a dot product of embedding vectors against a
//! threshold) yields the edge list; everything after it is decided here: the
//! size limits, the connected components of the similarity graph, which of them
//! form groups, and their order.
use vstd::prelude::*;

use crate::connectivity::{connected, edges_in_range, is_path, lemma_connected_refl, lemma_union_step, step_ok};
use crate::error::DomainError;
use crate::text::{decimal, decimal_chars, push_chars, push_str};
use crate::union_find::UnionFind;

verus! {

/// Maximum number of items that can be grouped at once.
pub const MAX_GROUPABLE_ITEMS: usize = 10_000;

/// Maximum number of edges (similar pairs) before aborting to prevent OOM.
pub const MAX_EDGES: usize = 5_000_000;

/// `groups` lists every connected component of at least two vertices of the graph
/// on `0..n`, once each, with its members in increasing order.
pub open spec fn is_component_listing(
    n: int,
    edges: Seq<(usize, usize)>,
    groups: Seq<Vec<usize>>,
) -> bool {
    &&& forall|g: int| 0 <= g < groups.len() ==> #[trigger] groups[g]@.len() >= 2
    &&& forall|g: int, i: int, j: int|
        0 <= g < groups.len() && 0 <= i < j < groups[g]@.len() ==> #[trigger] groups[g]@[i]
            < #[trigger] groups[g]@[j]
    &&& forall|g: int, i: int|
        0 <= g < groups.len() && 0 <= i < groups[g]@.len() ==> (#[trigger] groups[g]@[i] as int)
            < n
    &&& forall|g: int, i: int, y: int|
        0 <= g < groups.len() && 0 <= i < groups[g]@.len() && 0 <= y < n ==> (connected(
            edges,
            #[trigger] groups[g]@[i] as int,
            y,
        ) <==> #[trigger] groups[g]@.contains(y as usize))
    &&& forall|x: int, y: int|
        0 <= x < n && 0 <= y < n && x != y && #[trigger] connected(edges, x, y) ==> exists|g: int|
            0 <= g < groups.len() && #[trigger] groups[g]@.contains(x as usize)
    &&& forall|g1: int, g2: int, i: int, j: int|
        0 <= g1 < groups.len() && 0 <= g2 < groups.len() && g1 != g2 && 0 <= i
            < groups[g1]@.len() && 0 <= j < groups[g2]@.len() ==> #[trigger] groups[g1]@[i]
            != #[trigger] groups[g2]@[j]
}

proof fn lemma_connected_no_edges(x: int, y: int)
    requires
        connected(Seq::<(usize, usize)>::empty(), x, y),
    ensures
        x == y,
{
    let e = Seq::<(usize, usize)>::empty();
    let p = choose|p: Seq<int>| #[trigger] is_path(e, p) && p[0] == x && p.last() == y;
    if p.len() > 1 {
        assert(step_ok(e, p, 0));
    }
}

/// Connected components (of two or more vertices) of the graph on `0..n`
/// whose edges are `edges`.
pub fn connected_components(n: usize, edges: &Vec<(usize, usize)>) -> (groups: Vec<Vec<usize>>)
    requires
        edges_in_range(edges@, n as int),
    ensures
        is_component_listing(n as int, edges@, groups@),
{
    let mut uf = UnionFind::new(n);
    let mut k: usize = 0;
    proof {
        assert(edges@.take(0) =~= Seq::<(usize, usize)>::empty());
        assert forall|x: int, y: int|
            0 <= x < n && 0 <= y < n implies (uf.same_set(x, y) <==> #[trigger] connected(
            edges@.take(0),
            x,
            y,
        )) by {
            if connected(edges@.take(0), x, y) {
                lemma_connected_no_edges(x, y);
            }
            if x == y {
                lemma_connected_refl(edges@.take(0), x);
            }
        }
    }
    while k < edges.len()
        invariant
            uf.wf(),
            uf.n_elems() == n,
            k <= edges.len(),
            edges_in_range(edges@, n as int),
            forall|x: int, y: int|
                0 <= x < n && 0 <= y < n ==> (uf.same_set(x, y) <==> #[trigger] connected(
                    edges@.take(k as int),
                    x,
                    y,
                )),
        decreases edges.len() - k,
    {
        let (a, b) = edges[k];
        let ghost r = Seq::new(n as nat, |i: int| uf.rep_of(i));
        let ghost old_uf = uf;
        uf.union(a, b);
        let ghost r2 = Seq::new(n as nat, |i: int| uf.rep_of(i));
        proof {
            let pre = edges@.take(k as int);
            assert(edges@.take(k + 1) =~= pre.push((a, b)));
            assert(edges_in_range(pre, n as int));
            assert forall|x: int, y: int|
                0 <= x < n && 0 <= y < n implies (r[x] == r[y] <==> #[trigger] connected(
                pre,
                x,
                y,
            )) by {
                assert(old_uf.same_set(x, y) <==> connected(pre, x, y));
            }
            assert forall|x: int, y: int|
                0 <= x < n && 0 <= y < n implies (#[trigger] r2[x] == #[trigger] r2[y] <==> (r[x]
                == r[y] || (r[x] == r[a as int] && r[y] == r[b as int]) || (r[x] == r[b as int]
                && r[y] == r[a as int]))) by {
                assert(uf.same_set(x, y) <==> (old_uf.same_set(x, y) || (old_uf.same_set(
                    x,
                    a as int,
                ) && old_uf.same_set(y, b as int)) || (old_uf.same_set(x, b as int)
                    && old_uf.same_set(y, a as int))));
            }
            lemma_union_step(pre, a, b, n as int, r, r2);
            assert forall|x: int, y: int|
                0 <= x < n && 0 <= y < n implies (uf.same_set(x, y) <==> #[trigger] connected(
                edges@.take(k + 1),
                x,
                y,
            )) by {
                assert(r2[x] == uf.rep_of(x));
                assert(r2[y] == uf.rep_of(y));
            }
        }
        k = k + 1;
    }
    proof {
        assert(edges@.take(edges.len() as int) =~= edges@);
    }
    // Representative of every element.
    let ghost uf0 = uf;
    let mut roots: Vec<usize> = Vec::new();
    let mut i: usize = 0;
    while i < n
        invariant
            uf.wf(),
            uf.n_elems() == n,
            i <= n,
            roots@.len() == i,
            forall|x: int| 0 <= x < n ==> #[trigger] uf.rep_of(x) == uf0.rep_of(x),
            forall|j: int| 0 <= j < i ==> #[trigger] roots@[j] as int == uf0.rep_of(j),
            forall|j: int| 0 <= j < i ==> (#[trigger] roots@[j] as int) < n,
            forall|j: int| 0 <= j < i ==> uf0.rep_of(#[trigger] roots@[j] as int) == roots@[j] as int,
        decreases n - i,
    {
        let ri = uf.find(i);
        roots.push(ri);
        i = i + 1;
    }
    proof {
        assert forall|x: int, y: int|
            0 <= x < n && 0 <= y < n implies (roots@[x] == roots@[y] <==> #[trigger] connected(
            edges@,
            x,
            y,
        )) by {
            assert(uf0.same_set(x, y) <==> connected(edges@, x, y));
            assert(roots@[x] as int == uf0.rep_of(x));
            assert(roots@[y] as int == uf0.rep_of(y));
        }
        assert forall|x: int| 0 <= x < n implies roots@[#[trigger] roots@[x] as int] == roots@[x] by {
            let rx = roots@[x] as int;
            assert(roots@[rx] as int == uf0.rep_of(rx));
        }
    }
    // One group per class holding at least two members.
    let mut groups: Vec<Vec<usize>> = Vec::new();
    let ghost mut group_roots: Seq<int> = Seq::empty();
    let mut r: usize = 0;
    while r < n
        invariant
            r <= n,
            roots@.len() == n,
            forall|j: int| 0 <= j < n ==> (#[trigger] roots@[j] as int) < n,
            forall|x: int| 0 <= x < n ==> roots@[#[trigger] roots@[x] as int] == roots@[x],
            forall|x: int, y: int|
                0 <= x < n && 0 <= y < n ==> (roots@[x] == roots@[y] <==> #[trigger] connected(
                    edges@,
                    x,
                    y,
                )),
            groups@.len() == group_roots.len(),
            forall|g: int| 0 <= g < group_roots.len() ==> 0 <= #[trigger] group_roots[g] < r,
            forall|g1: int, g2: int|
                0 <= g1 < g2 < group_roots.len() ==> #[trigger] group_roots[g1]
                    < #[trigger] group_roots[g2],
            forall|g: int| 0 <= g < groups@.len() ==> #[trigger] groups@[g]@.len() >= 2,
            forall|g: int, i: int, j: int|
                0 <= g < groups@.len() && 0 <= i < j < groups@[g]@.len() ==> #[trigger] groups@[g]@[i]
                    < #[trigger] groups@[g]@[j],
            forall|g: int, i: int|
                0 <= g < groups@.len() && 0 <= i < groups@[g]@.len() ==> (
                #[trigger] groups@[g]@[i] as int) < n,
            forall|g: int, y: int|
                0 <= g < groups@.len() && 0 <= y < n ==> (#[trigger] groups@[g]@.contains(y as usize)
                    <==> roots@[y] as int == group_roots[g]),
            forall|x: int, y: int|
                0 <= x < n && 0 <= y < n && x != y && (roots@[x] as int) < r && #[trigger] roots@[x]
                    == #[trigger] roots@[y] ==> exists|g: int|
                    0 <= g < group_roots.len() && group_roots[g] == roots@[x] as int,
        decreases n - r,
    {
        if roots[r] == r {
            let mut members: Vec<usize> = Vec::new();
            let mut j: usize = 0;
            while j < n
                invariant
                    j <= n,
                    r < n,
                    roots@.len() == n,
                    forall|a: int, b: int|
                        0 <= a < b < members@.len() ==> #[trigger] members@[a]
                            < #[trigger] members@[b],
                    forall|a: int| 0 <= a < members@.len() ==> (#[trigger] members@[a] as int) < j,
                    forall|t: int|
                        0 <= t < j ==> (#[trigger] roots@[t] == r <==> members@.contains(t as usize)),
                    forall|t: int| 0 <= t < members@.len() ==> roots@[#[trigger] members@[t] as int] == r,
                decreases n - j,
            {
                let ghost old_m = members@;
                if roots[j] == r {
                    members.push(j);
                }
                proof {
                    assert forall|t: int|
                        0 <= t < j + 1 implies (#[trigger] roots@[t] == r <==> members@.contains(
                        t as usize,
                    )) by {
                        if t < j {
                            if old_m.contains(t as usize) {
                                let a = choose|a: int| 0 <= a < old_m.len() && old_m[a] == t as usize;
                                assert(members@[a] == old_m[a]);
                            }
                            if members@.contains(t as usize) {
                                let a = choose|a: int|
                                    0 <= a < members@.len() && members@[a] == t as usize;
                                if a < old_m.len() {
                                    assert(old_m[a] == members@[a]);
                                }
                            }
                        } else {
                            if roots@[t] == r {
                                assert(members@[members@.len() - 1] == j);
                            } else {
                                if members@.contains(t as usize) {
                                    let a = choose|a: int|
                                        0 <= a < members@.len() && members@[a] == t as usize;
                                    assert(old_m[a] == members@[a]);
                                }
                            }
                        }
                    }
                }
                j = j + 1;
            }
            if members.len() >= 2 {
                let ghost old_groups = groups@;
                groups.push(members);
                proof {
                    let old_roots = group_roots;
                    group_roots = group_roots.push(r as int);
                    assert forall|x: int, y: int|
                        0 <= x < n && 0 <= y < n && x != y && (roots@[x] as int) < r + 1
                            && #[trigger] roots@[x] == #[trigger] roots@[y] implies exists|g: int|
                        0 <= g < group_roots.len() && group_roots[g] == roots@[x] as int by {
                        if roots@[x] as int == r as int {
                            assert(group_roots[old_roots.len() as int] == r as int);
                        } else {
                            let g = choose|g: int|
                                0 <= g < old_roots.len() && old_roots[g] == roots@[x] as int;
                            assert(group_roots[g] == old_roots[g]);
                        }
                    }
                    assert forall|g: int, y: int|
                        0 <= g < groups@.len() && 0 <= y < n implies (
                        #[trigger] groups@[g]@.contains(y as usize) <==> roots@[y] as int
                            == group_roots[g]) by {
                        if g < old_groups.len() {
                            assert(groups@[g] == old_groups[g]);
                        } else {
                            if groups@[g]@.contains(y as usize) {
                                let t = choose|t: int|
                                    0 <= t < groups@[g]@.len() && groups@[g]@[t] == y as usize;
                                assert(roots@[members@[t] as int] == r);
                            }
                        }
                    }
                }
            } else {
                proof {
                    assert forall|x: int, y: int|
                        0 <= x < n && 0 <= y < n && x != y && (roots@[x] as int) < r + 1
                            && #[trigger] roots@[x] == #[trigger] roots@[y] implies exists|g: int|
                        0 <= g < group_roots.len() && group_roots[g] == roots@[x] as int by {
                        if roots@[x] as int == r as int {
                            assert(members@.contains(x as usize));
                            assert(members@.contains(y as usize));
                            let a = choose|a: int| 0 <= a < members@.len() && members@[a] == x as usize;
                            let b = choose|b: int| 0 <= b < members@.len() && members@[b] == y as usize;
                            assert(a != b);
                        }
                    }
                }
            }
        } else {
            proof {
                assert forall|x: int| 0 <= x < n implies #[trigger] roots@[x] as int != r as int by {
                    if roots@[x] as int == r as int {
                        assert(roots@[roots@[x] as int] == roots@[x]);
                    }
                }
            }
        }
        r = r + 1;
    }
    proof {
        let gs = groups@;
        assert forall|g: int, i: int, y: int|
            0 <= g < gs.len() && 0 <= i < gs[g]@.len() && 0 <= y < n implies (connected(
            edges@,
            #[trigger] gs[g]@[i] as int,
            y,
        ) <==> #[trigger] gs[g]@.contains(y as usize)) by {
            let x = gs[g]@[i] as int;
            assert(gs[g]@.contains(x as usize));
            assert(roots@[x] as int == group_roots[g]);
            assert(roots@[x] == roots@[y] <==> connected(edges@, x, y));
        }
        assert forall|x: int, y: int|
            0 <= x < n && 0 <= y < n && x != y && #[trigger] connected(edges@, x, y) implies exists|
            g: int,
        | 0 <= g < gs.len() && #[trigger] gs[g]@.contains(x as usize) by {
            assert(roots@[x] == roots@[y]);
            let g = choose|g: int| 0 <= g < group_roots.len() && group_roots[g] == roots@[x] as int;
            assert(gs[g]@.contains(x as usize));
        }
        assert forall|g1: int, g2: int, i: int, j: int|
            0 <= g1 < gs.len() && 0 <= g2 < gs.len() && g1 != g2 && 0 <= i < gs[g1]@.len() && 0
                <= j < gs[g2]@.len() implies #[trigger] gs[g1]@[i] != #[trigger] gs[g2]@[j] by {
            if gs[g1]@[i] == gs[g2]@[j] {
                let x = gs[g1]@[i] as int;
                assert(gs[g1]@.contains(x as usize));
                assert(gs[g2]@.contains(x as usize));
                if g1 < g2 {
                    assert(group_roots[g1] < group_roots[g2]);
                } else {
                    assert(group_roots[g2] < group_roots[g1]);
                }
            }
        }
    }
    groups
}


/// Sort key of a group: the date of its first member.
pub open spec fn group_key(groups: Seq<Vec<usize>>, dates: Seq<i128>, g: int) -> i128 {
    dates[groups[g]@[0] as int]
}

/// Group `a` comes before group `b`: newer first member, ties by position.
pub open spec fn comes_before(groups: Seq<Vec<usize>>, dates: Seq<i128>, a: int, b: int) -> bool {
    group_key(groups, dates, a) > group_key(groups, dates, b) || (group_key(groups, dates, a)
        == group_key(groups, dates, b) && a < b)
}

/// Order of the group positions: newest first member first; ties keep their position order.
fn newest_first_order(groups: &Vec<Vec<usize>>, dates: &Vec<i128>) -> (order: Vec<usize>)
    requires
        forall|g: int| 0 <= g < groups@.len() ==> #[trigger] groups@[g]@.len() >= 1,
        forall|g: int|
            0 <= g < groups@.len() ==> (#[trigger] groups@[g]@[0] as int) < dates@.len(),
    ensures
        order@.len() == groups@.len(),
        forall|p: int| 0 <= p < order@.len() ==> (#[trigger] order@[p] as int) < groups@.len(),
        forall|t: int| 0 <= t < groups@.len() ==> #[trigger] order@.contains(t as usize),
        forall|p: int, q: int|
            0 <= p < q < order@.len() ==> comes_before(
                groups@,
                dates@,
                #[trigger] order@[p] as int,
                #[trigger] order@[q] as int,
            ),
{
    let k = groups.len();
    let mut order: Vec<usize> = Vec::new();
    let mut i: usize = 0;
    while i < k
        invariant
            k == groups@.len(),
            i <= k,
            forall|g: int| 0 <= g < groups@.len() ==> #[trigger] groups@[g]@.len() >= 1,
            forall|g: int|
                0 <= g < groups@.len() ==> (#[trigger] groups@[g]@[0] as int) < dates@.len(),
            order@.len() == i,
            forall|p: int| 0 <= p < order@.len() ==> (#[trigger] order@[p] as int) < i,
            forall|t: int| 0 <= t < i ==> #[trigger] order@.contains(t as usize),
            forall|p: int, q: int|
                0 <= p < q < order@.len() ==> comes_before(
                    groups@,
                    dates@,
                    #[trigger] order@[p] as int,
                    #[trigger] order@[q] as int,
                ),
        decreases k - i,
    {
        let key_i = dates[groups[i][0]];
        let mut pos: usize = 0;
        while pos < order.len() && dates[groups[order[pos]][0]] >= key_i
            invariant
                k == groups@.len(),
                i < k,
                pos <= order@.len(),
                forall|g: int| 0 <= g < groups@.len() ==> #[trigger] groups@[g]@.len() >= 1,
                forall|g: int|
                    0 <= g < groups@.len() ==> (#[trigger] groups@[g]@[0] as int) < dates@.len(),
                forall|p: int| 0 <= p < order@.len() ==> (#[trigger] order@[p] as int) < i,
                key_i == group_key(groups@, dates@, i as int),
                forall|p: int|
                    0 <= p < pos ==> group_key(groups@, dates@, #[trigger] order@[p] as int)
                        >= key_i,
            decreases order@.len() - pos,
        {
            pos = pos + 1;
        }
        let ghost old_order = order@;
        order.insert(pos, i);
        proof {
            assert forall|p: int| 0 <= p < order@.len() implies (#[trigger] order@[p] as int) < i
                + 1 by {
                if p < pos {
                    assert(order@[p] == old_order[p]);
                } else if p > pos {
                    assert(order@[p] == old_order[p - 1]);
                }
            }
            assert forall|t: int| 0 <= t < i + 1 implies #[trigger] order@.contains(t as usize) by {
                if t < i {
                    assert(old_order.contains(t as usize));
                    let a = choose|a: int| 0 <= a < old_order.len() && old_order[a] == t as usize;
                    if a < pos {
                        assert(order@[a] == old_order[a]);
                    } else {
                        assert(order@[a + 1] == old_order[a]);
                    }
                } else {
                    assert(order@[pos as int] == i);
                }
            }
            if pos < old_order.len() {
                assert(group_key(groups@, dates@, old_order[pos as int] as int) < key_i);
            }
            assert forall|p: int, q: int|
                0 <= p < q < order@.len() implies comes_before(
                groups@,
                dates@,
                #[trigger] order@[p] as int,
                #[trigger] order@[q] as int,
            ) by {
                if q < pos {
                    assert(order@[p] == old_order[p] && order@[q] == old_order[q]);
                } else if q == pos {
                    assert(order@[p] == old_order[p]);
                    assert(group_key(groups@, dates@, old_order[p] as int) >= key_i);
                } else if p < pos {
                    assert(order@[p] == old_order[p] && order@[q] == old_order[q - 1]);
                } else if p == pos {
                    assert(order@[q] == old_order[q - 1]);
                    if q - 1 > pos {
                        assert(comes_before(
                            groups@,
                            dates@,
                            old_order[pos as int] as int,
                            old_order[q - 1] as int,
                        ));
                    }
                } else {
                    assert(order@[p] == old_order[p - 1] && order@[q] == old_order[q - 1]);
                }
            }
        }
        i = i + 1;
    }
    order
}

/// Why a grouping request is refused.
pub enum GroupingError {
    /// More items than `MAX_GROUPABLE_ITEMS`; holds their number.
    TooManyItems(usize),
    /// More similar pairs than `MAX_EDGES`.
    TooManyPairs,
}

/// Groups of similar items: the items are `0..n`, `edges` are the similar pairs and
/// `dates[i]` orders item `i` in time. The result lists each connected component
/// of two or more items once, newest first member first.
pub fn group_similar(n: usize, edges: &Vec<(usize, usize)>, dates: &Vec<i128>) -> (res: Result<
    Vec<Vec<usize>>,
    GroupingError,
>)
    requires
        dates@.len() == n,
        edges_in_range(edges@, n as int),
    ensures
        n == 0 ==> (res matches Ok(gs) && gs@.len() == 0),
        n > MAX_GROUPABLE_ITEMS ==> (res matches Err(GroupingError::TooManyItems(c)) && c == n),
        0 < n <= MAX_GROUPABLE_ITEMS && edges@.len() > MAX_EDGES ==> res matches Err(
            GroupingError::TooManyPairs,
        ),
        0 < n <= MAX_GROUPABLE_ITEMS && edges@.len() <= MAX_EDGES ==> res is Ok,
        res matches Ok(gs) ==> {
            &&& is_component_listing(n as int, edges@, gs@)
            &&& forall|p: int, q: int|
                0 <= p < q < gs@.len() ==> group_key(gs@, dates@, p) >= group_key(gs@, dates@, q)
        },
{
    if n == 0 {
        return Ok(Vec::new());
    }
    if n > MAX_GROUPABLE_ITEMS {
        return Err(GroupingError::TooManyItems(n));
    }
    if edges.len() > MAX_EDGES {
        return Err(GroupingError::TooManyPairs);
    }
    let mut comps = connected_components(n, edges);
    let ghost orig = comps@;
    let order = newest_first_order(&comps, dates);
    let k = order.len();
    let mut out: Vec<Vec<usize>> = Vec::new();
    let mut p: usize = 0;
    while p < k
        invariant
            k == order@.len(),
            k == orig.len(),
            comps@.len() == orig.len(),
            p <= k,
            out@.len() == p,
            forall|q: int| 0 <= q < order@.len() ==> (#[trigger] order@[q] as int) < orig.len(),
            forall|a: int, b: int|
                0 <= a < b < order@.len() ==> comes_before(
                    orig,
                    dates@,
                    #[trigger] order@[a] as int,
                    #[trigger] order@[b] as int,
                ),
            forall|q: int| 0 <= q < p ==> #[trigger] out@[q] == orig[order@[q] as int],
            forall|q: int| p <= q < k ==> comps@[#[trigger] order@[q] as int] == orig[order@[q] as int],
        decreases k - p,
    {
        let mut taken: Vec<usize> = Vec::new();
        comps.set_and_swap(order[p], &mut taken);
        out.push(taken);
        proof {
            assert forall|q: int| p + 1 <= q < k implies comps@[#[trigger] order@[q] as int]
                == orig[order@[q] as int] by {
                assert(comes_before(orig, dates@, order@[p as int] as int, order@[q] as int));
            }
        }
        p = p + 1;
    }
    proof {
        let gs = out@;
        assert forall|g: int| 0 <= g < gs.len() implies #[trigger] gs[g]@.len() >= 2 by {
            assert(gs[g] == orig[order@[g] as int]);
        }
        assert forall|g: int, i: int, j: int|
            0 <= g < gs.len() && 0 <= i < j < gs[g]@.len() implies #[trigger] gs[g]@[i]
            < #[trigger] gs[g]@[j] by {
            assert(gs[g] == orig[order@[g] as int]);
        }
        assert forall|g: int, i: int|
            0 <= g < gs.len() && 0 <= i < gs[g]@.len() implies (#[trigger] gs[g]@[i] as int)
            < n by {
            assert(gs[g] == orig[order@[g] as int]);
        }
        assert forall|g: int, i: int, y: int|
            0 <= g < gs.len() && 0 <= i < gs[g]@.len() && 0 <= y < n implies (connected(
            edges@,
            #[trigger] gs[g]@[i] as int,
            y,
        ) <==> #[trigger] gs[g]@.contains(y as usize)) by {
            assert(gs[g] == orig[order@[g] as int]);
            assert(orig[order@[g] as int]@[i] == gs[g]@[i]);
        }
        assert forall|x: int, y: int|
            0 <= x < n && 0 <= y < n && x != y && #[trigger] connected(edges@, x, y) implies exists|
            g: int,
        | 0 <= g < gs.len() && #[trigger] gs[g]@.contains(x as usize) by {
            let g0 = choose|g: int| 0 <= g < orig.len() && #[trigger] orig[g]@.contains(x as usize);
            assert(order@.contains(g0 as usize));
            let p0 = choose|p0: int| 0 <= p0 < order@.len() && order@[p0] == g0 as usize;
            assert(gs[p0] == orig[g0]);
        }
        assert forall|g1: int, g2: int, i: int, j: int|
            0 <= g1 < gs.len() && 0 <= g2 < gs.len() && g1 != g2 && 0 <= i < gs[g1]@.len() && 0
                <= j < gs[g2]@.len() implies #[trigger] gs[g1]@[i] != #[trigger] gs[g2]@[j] by {
            assert(gs[g1] == orig[order@[g1] as int]);
            assert(gs[g2] == orig[order@[g2] as int]);
            if g1 < g2 {
                assert(comes_before(orig, dates@, order@[g1] as int, order@[g2] as int));
            } else {
                assert(comes_before(orig, dates@, order@[g2] as int, order@[g1] as int));
            }
            assert(order@[g1] != order@[g2]);
            assert(orig[order@[g1] as int]@[i] != orig[order@[g2] as int]@[j]);
        }
        assert forall|a: int, b: int|
            0 <= a < b < gs.len() implies group_key(gs, dates@, a) >= group_key(gs, dates@, b) by {
            assert(gs[a] == orig[order@[a] as int]);
            assert(gs[b] == orig[order@[b] as int]);
            assert(comes_before(orig, dates@, order@[a] as int, order@[b] as int));
        }
    }
    Ok(out)
}

/// `Too many items to group: <n> (max 10000)`.
pub open spec fn too_many_items_message(n: nat) -> Seq<char> {
    "Too many items to group: "@ + decimal(n) + " (max "@ + decimal(MAX_GROUPABLE_ITEMS as nat) + ")"@
}

/// `Too many similar pairs (>5000000) — try a higher similarity threshold`.
pub open spec fn too_many_pairs_message() -> Seq<char> {
    "Too many similar pairs (>"@ + decimal(MAX_EDGES as nat)
        + ") — try a higher similarity threshold"@
}

impl GroupingError {
    /// The error reported to the client.
    pub fn to_domain_error(&self) -> (e: DomainError)
        ensures
            match e {
                DomainError::Io(m) => m@ == match *self {
                    GroupingError::TooManyItems(n) => too_many_items_message(n as nat),
                    GroupingError::TooManyPairs => too_many_pairs_message(),
                },
                _ => false,
            },
    {
        let mut m = String::new();
        match self {
            GroupingError::TooManyItems(n) => {
                push_str(&mut m, "Too many items to group: ");
                push_chars(&mut m, &decimal_chars(*n as u64));
                push_str(&mut m, " (max ");
                push_chars(&mut m, &decimal_chars(MAX_GROUPABLE_ITEMS as u64));
                push_str(&mut m, ")");
                proof {
                    assert(m@ =~= too_many_items_message(*n as nat));
                }
            },
            GroupingError::TooManyPairs => {
                push_str(&mut m, "Too many similar pairs (>");
                push_chars(&mut m, &decimal_chars(MAX_EDGES as u64));
                push_str(&mut m, ") — try a higher similarity threshold");
                proof {
                    assert(m@ =~= too_many_pairs_message());
                }
            },
        }
        DomainError::Io(m)
    }
}

/// Maximum number of faces that can be grouped at once.
pub const MAX_GROUPABLE_FACES: usize = 20_000;

/// Maximum number of similar face pairs before face grouping is abandoned.
pub const MAX_FACE_EDGES: usize = 10_000_000;

/// `Too many faces to group: <n> (max 20000)`.
pub open spec fn too_many_faces_message(n: nat) -> Seq<char> {
    "Too many faces to group: "@ + decimal(n) + " (max "@ + decimal(MAX_GROUPABLE_FACES as nat) + ")"@
}

/// `Too many similar face pairs (>10000000)`.
pub open spec fn too_many_face_pairs_message() -> Seq<char> {
    "Too many similar face pairs (>"@ + decimal(MAX_FACE_EDGES as nat) + ")"@
}

/// Whether `n` faces may be grouped; the error says why not.
pub fn check_face_count(n: usize) -> (r: Result<(), DomainError>)
    ensures
        n <= MAX_GROUPABLE_FACES <==> r is Ok,
        match r {
            Err(DomainError::Io(m)) => m@ == too_many_faces_message(n as nat),
            Err(_) => false,
            Ok(_) => true,
        },
{
    if n > MAX_GROUPABLE_FACES {
        let mut m = String::new();
        push_str(&mut m, "Too many faces to group: ");
        push_chars(&mut m, &decimal_chars(n as u64));
        push_str(&mut m, " (max ");
        push_chars(&mut m, &decimal_chars(MAX_GROUPABLE_FACES as u64));
        push_str(&mut m, ")");
        proof {
            assert(m@ =~= too_many_faces_message(n as nat));
        }
        return Err(DomainError::Io(m));
    }
    Ok(())
}

/// The error of a face grouping with more than `MAX_FACE_EDGES` similar pairs.
pub fn too_many_face_pairs() -> (e: DomainError)
    ensures
        match e {
            DomainError::Io(m) => m@ == too_many_face_pairs_message(),
            _ => false,
        },
{
    let mut m = String::new();
    push_str(&mut m, "Too many similar face pairs (>");
    push_chars(&mut m, &decimal_chars(MAX_FACE_EDGES as u64));
    push_str(&mut m, ")");
    proof {
        assert(m@ =~= too_many_face_pairs_message());
    }
    DomainError::Io(m)
}

} // verus!
