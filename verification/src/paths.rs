//! Paths and reachability in a directed graph given by its set of edges.
use vstd::prelude::*;

verus! {

/// The edges of `g` that do not leave `w`.
pub open spec fn drop_out_edges(g: Set<(usize, usize)>, w: usize) -> Set<(usize, usize)> {
    g.filter(|e: (usize, usize)| e.0 != w)
}

/// The edges of `g` that neither leave nor enter `w`.
pub open spec fn drop_node(g: Set<(usize, usize)>, w: usize) -> Set<(usize, usize)> {
    g.filter(|e: (usize, usize)| e.0 != w && e.1 != w)
}

/// The edges of `g` that do not leave a node of `ws`.
pub open spec fn drop_sources(g: Set<(usize, usize)>, ws: Set<usize>) -> Set<(usize, usize)> {
    g.filter(|e: (usize, usize)| !ws.contains(e.0))
}

/// The pairs of `s` whose second component is not in `ts`.
pub open spec fn drop_seconds(s: Set<(usize, usize)>, ts: Set<usize>) -> Set<(usize, usize)> {
    s.filter(|e: (usize, usize)| !ts.contains(e.1))
}

/// The edges of `g` except those from a node of `sources` to `t`.
pub open spec fn drop_edges_to(g: Set<(usize, usize)>, sources: Set<usize>, t: usize) -> Set<(usize, usize)> {
    g.filter(|e: (usize, usize)| !(sources.contains(e.0) && e.1 == t))
}

/// The pairs of `s` whose first component is not `t`.
pub open spec fn drop_first(s: Set<(usize, usize)>, t: usize) -> Set<(usize, usize)> {
    s.filter(|e: (usize, usize)| e.0 != t)
}

/// The pairs of `s` whose second component is not `t`.
pub open spec fn drop_second(s: Set<(usize, usize)>, t: usize) -> Set<(usize, usize)> {
    s.filter(|e: (usize, usize)| e.1 != t)
}

/// `p` is a non-empty walk in `edges`: each node has an edge to the next.
pub open spec fn is_path(edges: Set<(usize, usize)>, p: Seq<usize>) -> bool {
    &&& p.len() >= 1
    &&& forall|i: int| 0 <= i < p.len() - 1 ==> #[trigger] edges.contains((p[i], p[i + 1]))
}

/// `p` is a walk in `edges` from `a` to `b`.
pub open spec fn is_path_between(edges: Set<(usize, usize)>, p: Seq<usize>, a: usize, b: usize) -> bool {
    &&& is_path(edges, p)
    &&& p[0] == a
    &&& p[p.len() - 1] == b
}

/// There is a walk in `edges` from `a` to `b` (every node reaches itself).
pub open spec fn reachable(edges: Set<(usize, usize)>, a: usize, b: usize) -> bool {
    exists|p: Seq<usize>| is_path_between(edges, p, a, b)
}

/// `c` is a cycle in `edges`: a walk whose last node has an edge back to the first.
pub open spec fn is_cycle(edges: Set<(usize, usize)>, c: Seq<usize>) -> bool {
    &&& is_path(edges, c)
    &&& edges.contains((c[c.len() - 1], c[0]))
}

/// Every successor of a member of `closed` is a member.
pub open spec fn closed_under(edges: Set<(usize, usize)>, closed: Set<usize>) -> bool {
    forall|x: usize, y: usize| closed.contains(x) && #[trigger] edges.contains((x, y)) ==> closed.contains(y)
}

/// A walk that starts in a set closed under the edges stays in it.
pub proof fn lemma_closed_contains_path(edges: Set<(usize, usize)>, closed: Set<usize>, p: Seq<usize>)
    requires
        closed_under(edges, closed),
        is_path(edges, p),
        closed.contains(p[0]),
    ensures
        forall|i: int| 0 <= i < p.len() ==> closed.contains(#[trigger] p[i]),
{
    assert forall|i: int| 0 <= i < p.len() implies closed.contains(#[trigger] p[i]) by {
        lemma_closed_prefix(edges, closed, p, i);
    }
}

proof fn lemma_closed_prefix(edges: Set<(usize, usize)>, closed: Set<usize>, p: Seq<usize>, i: int)
    requires
        closed_under(edges, closed),
        is_path(edges, p),
        closed.contains(p[0]),
        0 <= i < p.len(),
    ensures
        closed.contains(p[i]),
    decreases i,
{
    if i > 0 {
        let j = i - 1;
        lemma_closed_prefix(edges, closed, p, j);
        assert(edges.contains((p[j], p[j + 1])));
    }
}

/// A walk in a set of edges is a walk in any larger set.
pub proof fn lemma_path_monotone(small: Set<(usize, usize)>, large: Set<(usize, usize)>, p: Seq<usize>)
    requires
        small.subset_of(large),
        is_path(small, p),
    ensures
        is_path(large, p),
{
    assert forall|i: int| 0 <= i < p.len() - 1 implies #[trigger] large.contains((p[i], p[i + 1])) by {
        assert(small.contains((p[i], p[i + 1])));
    }
}

/// Reachability is kept when edges are added.
pub proof fn lemma_reachable_monotone(small: Set<(usize, usize)>, large: Set<(usize, usize)>, a: usize, b: usize)
    requires
        small.subset_of(large),
        reachable(small, a, b),
    ensures
        reachable(large, a, b),
{
    let p = choose|p: Seq<usize>| is_path_between(small, p, a, b);
    lemma_path_monotone(small, large, p);
    assert(is_path_between(large, p, a, b));
}

/// The one-node walk: every node reaches itself.
pub proof fn lemma_reachable_refl(edges: Set<(usize, usize)>, a: usize)
    ensures
        reachable(edges, a, a),
{
    let p = seq![a];
    assert(is_path_between(edges, p, a, a));
}

} // verus!

verus! {

/// Membership after a push.
pub proof fn lemma_push_contains(q: Seq<usize>, v: usize)
    ensures
        forall|x: usize| #[trigger] q.push(v).contains(x) == (q.contains(x) || x == v),
{
    assert forall|x: usize| #[trigger] q.push(v).contains(x) == (q.contains(x) || x == v) by {
        if q.contains(x) {
            let k = choose|k: int| 0 <= k < q.len() && q[k] == x;
            assert(q.push(v)[k] == x);
        }
        if x == v {
            assert(q.push(v)[q.len() as int] == v);
        }
        if q.push(v).contains(x) && x != v {
            let k = choose|k: int| 0 <= k < q.len() + 1 && #[trigger] q.push(v)[k] == x;
            assert(q[k] == x);
        }
    }
}

/// Membership after dropping the first element of a sequence without duplicates.
pub proof fn lemma_tail_contains(q: Seq<usize>)
    requires
        q.len() > 0,
        q.no_duplicates(),
    ensures
        q.subrange(1, q.len() as int).no_duplicates(),
        forall|x: usize| #[trigger] q.subrange(1, q.len() as int).contains(x) == (q.contains(x) && x != q[0]),
{
    let t = q.subrange(1, q.len() as int);
    assert forall|x: usize| #[trigger] t.contains(x) == (q.contains(x) && x != q[0]) by {
        if t.contains(x) {
            let k = choose|k: int| 0 <= k < t.len() && t[k] == x;
            assert(q[k + 1] == x);
        }
        if q.contains(x) && x != q[0] {
            let k = choose|k: int| 0 <= k < q.len() && q[k] == x;
            assert(t[k - 1] == x);
        }
    }
}

} // verus!

verus! {

/// `y` lies on a cycle: one of its successors leads back to it.
pub open spec fn on_cycle(edges: Set<(usize, usize)>, y: usize) -> bool {
    exists|z: usize| #[trigger] edges.contains((y, z)) && reachable(edges, z, y)
}

/// Some node reachable from `x` lies on a cycle.
pub open spec fn reaches_cycle(edges: Set<(usize, usize)>, x: usize) -> bool {
    exists|y: usize| #[trigger] reachable(edges, x, y) && on_cycle(edges, y)
}

/// A node whose successors reach no cycle reaches no cycle itself.
pub proof fn lemma_no_cycle_from_successors(edges: Set<(usize, usize)>, v: usize)
    requires
        forall|w: usize| #[trigger] edges.contains((v, w)) ==> !reaches_cycle(edges, w),
    ensures
        !reaches_cycle(edges, v),
{
    if reaches_cycle(edges, v) {
        let y = choose|y: usize| #[trigger] reachable(edges, v, y) && on_cycle(edges, y);
        let p = choose|p: Seq<usize>| is_path_between(edges, p, v, y);
        let z = choose|z: usize| #[trigger] edges.contains((y, z)) && reachable(edges, z, y);
        if p.len() == 1 {
            assert(edges.contains((v, z)));
            assert(on_cycle(edges, v));
            assert(reachable(edges, z, v));
            assert(reaches_cycle(edges, z));
        } else {
            let w = p[1];
            let z0: int = 0;
            assert(edges.contains((p[z0], p[z0 + 1])));
            let q = p.subrange(1, p.len() as int);
            assert(is_path_between(edges, q, w, y)) by {
                assert forall|i: int| 0 <= i < q.len() - 1 implies #[trigger] edges.contains((q[i], q[i + 1])) by {
                    assert(edges.contains((p[i + 1], p[i + 1 + 1])));
                }
            }
            assert(reachable(edges, w, y));
            assert(reaches_cycle(edges, w));
        }
    }
}

/// A cycle's first node lies on a cycle.
pub proof fn lemma_cycle_on_cycle(edges: Set<(usize, usize)>, c: Seq<usize>)
    requires
        is_cycle(edges, c),
    ensures
        on_cycle(edges, c[0]),
{
    if c.len() == 1 {
        lemma_reachable_refl(edges, c[0]);
        assert(edges.contains((c[0], c[0])));
    } else {
        let z0: int = 0;
        assert(edges.contains((c[z0], c[z0 + 1])));
        let q = c.subrange(1, c.len() as int).push(c[0]);
        assert(is_path_between(edges, q, c[1], c[0])) by {
            assert forall|i: int| 0 <= i < q.len() - 1 implies #[trigger] edges.contains((q[i], q[i + 1])) by {
                if i < q.len() - 2 {
                    assert(edges.contains((c[i + 1], c[i + 1 + 1])));
                }
            }
        }
    }
}

} // verus!

verus! {

/// Growing a set does not enlarge its difference with a finite set.
pub proof fn lemma_len_difference_subset<A>(u: Set<A>, small: Set<A>, large: Set<A>)
    requires
        u.finite(),
        small.subset_of(large),
    ensures
        u.difference(large).len() <= u.difference(small).len(),
{
    assert(u.difference(large).subset_of(u.difference(small)));
    vstd::set_lib::lemma_len_subset(u.difference(large), u.difference(small));
}

} // verus!

verus! {

/// Edges that leave `w` never help to reach `w`.
pub proof fn lemma_reach_into_ignores_out_edges(g: Set<(usize, usize)>, extra: Set<(usize, usize)>, w: usize, o: usize)
    requires
        forall|e: (usize, usize)| #[trigger] extra.contains(e) ==> e.0 == w,
    ensures
        reachable(g.union(extra), o, w) == reachable(g, o, w),
{
    if reachable(g, o, w) {
        lemma_reachable_monotone(g, g.union(extra), o, w);
    }
    if reachable(g.union(extra), o, w) {
        let p = choose|p: Seq<usize>| is_path_between(g.union(extra), p, o, w);
        lemma_reach_into_ignores_out_edges_path(g, extra, w, p);
    }
}

proof fn lemma_reach_into_ignores_out_edges_path(g: Set<(usize, usize)>, extra: Set<(usize, usize)>, w: usize, p: Seq<usize>)
    requires
        forall|e: (usize, usize)| #[trigger] extra.contains(e) ==> e.0 == w,
        is_path(g.union(extra), p),
        p[p.len() - 1] == w,
    ensures
        reachable(g, p[0], w),
    decreases p.len(),
{
    if p.len() == 1 || p[0] == w {
        lemma_reachable_refl(g, p[0]);
    } else {
        let z: int = 0;
        assert(g.union(extra).contains((p[z], p[z + 1])));
        assert(g.contains((p[0], p[1])));
        let q = p.subrange(1, p.len() as int);
        assert(is_path(g.union(extra), q)) by {
            assert forall|i: int| 0 <= i < q.len() - 1 implies #[trigger] g.union(extra).contains((q[i], q[i + 1])) by {
                assert(g.union(extra).contains((p[i + 1], p[i + 1 + 1])));
            }
        }
        lemma_reach_into_ignores_out_edges_path(g, extra, w, q);
        let r = choose|r: Seq<usize>| is_path_between(g, r, p[1], w);
        let r2 = seq![p[0]] + r;
        assert(is_path_between(g, r2, p[0], w)) by {
            assert forall|i: int| 0 <= i < r2.len() - 1 implies #[trigger] g.contains((r2[i], r2[i + 1])) by {
                if i > 0 {
                    assert(g.contains((r[i - 1], r[i - 1 + 1])));
                }
            }
        }
    }
}

} // verus!

verus! {

/// No node of `edges` lies on a cycle.
pub open spec fn acyclic(edges: Set<(usize, usize)>) -> bool {
    forall|y: usize| !#[trigger] on_cycle(edges, y)
}

/// A walk can be extended by one more edge.
pub proof fn lemma_reach_edge(edges: Set<(usize, usize)>, a: usize, b: usize, c: usize)
    requires
        reachable(edges, a, b),
        edges.contains((b, c)),
    ensures
        reachable(edges, a, c),
{
    let p = choose|p: Seq<usize>| is_path_between(edges, p, a, b);
    let q = p.push(c);
    assert forall|i: int| 0 <= i < q.len() - 1 implies #[trigger] edges.contains((q[i], q[i + 1])) by {
        if i < p.len() - 1 {
            assert(edges.contains((p[i], p[i + 1])));
        }
    }
    assert(is_path_between(edges, q, a, c));
}

/// Walks compose.
pub proof fn lemma_reach_trans(edges: Set<(usize, usize)>, a: usize, b: usize, c: usize)
    requires
        reachable(edges, a, b),
        reachable(edges, b, c),
    ensures
        reachable(edges, a, c),
{
    let p = choose|p: Seq<usize>| is_path_between(edges, p, a, b);
    let q = choose|q: Seq<usize>| is_path_between(edges, q, b, c);
    let r = p + q.subrange(1, q.len() as int);
    assert forall|i: int| 0 <= i < r.len() - 1 implies #[trigger] edges.contains((r[i], r[i + 1])) by {
        if i < p.len() - 1 {
            assert(edges.contains((p[i], p[i + 1])));
        } else if i == p.len() - 1 {
            let z0: int = 0;
            assert(edges.contains((q[z0], q[z0 + 1])));
        } else {
            let j = i - p.len() + 1;
            assert(edges.contains((q[j], q[j + 1])));
        }
    }
    assert(is_path_between(edges, r, a, c));
}

/// A walk in `edges` plus the edge `e` either avoids `e` or goes from `a`
/// to the start of `e` and from the end of `e` to `b`.
pub proof fn lemma_reach_split(edges: Set<(usize, usize)>, e: (usize, usize), p: Seq<usize>, a: usize, b: usize)
    requires
        is_path_between(edges.insert(e), p, a, b),
    ensures
        reachable(edges, a, b) || (reachable(edges, a, e.0) && reachable(edges, e.1, b)),
    decreases p.len(),
{
    if p.len() == 1 {
        lemma_reachable_refl(edges, a);
    } else {
        let q = p.drop_last();
        let x = q[q.len() - 1];
        assert(is_path_between(edges.insert(e), q, a, x)) by {
            assert forall|i: int| 0 <= i < q.len() - 1 implies #[trigger] edges.insert(e).contains((q[i], q[i + 1])) by {
                assert(edges.insert(e).contains((p[i], p[i + 1])));
            }
        }
        lemma_reach_split(edges, e, q, a, x);
        let k: int = p.len() - 2;
        assert(edges.insert(e).contains((p[k], p[k + 1])));
        if (x, b) == e {
            lemma_reachable_refl(edges, b);
            if reachable(edges, a, x) {
            } else {
                lemma_reach_trans(edges, a, e.0, e.0);
            }
        } else {
            assert(edges.contains((x, b)));
            if reachable(edges, a, x) {
                lemma_reach_edge(edges, a, x, b);
            } else {
                lemma_reach_edge(edges, e.1, x, b);
            }
        }
    }
}

/// Adding an edge whose end does not reach its start closes no cycle.
pub proof fn lemma_insert_keeps_acyclic(edges: Set<(usize, usize)>, from: usize, to: usize)
    requires
        acyclic(edges),
        !reachable(edges, to, from),
    ensures
        acyclic(edges.insert((from, to))),
{
    let g2 = edges.insert((from, to));
    assert forall|y: usize| !#[trigger] on_cycle(g2, y) by {
        if on_cycle(g2, y) {
            let z = choose|z: usize| #[trigger] g2.contains((y, z)) && reachable(g2, z, y);
            let p = choose|p: Seq<usize>| is_path_between(g2, p, z, y);
            lemma_reach_split(edges, (from, to), p, z, y);
            if (y, z) == (from, to) {
                if !reachable(edges, z, y) {
                    lemma_reach_trans(edges, to, from, from);
                }
            } else {
                assert(edges.contains((y, z)));
                if reachable(edges, z, y) {
                    assert(on_cycle(edges, y));
                } else {
                    lemma_reach_edge(edges, to, y, z);
                    lemma_reach_trans(edges, to, z, from);
                }
            }
        }
    }
}

/// Fewer edges close no more cycles.
pub proof fn lemma_subset_keeps_acyclic(small: Set<(usize, usize)>, large: Set<(usize, usize)>)
    requires
        acyclic(large),
        small.subset_of(large),
    ensures
        acyclic(small),
{
    assert forall|y: usize| !#[trigger] on_cycle(small, y) by {
        if on_cycle(small, y) {
            let z = choose|z: usize| #[trigger] small.contains((y, z)) && reachable(small, z, y);
            lemma_reachable_monotone(small, large, z, y);
            assert(large.contains((y, z)));
            assert(on_cycle(large, y));
        }
    }
}

} // verus!
