//! The path from the root to the cursor exists, and no other is shorter.

use vstd::prelude::*;

use super::path::{gets_home, gets_home_grows, joined_by, undirected_links};
use crate::app::lineage::{expanded, looked_at, reached_from, searched, traced, undirected, Found};
use crate::app::AppModel;
use crate::dag::{depends, at, subgraph_members, view_ids, DagModel};
use crate::graph::{
    is_path, linked, neighbours, reach, stays_in, walk, walk_extend, walk_last, walk_start, walk_zero, within,
    Adjacency,
};
use crate::text::Text;

verus! {

/// `v` is `d` hops away from `root`, and no fewer.
pub open spec fn apart(adj: Adjacency, root: Text, v: Text, d: nat) -> bool {
    walk(adj, root, v, d) && forall|m: nat| m < d ==> !#[trigger] walk(adj, root, v, m)
}

proof fn some_distance(adj: Adjacency, root: Text, v: Text, m: nat) -> (d: nat)
    requires
        walk(adj, root, v, m),
    ensures
        d <= m,
        apart(adj, root, v, d),
    decreases m,
{
    if exists|k: nat| k < m && #[trigger] walk(adj, root, v, k) {
        let k = choose|k: nat| k < m && #[trigger] walk(adj, root, v, k);
        some_distance(adj, root, v, k)
    } else {
        m
    }
}

/// The last stop on a shortest way is one hop nearer.
proof fn nearer_stop(adj: Adjacency, root: Text, v: Text, d: nat) -> (u: Text)
    requires
        apart(adj, root, v, d),
        d >= 1,
    ensures
        apart(adj, root, u, (d - 1) as nat),
        linked(adj, u, v),
{
    let u = walk_last(adj, root, v, d);
    assert forall|m: nat| m < d - 1 implies !#[trigger] walk(adj, root, u, m) by {
        if walk(adj, root, u, m) {
            walk_extend(adj, root, u, v, m);
        }
    }
    u
}

/// Where there is a node `d` hops away, there is one at every smaller distance.
proof fn every_level(adj: Adjacency, root: Text, v: Text, d: nat, j: nat) -> (u: Text)
    requires
        apart(adj, root, v, d),
        j <= d,
    ensures
        apart(adj, root, u, j),
    decreases d,
{
    if j == d {
        v
    } else {
        let u = nearer_stop(adj, root, v, d);
        every_level(adj, root, u, (d - 1) as nat, j)
    }
}

/// A shortest way does not visit more nodes than there are.
proof fn distance_bound(adj: Adjacency, root: Text, v: Text, d: nat, ids: Set<Text>) -> (s: Set<Text>)
    requires
        apart(adj, root, v, d),
        ids.finite(),
        ids.contains(root),
        stays_in(adj, ids),
    ensures
        s.finite(),
        s.subset_of(ids),
        s.len() == d + 1,
        forall|w: Text| #[trigger] s.contains(w) ==> exists|m: nat| m <= d && #[trigger] walk(adj, root, w, m),
        d < ids.len(),
    decreases d,
{
    let s = if d == 0 {
        walk_zero(adj, root, v);
        Set::<Text>::empty().insert(v)
    } else {
        let u = nearer_stop(adj, root, v, d);
        let r = distance_bound(adj, root, u, (d - 1) as nat, ids);
        assert(!r.contains(v));
        assert forall|w: Text| #[trigger] r.contains(w) implies exists|m: nat| m <= d && #[trigger] walk(adj, root, w, m) by {
            let m = choose|m: nat| m <= d - 1 && #[trigger] walk(adj, root, w, m);
            assert(walk(adj, root, w, m));
        }
        r.insert(v)
    };
    assert(walk(adj, root, v, d));
    vstd::set_lib::lemma_len_subset(s, ids);
    s
}

// ---- the search, level by level ----

spec fn extends(a: Map<Text, Text>, b: Map<Text, Text>) -> bool {
    forall|w: Text| #[trigger] a.contains_key(w) ==> b.contains_key(w) && b[w] == a[w]
}

proof fn way_home_grows(prev: Map<Text, Text>, more: Map<Text, Text>, v: Text, root: Text, n: nat)
    requires
        gets_home(prev, v, root, n),
        extends(prev, more),
    ensures
        gets_home(more, v, root, n),
{
    assert(prev.submap_of(more)) by {
        assert forall|w: Text| prev.dom().contains(w) implies more.dom().contains(w) && more[w] == prev[w] by {
            assert(prev.contains_key(w));
        }
    }
    gets_home_grows(prev, more, v, root, n, n);
}

spec fn known(prev: Map<Text, Text>, root: Text, v: Text) -> bool {
    v == root || prev.contains_key(v)
}

/// What the search knows after `k` levels: the nodes up to `k` hops away, each
/// with a way home that is as short as any; the next to look at are those
/// exactly `k` hops away.
spec fn level_inv(adj: Adjacency, prev: Map<Text, Text>, front: Seq<Text>, root: Text, k: nat) -> bool {
    &&& forall|v: Text, d: nat| #[trigger] apart(adj, root, v, d) && d <= k ==> known(prev, root, v) && gets_home(prev, v, root, d)
    &&& forall|v: Text| #[trigger] prev.contains_key(v) ==> v != root && exists|d: nat| d <= k && #[trigger] apart(adj, root, v, d)
    &&& forall|v: Text| #[trigger] front.contains(v) <==> apart(adj, root, v, k)
}

/// What is known in the middle of a level that began with `prev`.
spec fn mid_inv(adj: Adjacency, prev: Map<Text, Text>, f: Found, root: Text, k: nat) -> bool {
    &&& extends(prev, f.prev)
    &&& forall|w: Text| #[trigger]
        f.prev.contains_key(w) && !prev.contains_key(w) ==> w != root && apart(adj, root, w, k + 1) && gets_home(
            f.prev,
            w,
            root,
            k + 1,
        ) && f.next.contains(w)
    &&& forall|w: Text| #[trigger] f.next.contains(w) ==> f.prev.contains_key(w) && !prev.contains_key(w)
}

proof fn looked_at_levels(adj: Adjacency, prev: Map<Text, Text>, front: Seq<Text>, u: Text, ns: Seq<Text>, f: Found, root: Text, k: nat)
    requires
        level_inv(adj, prev, front, root, k),
        apart(adj, root, u, k),
        forall|i: int| 0 <= i < ns.len() ==> linked(adj, u, #[trigger] ns[i]),
        mid_inv(adj, prev, f, root, k),
    ensures
        mid_inv(adj, prev, looked_at(u, ns, f, root), root, k),
        extends(f.prev, looked_at(u, ns, f, root).prev),
        forall|i: int| 0 <= i < ns.len() ==> known(looked_at(u, ns, f, root).prev, root, #[trigger] ns[i]),
    decreases ns.len(),
{
    if ns.len() > 0 {
        let rest = ns.drop_last();
        let v = ns.last();
        assert forall|i: int| 0 <= i < rest.len() implies linked(adj, u, #[trigger] rest[i]) by {
            assert(rest[i] == ns[i]);
        }
        looked_at_levels(adj, prev, front, u, rest, f, root, k);
        let r = looked_at(u, rest, f, root);
        let t = looked_at(u, ns, f, root);
        if !known(r.prev, root, v) {
            assert(linked(adj, u, ns[ns.len() - 1]));
            walk_extend(adj, root, u, v, k);
            assert forall|m: nat| m < k + 1 implies !#[trigger] walk(adj, root, v, m) by {
                if walk(adj, root, v, m) {
                    let d = some_distance(adj, root, v, m);
                    assert(known(prev, root, v));
                    assert(r.prev.contains_key(v));
                }
            }
            assert(apart(adj, root, v, k + 1));
            let p = r.prev.insert(v, u);
            assert(t == (Found { prev: p, next: r.next.push(v) }));
            assert(extends(r.prev, p));
            assert(extends(prev, p));
            way_home_grows(prev, p, u, root, k);
            assert forall|w: Text| #[trigger] p.contains_key(w) && !prev.contains_key(w) implies w != root && apart(
                adj,
                root,
                w,
                k + 1,
            ) && gets_home(p, w, root, k + 1) && t.next.contains(w) by {
                if w != v {
                    assert(r.prev.contains_key(w));
                    way_home_grows(r.prev, p, w, root, k + 1);
                    let j = r.next.index_of(w);
                    assert(t.next[j] == w);
                } else {
                    assert(t.next[r.next.len() as int] == v);
                }
            }
            assert forall|w: Text| #[trigger] t.next.contains(w) implies p.contains_key(w) && !prev.contains_key(w) by {
                let j = t.next.index_of(w);
                if j < r.next.len() {
                    assert(r.next[j] == w);
                    assert(r.next.contains(w));
                } else {
                    assert(w == v);
                    if prev.contains_key(v) {
                        assert(r.prev.contains_key(v));
                    }
                }
            }
            assert(extends(f.prev, p));
        } else {
            assert(t == r);
        }
        assert forall|i: int| 0 <= i < ns.len() implies known(t.prev, root, #[trigger] ns[i]) by {
            if i < rest.len() {
                assert(known(r.prev, root, rest[i]));
                assert(extends(r.prev, t.prev));
                if r.prev.contains_key(ns[i]) {
                    assert(r.prev.contains_key(ns[i]));
                }
            }
        }
    }
}

proof fn expanded_levels(adj: Adjacency, prev: Map<Text, Text>, front: Seq<Text>, part: Seq<Text>, root: Text, k: nat)
    requires
        level_inv(adj, prev, front, root, k),
        forall|u: Text| #[trigger] part.contains(u) ==> apart(adj, root, u, k),
    ensures
        mid_inv(adj, prev, expanded(adj, part, prev, root), root, k),
        forall|u: Text, w: Text| part.contains(u) && #[trigger] linked(adj, u, w) ==> known(
            expanded(adj, part, prev, root).prev,
            root,
            w,
        ),
    decreases part.len(),
{
    if part.len() > 0 {
        let rest = part.drop_last();
        let last = part.last();
        assert forall|u: Text| #[trigger] rest.contains(u) implies apart(adj, root, u, k) by {
            let j = rest.index_of(u);
            assert(part[j] == u);
            assert(part.contains(u));
        }
        assert(part[part.len() - 1] == last);
        assert(part.contains(last));
        expanded_levels(adj, prev, front, rest, root, k);
        let r = expanded(adj, rest, prev, root);
        let ns = neighbours(adj, last);
        assert forall|i: int| 0 <= i < ns.len() implies linked(adj, last, #[trigger] ns[i]) by {
            assert(ns.contains(ns[i]));
        }
        looked_at_levels(adj, prev, front, last, ns, r, root, k);
        let t = expanded(adj, part, prev, root);
        assert(t == looked_at(last, ns, r, root));
        assert forall|u: Text, w: Text| part.contains(u) && #[trigger] linked(adj, u, w) implies known(t.prev, root, w) by {
            if rest.contains(u) {
                assert(known(r.prev, root, w));
                if r.prev.contains_key(w) {
                    assert(r.prev.contains_key(w));
                }
            } else {
                let j = part.index_of(u);
                assert(u == last) by {
                    if j < rest.len() {
                        assert(rest[j] == u);
                    }
                }
                let i = ns.index_of(w);
                assert(known(t.prev, root, ns[i]));
            }
        }
    }
}

proof fn next_level(adj: Adjacency, prev: Map<Text, Text>, front: Seq<Text>, root: Text, k: nat)
    requires
        level_inv(adj, prev, front, root, k),
    ensures
        level_inv(adj, expanded(adj, front, prev, root).prev, expanded(adj, front, prev, root).next, root, k + 1),
{
    expanded_levels(adj, prev, front, front, root, k);
    let f = expanded(adj, front, prev, root);
    let k1: nat = k + 1;
    assert forall|v: Text| #[trigger] apart(adj, root, v, k1) implies f.prev.contains_key(v) && !prev.contains_key(v) && v != root by {
        if v == root {
            walk_start(adj, root);
        }
        let u = nearer_stop(adj, root, v, k1);
        assert(front.contains(u));
        assert(known(f.prev, root, v));
        if prev.contains_key(v) {
            let d = choose|d: nat| d <= k && #[trigger] apart(adj, root, v, d);
            assert(walk(adj, root, v, d));
        }
    }
    assert forall|v: Text, d: nat| #[trigger] apart(adj, root, v, d) && d <= k1 implies known(f.prev, root, v) && gets_home(
        f.prev,
        v,
        root,
        d,
    ) by {
        if d <= k {
            assert(known(prev, root, v) && gets_home(prev, v, root, d));
            if prev.contains_key(v) {
                assert(prev.contains_key(v));
            }
            way_home_grows(prev, f.prev, v, root, d);
        } else {
            assert(d == k1);
            assert(apart(adj, root, v, k1));
            assert(f.prev.contains_key(v) && !prev.contains_key(v));
        }
    }
    assert forall|v: Text| #[trigger] f.prev.contains_key(v) implies v != root && exists|d: nat|
        d <= k1 && #[trigger] apart(adj, root, v, d) by {
        if prev.contains_key(v) {
            let d = choose|d: nat| d <= k && #[trigger] apart(adj, root, v, d);
            assert(apart(adj, root, v, d));
        } else {
            assert(apart(adj, root, v, k1));
        }
    }
    assert forall|v: Text| #[trigger] f.next.contains(v) <==> apart(adj, root, v, k1) by {
        if f.next.contains(v) {
            assert(f.prev.contains_key(v) && !prev.contains_key(v));
        }
        if apart(adj, root, v, k1) {
            assert(f.prev.contains_key(v) && !prev.contains_key(v));
        }
    }
}

proof fn search_finds(adj: Adjacency, prev: Map<Text, Text>, front: Seq<Text>, root: Text, n: nat, k: nat, v: Text, d: nat)
    requires
        level_inv(adj, prev, front, root, k),
        apart(adj, root, v, d),
        d <= k + n,
    ensures
        known(searched(adj, front, prev, root, n), root, v),
        gets_home(searched(adj, front, prev, root, n), v, root, d),
    decreases n,
{
    if n == 0 {
        assert(searched(adj, front, prev, root, n) == prev);
    } else if front.len() == 0 {
        assert(searched(adj, front, prev, root, n) == prev);
        if d > k {
            let u = every_level(adj, root, v, d, k);
            assert(front.contains(u));
        }
    } else {
        next_level(adj, prev, front, root, k);
        let f = expanded(adj, front, prev, root);
        search_finds(adj, f.prev, f.next, root, (n - 1) as nat, k + 1, v, d);
    }
}

proof fn traced_length(prev: Map<Text, Text>, v: Text, root: Text, d: nat, n: nat)
    requires
        gets_home(prev, v, root, d),
        d <= n,
    ensures
        traced(prev, v, root, n).len() <= d + 1,
    decreases n,
{
    if n > 0 && v != root && prev.contains_key(v) {
        traced_length(prev, prev[v], root, (d - 1) as nat, (n - 1) as nat);
    }
}

proof fn links_undirected(edges: Seq<(Text, Text)>, x: Text, y: Text)
    requires
        joined_by(edges, x, y),
    ensures
        linked(undirected(edges), x, y),
    decreases edges.len(),
{
    let rest = edges.drop_last();
    let r = undirected(rest);
    let (p, c) = edges.last();
    let s = r.insert(p, at(r, p).push(c));
    let t = s.insert(c, at(s, c).push(p));
    assert(undirected(edges) == t);
    if joined_by(rest, x, y) {
        links_undirected(rest, x, y);
        let k = neighbours(r, x).index_of(y);
        assert(neighbours(s, x)[k] == y);
        assert(neighbours(t, x)[k] == y);
    } else {
        let e = if edges.contains((x, y)) {
            (x, y)
        } else {
            (y, x)
        };
        let k = edges.index_of(e);
        assert(e == (p, c)) by {
            if k < rest.len() {
                assert(rest[k] == e);
                assert(rest.contains(e));
            }
        }
        if x == c {
            assert(neighbours(t, c)[at(s, c).len() as int] == p);
        }
        if x == p && y == c {
            let i = at(r, p).len() as int;
            assert(neighbours(s, p)[i] == c);
            assert(neighbours(t, p)[i] == c);
        }
    }
}

/// Whatever is joined to the root by edges of the lineage, in either direction,
/// is found by the search from the root, over a way that is no longer.
pub proof fn joined_nodes_are_found(a: AppModel, root: Text, v: Text, m: nat)
    requires
        a.dag.valid(),
        a.selected_id() == Some(root),
        a.dag.nodes.contains_key(root),
        walk(undirected(a.subgraph().edges), root, v, m),
        v != root,
    ensures
        reached_from(a.subgraph(), root).contains_key(v),
        traced(reached_from(a.subgraph(), root), v, root, a.subgraph().nodes.len()).len() <= m + 1,
{
    let sg = a.subgraph();
    let adj = undirected(sg.edges);
    let ids = view_ids(a.dag, root, a.view.upstream, a.view.downstream, a.view.depth);
    let n = sg.nodes.len();
    subgraph_members(a.dag, root, a.view.upstream, a.view.downstream, a.view.depth);
    assert(stays_in(adj, ids)) by {
        assert forall|x: Text, y: Text| #[trigger] linked(adj, x, y) implies ids.contains(y) by {
            undirected_links(sg.edges, x, y);
            let e = if sg.edges.contains((x, y)) {
                (x, y)
            } else {
                (y, x)
            };
            let k = sg.edges.index_of(e);
            assert(sg.has(sg.edges[k].0) && sg.has(sg.edges[k].1));
        }
    }
    assert(ids.contains(root));
    assert(ids.finite()) by {
        ids_finite(a.dag, root, a.view.upstream, a.view.downstream, a.view.depth);
    }
    let d = some_distance(adj, root, v, m);
    distance_bound(adj, root, v, d, ids);
    let none = Map::<Text, Text>::empty();
    let front = seq![root];
    assert(level_inv(adj, none, front, root, 0)) by {
        assert forall|w: Text, e: nat| #[trigger] apart(adj, root, w, e) && e <= 0 implies known(none, root, w) && gets_home(
            none,
            w,
            root,
            e,
        ) by {
            walk_zero(adj, root, w);
        }
        assert forall|w: Text| #[trigger] front.contains(w) <==> apart(adj, root, w, 0) by {
            if front.contains(w) {
                walk_start(adj, root);
            }
            if apart(adj, root, w, 0) {
                walk_zero(adj, root, w);
                assert(front[0] == w);
            }
        }
    }
    search_finds(adj, none, front, root, n, 0, v, d);
    traced_length(reached_from(sg, root), v, root, d, n);
}

proof fn ids_finite(d: DagModel, selected: Text, upstream: bool, downstream: bool, depth: Option<usize>)
    requires
        d.valid(),
    ensures
        view_ids(d, selected, upstream, downstream, depth).finite(),
{
    crate::graph::reach_stays(d.parents, selected, depth, d.nodes.dom());
    crate::graph::reach_stays(d.children, selected, depth, d.nodes.dom());
    let ids = view_ids(d, selected, upstream, downstream, depth);
    assert(ids.subset_of(d.nodes.dom().insert(selected)));
    vstd::set_lib::lemma_set_subset_finite(d.nodes.dom().insert(selected), ids);
}

/// Whatever can be reached within a limit, the stops on the way can be too, so
/// the way lies within the lineage.
proof fn way_within(a: AppModel, root: Text, v: Text, n: nat, up: bool)
    requires
        a.dag.valid(),
        a.selected_id() == Some(root),
        a.dag.nodes.contains_key(root),
        within(n, a.view.depth),
        up ==> a.view.upstream && walk(a.dag.parents, root, v, n),
        !up ==> a.view.downstream && walk(a.dag.children, root, v, n),
    ensures
        walk(undirected(a.subgraph().edges), root, v, n),
        view_ids(a.dag, root, a.view.upstream, a.view.downstream, a.view.depth).contains(v),
    decreases n,
{
    let sg = a.subgraph();
    let adj = undirected(sg.edges);
    let ids = view_ids(a.dag, root, a.view.upstream, a.view.downstream, a.view.depth);
    let side = if up {
        a.dag.parents
    } else {
        a.dag.children
    };
    if n == 0 {
        walk_zero(side, root, v);
        walk_start(adj, root);
    } else {
        if v != root {
            assert(reach(side, root, a.view.depth).contains(v));
        }
        assert(ids.contains(v));
        let u = walk_last(side, root, v, n);
        way_within(a, root, u, (n - 1) as nat, up);
        subgraph_members(a.dag, root, a.view.upstream, a.view.downstream, a.view.depth);
        let e = if up {
            (v, u)
        } else {
            (u, v)
        };
        assert(depends(a.dag, e.0, e.1));
        assert(sg.edges.contains(e));
        links_undirected(sg.edges, u, v);
        walk_extend(adj, root, u, v, (n - 1) as nat);
    }
}

/// Wherever the cursor stands off the root, there is a path to highlight.
pub proof fn every_cursor_has_a_path(a: AppModel)
    requires
        a.dag.valid(),
        a.selected_id() is Some,
        a.dag.nodes.contains_key(a.selected_id()->0),
        a.cursor_id() != a.selected_id(),
    ensures
        a.path().len() >= 2,
        a.path()[0] == a.cursor_id()->0,
        a.path().last() == a.selected_id()->0,
{
    let root = a.selected_id()->0;
    let v = a.cursor_id()->0;
    subgraph_members(a.dag, root, a.view.upstream, a.view.downstream, a.view.depth);
    assert(a.subgraph().has(v));
    let up = a.view.upstream && reach(a.dag.parents, root, a.view.depth).contains(v);
    let side = if up {
        a.dag.parents
    } else {
        a.dag.children
    };
    assert(reach(side, root, a.view.depth).contains(v));
    let n = choose|n: nat| n >= 1 && within(n, a.view.depth) && #[trigger] walk(side, root, v, n);
    way_within(a, root, v, n, up);
    joined_nodes_are_found(a, root, v, n);
    super::path::path_joins_root_and_cursor(a);
}

/// No way along the edges of the lineage, in either direction, is shorter than
/// the path that is highlighted.
pub proof fn path_is_shortest(a: AppModel, way: Seq<Text>)
    requires
        a.dag.valid(),
        a.selected_id() is Some,
        a.dag.nodes.contains_key(a.selected_id()->0),
        a.path().len() > 0,
        way.len() > 0,
        way[0] == a.selected_id()->0,
        Some(way.last()) == a.cursor_id(),
        forall|i: int| 0 <= i < way.len() - 1 ==> joined_by(a.subgraph().edges, #[trigger] way[i], way[i + 1]),
    ensures
        a.path().len() <= way.len(),
{
    let sg = a.subgraph();
    let adj = undirected(sg.edges);
    let root = a.selected_id()->0;
    assert(is_path(adj, way)) by {
        assert forall|i: int| 0 <= i < way.len() - 1 implies linked(adj, #[trigger] way[i], way[i + 1]) by {
            assert(joined_by(sg.edges, way[i], way[i + 1]));
            links_undirected(sg.edges, way[i], way[i + 1]);
        }
    }
    let m = (way.len() - 1) as nat;
    assert(walk(adj, root, way.last(), m)) by {
        reveal(walk);
    }
    joined_nodes_are_found(a, root, way.last(), m);
}

} // verus!
