//! What the path from the root to the cursor is.

use vstd::prelude::*;

use crate::app::lineage::{expanded, looked_at, reached_from, searched, traced, undirected, Found};
use crate::app::AppModel;
use crate::dag::at;
use crate::graph::{linked, neighbours, Adjacency};
use crate::text::Text;

verus! {

/// Two nodes are joined by an edge, in one direction or the other.
pub open spec fn joined_by(edges: Seq<(Text, Text)>, x: Text, y: Text) -> bool {
    edges.contains((x, y)) || edges.contains((y, x))
}

pub(crate) proof fn undirected_links(edges: Seq<(Text, Text)>, x: Text, y: Text)
    requires
        linked(undirected(edges), x, y),
    ensures
        joined_by(edges, x, y),
    decreases edges.len(),
{
    if edges.len() > 0 {
        let rest = edges.drop_last();
        let r = undirected(rest);
        let (p, c) = edges.last();
        let s = r.insert(p, at(r, p).push(c));
        let t = s.insert(c, at(s, c).push(p));
        assert(edges[edges.len() - 1] == (p, c));
        assert(edges.contains((p, c)));
        if linked(r, x, y) {
            undirected_links(rest, x, y);
            assert forall|e: (Text, Text)| rest.contains(e) implies edges.contains(e) by {
                let k = rest.index_of(e);
                assert(edges[k] == e);
            }
        } else {
            let k = neighbours(t, x).index_of(y);
            if x == c {
                let l = at(s, c);
                if k < l.len() {
                    assert(l[k] == y);
                    if p == c {
                        let q = at(r, p);
                        if k < q.len() {
                            assert(q[k] == y);
                            assert(linked(r, x, y));
                        }
                    } else {
                        assert(at(r, c)[k] == y);
                        assert(linked(r, x, y));
                    }
                }
            } else if x == p {
                let q = at(r, p);
                if k < q.len() {
                    assert(q[k] == y);
                    assert(linked(r, x, y));
                }
            } else {
                assert(linked(r, x, y));
            }
        }
    }
}

/// Following the predecessors from `v` leads to the root in at most `n` hops.
pub(crate) open spec fn gets_home(prev: Map<Text, Text>, v: Text, root: Text, n: nat) -> bool
    decreases n,
{
    v == root || (n > 0 && prev.contains_key(v) && gets_home(prev, prev[v], root, (n - 1) as nat))
}

pub(crate) proof fn gets_home_grows(prev: Map<Text, Text>, more: Map<Text, Text>, v: Text, root: Text, n: nat, m: nat)
    requires
        gets_home(prev, v, root, n),
        n <= m,
        prev.submap_of(more),
    ensures
        gets_home(more, v, root, m),
    decreases n,
{
    if v != root {
        assert(prev.dom().contains(v));
        gets_home_grows(prev, more, prev[v], root, (n - 1) as nat, (m - 1) as nat);
    }
}

/// What the search knows after `k` levels.
spec fn found_inv(adj: Adjacency, prev: Map<Text, Text>, front: Seq<Text>, root: Text, k: nat) -> bool {
    &&& forall|v: Text| #[trigger] prev.contains_key(v) ==> linked(adj, prev[v], v) && gets_home(prev, v, root, k)
    &&& forall|v: Text| #[trigger] front.contains(v) ==> gets_home(prev, v, root, k)
}

proof fn looked_at_inv(adj: Adjacency, u: Text, ns: Seq<Text>, f: Found, root: Text, k: nat)
    requires
        forall|v: Text| #[trigger] f.prev.contains_key(v) ==> linked(adj, f.prev[v], v) && gets_home(f.prev, v, root, k + 1),
        forall|v: Text| #[trigger] f.next.contains(v) ==> gets_home(f.prev, v, root, k + 1),
        gets_home(f.prev, u, root, k),
        forall|i: int| 0 <= i < ns.len() ==> linked(adj, u, #[trigger] ns[i]),
    ensures
        ({
            let r = looked_at(u, ns, f, root);
            &&& f.prev.submap_of(r.prev)
            &&& forall|v: Text| #[trigger] r.prev.contains_key(v) ==> linked(adj, r.prev[v], v) && gets_home(r.prev, v, root, k + 1)
            &&& forall|v: Text| #[trigger] r.next.contains(v) ==> gets_home(r.prev, v, root, k + 1)
        }),
    decreases ns.len(),
{
    if ns.len() > 0 {
        let rest = ns.drop_last();
        looked_at_inv(adj, u, rest, f, root, k);
        let r = looked_at(u, rest, f, root);
        let v = ns.last();
        assert(linked(adj, u, ns[ns.len() - 1]));
        if !(v == root || r.prev.contains_key(v)) {
            let p = r.prev.insert(v, u);
            assert(r.prev.submap_of(p));
            gets_home_grows(f.prev, p, u, root, k, k);
            assert(gets_home(p, v, root, k + 1));
            assert forall|w: Text| #[trigger] p.contains_key(w) implies linked(adj, p[w], w) && gets_home(p, w, root, k + 1) by {
                if w != v {
                    assert(r.prev.contains_key(w));
                    gets_home_grows(r.prev, p, w, root, k + 1, k + 1);
                }
            }
            let nx = r.next.push(v);
            assert forall|w: Text| #[trigger] nx.contains(w) implies gets_home(p, w, root, k + 1) by {
                if w != v {
                    let j = nx.index_of(w);
                    assert(r.next[j] == w);
                    assert(r.next.contains(w));
                    gets_home_grows(r.prev, p, w, root, k + 1, k + 1);
                }
            }
            assert(f.prev.submap_of(p));
        }
    }
}

proof fn expanded_inv(adj: Adjacency, front: Seq<Text>, prev: Map<Text, Text>, root: Text, k: nat)
    requires
        found_inv(adj, prev, front, root, k),
    ensures
        ({
            let r = expanded(adj, front, prev, root);
            &&& prev.submap_of(r.prev)
            &&& found_inv(adj, r.prev, r.next, root, k + 1)
        }),
    decreases front.len(),
{
    if front.len() > 0 {
        let rest = front.drop_last();
        assert forall|v: Text| #[trigger] rest.contains(v) implies gets_home(prev, v, root, k) by {
            let j = rest.index_of(v);
            assert(front[j] == v);
            assert(front.contains(v));
        }
        expanded_inv(adj, rest, prev, root, k);
        let r = expanded(adj, rest, prev, root);
        let u = front.last();
        assert(front[front.len() - 1] == u);
        assert(front.contains(u));
        gets_home_grows(prev, r.prev, u, root, k, k);
        let ns = neighbours(adj, u);
        assert forall|i: int| 0 <= i < ns.len() implies linked(adj, u, #[trigger] ns[i]) by {
            assert(ns.contains(ns[i]));
        }
        looked_at_inv(adj, u, ns, r, root, k);
        let t = expanded(adj, front, prev, root);
        assert(t == looked_at(u, ns, r, root));
        assert(prev.submap_of(t.prev)) by {
            assert forall|v: Text| prev.dom().contains(v) implies t.prev.dom().contains(v) && t.prev[v] == prev[v] by {
                assert(r.prev.dom().contains(v) && r.prev[v] == prev[v]);
            }
        }
        assert(found_inv(adj, t.prev, t.next, root, k + 1));
    } else {
        let r = expanded(adj, front, prev, root);
        assert forall|v: Text| #[trigger] r.prev.contains_key(v) implies gets_home(r.prev, v, root, k + 1) by {
            gets_home_grows(prev, prev, v, root, k, k + 1);
        }
    }
}

proof fn searched_inv(adj: Adjacency, front: Seq<Text>, prev: Map<Text, Text>, root: Text, n: nat, k: nat)
    requires
        found_inv(adj, prev, front, root, k),
    ensures
        ({
            let r = searched(adj, front, prev, root, n);
            forall|v: Text| #[trigger] r.contains_key(v) ==> linked(adj, r[v], v) && gets_home(r, v, root, k + n)
        }),
    decreases n,
{
    if n > 0 && front.len() > 0 {
        expanded_inv(adj, front, prev, root, k);
        let f = expanded(adj, front, prev, root);
        searched_inv(adj, f.next, f.prev, root, (n - 1) as nat, k + 1);
        let r = searched(adj, front, prev, root, n);
        assert(r == searched(adj, f.next, f.prev, root, (n - 1) as nat));
        let m: nat = (k + 1) + ((n - 1) as nat);
        assert(m == k + n);
        assert forall|v: Text| #[trigger] r.contains_key(v) implies linked(adj, r[v], v) && gets_home(r, v, root, k + n) by {
            assert(gets_home(r, v, root, m));
        }
    } else {
        assert(searched(adj, front, prev, root, n) == prev);
        assert forall|v: Text| #[trigger] prev.contains_key(v) implies linked(adj, prev[v], v) && gets_home(prev, v, root, k + n) by {
            gets_home_grows(prev, prev, v, root, k, k + n);
        }
    }
}

proof fn traced_path(edges: Seq<(Text, Text)>, prev: Map<Text, Text>, v: Text, root: Text, n: nat)
    requires
        gets_home(prev, v, root, n),
        forall|w: Text| #[trigger] prev.contains_key(w) ==> joined_by(edges, prev[w], w),
    ensures
        ({
            let t = traced(prev, v, root, n);
            &&& t.len() >= 1
            &&& t[0] == v
            &&& t.last() == root
            &&& forall|i: int| 0 <= i < t.len() - 1 ==> joined_by(edges, #[trigger] t[i], t[i + 1])
        }),
    decreases n,
{
    if v != root {
        let p = prev[v];
        traced_path(edges, prev, p, root, (n - 1) as nat);
        let r = traced(prev, p, root, (n - 1) as nat);
        let t = traced(prev, v, root, n);
        assert(t =~= seq![v] + r);
        assert forall|i: int| 0 <= i < t.len() - 1 implies joined_by(edges, #[trigger] t[i], t[i + 1]) by {
            if i == 0 {
                assert(t[1] == r[0]);
            } else {
                assert(t[i] == r[i - 1] && t[i + 1] == r[i]);
                assert(joined_by(edges, r[i - 1], r[i - 1 + 1]));
            }
        }
    }
}

/// A path leads from the cursor to the root, each two neighbours on it are
/// joined by an edge of the lineage, and the edges that are highlighted for it
/// are edges of the lineage.
pub proof fn path_joins_root_and_cursor(a: AppModel)
    requires
        a.path().len() > 0,
    ensures
        a.cursor_id() == Some(a.path()[0]),
        a.selected_id() == Some(a.path().last()),
        a.path()[0] != a.path().last(),
        forall|i: int| 0 <= i < a.path().len() - 1 ==> joined_by(a.subgraph().edges, #[trigger] a.path()[i], a.path()[i + 1]),
        forall|i: int| 0 <= i < a.path_edges().len() ==> a.subgraph().edges.contains(#[trigger] a.path_edges()[i]),
        a.path_edges().len() == a.path().len() - 1,
{
    let root = a.selected_id()->0;
    let cursor = a.cursor_id()->0;
    let sg = a.subgraph();
    let adj = undirected(sg.edges);
    let n = sg.nodes.len();
    let none = Map::<Text, Text>::empty();
    assert(found_inv(adj, none, seq![root], root, 0)) by {
        assert forall|v: Text| #[trigger] seq![root].contains(v) implies gets_home(none, v, root, 0) by {}
    }
    searched_inv(adj, seq![root], none, root, n, 0);
    let prev = reached_from(sg, root);
    assert forall|w: Text| #[trigger] prev.contains_key(w) implies joined_by(sg.edges, prev[w], w) by {
        undirected_links(sg.edges, prev[w], w);
    }
    traced_path(sg.edges, prev, cursor, root, n);
    let path = a.path();
    assert forall|i: int| 0 <= i < a.path_edges().len() implies sg.edges.contains(#[trigger] a.path_edges()[i]) by {
        assert(joined_by(sg.edges, path[i], path[i + 1]));
    }
}

/// With the cursor at home there is no path, and nothing is highlighted.
pub proof fn no_path_at_home(a: AppModel)
    requires
        a.cursor_id() == a.selected_id(),
    ensures
        a.path().len() == 0,
        a.path_edges().len() == 0,
{
}

} // verus!
