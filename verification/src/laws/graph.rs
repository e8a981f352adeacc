//! What holds of every graph and of everything that is reached in it.

use vstd::prelude::*;

use crate::dag::{dag_of, dag_of_valid, kept, subgraph_members, subgraph_of, view_ids, DagModel};
use crate::graph::{is_path, linked, reach, walk, walk_join, within, Adjacency};
use crate::manifest::RawManifestModel;
use crate::text::Text;

verus! {

/// Tests, operations and whatever else is not kept are neither nodes of the
/// graph nor named by any adjacency list, so no walk can pass through them.
pub proof fn excluded_nodes_stay_out(m: RawManifestModel, uid: Text, other: Text)
    requires
        m.nodes.dom().finite(),
        m.sources.dom().finite(),
        m.exposures.dom().finite(),
        !kept(m).contains(uid),
    ensures
        !dag_of(m).nodes.contains_key(uid),
        !linked(dag_of(m).parents, other, uid),
        !linked(dag_of(m).children, other, uid),
        !linked(dag_of(m).parents, uid, other),
        !linked(dag_of(m).children, uid, other),
{
    dag_of_valid(m);
    let d = dag_of(m);
    assert(d.nodes.dom() =~= kept(m));
    assert(!d.parents.contains_key(uid));
    assert(!d.children.contains_key(uid));
}

/// A node is never among its own ancestors or descendants, not even on a cycle.
pub proof fn start_is_left_out(adj: Adjacency, start: Text, depth: Option<usize>)
    ensures
        !reach(adj, start, depth).contains(start),
{
}

/// More hops reach at least as much, and no limit reaches the most.
pub proof fn deeper_reaches_more(adj: Adjacency, start: Text, d: usize, e: usize)
    requires
        d <= e,
    ensures
        reach(adj, start, Some(d)).subset_of(reach(adj, start, Some(e))),
        reach(adj, start, Some(e)).subset_of(reach(adj, start, None)),
{
    assert forall|v: Text| reach(adj, start, Some(d)).contains(v) implies reach(adj, start, Some(e)).contains(v) by {
        let n = choose|n: nat| n >= 1 && within(n, Some(d)) && #[trigger] walk(adj, start, v, n);
        assert(n >= 1 && within(n, Some(e)) && walk(adj, start, v, n));
    }
    assert forall|v: Text| reach(adj, start, Some(e)).contains(v) implies reach(adj, start, None).contains(v) by {
        let n = choose|n: nat| n >= 1 && within(n, Some(e)) && #[trigger] walk(adj, start, v, n);
        assert(n >= 1 && within(n, None) && walk(adj, start, v, n));
    }
}

/// What is reached from something reached is reached itself.
pub proof fn reach_is_transitive(adj: Adjacency, start: Text, via: Text, end: Text)
    requires
        reach(adj, start, None).contains(via),
        reach(adj, via, None).contains(end),
        end != start,
    ensures
        reach(adj, start, None).contains(end),
{
    let n = choose|n: nat| n >= 1 && within(n, None) && #[trigger] walk(adj, start, via, n);
    let m = choose|m: nat| m >= 1 && within(m, None) && #[trigger] walk(adj, via, end, m);
    walk_join(adj, start, via, end, n, m);
    assert(n + m >= 1 && within(n + m, None) && walk(adj, start, end, n + m));
}

/// A chain of recorded neighbours from one id to another.
pub open spec fn leads_to(adj: Adjacency, p: Seq<Text>, from: Text, to: Text) -> bool {
    &&& p.len() > 0
    &&& p[0] == from
    &&& p[p.len() - 1] == to
    &&& forall|i: int| 0 <= i < p.len() - 1 ==> #[trigger] adj.contains_key(p[i]) && adj[p[i]].contains(p[i + 1])
}

/// What is reached is exactly what a chain of neighbours leads to that has no
/// more hops than the depth allows, the start left out.
pub proof fn reach_is_by_chains(adj: Adjacency, start: Text, depth: Option<usize>, v: Text)
    ensures
        reach(adj, start, depth).contains(v) <==> v != start && exists|p: Seq<Text>| #[trigger]
            leads_to(adj, p, start, v) && (depth matches Some(k) ==> p.len() - 1 <= k),
{
    reveal(walk);
    if reach(adj, start, depth).contains(v) {
        let n = choose|n: nat| n >= 1 && within(n, depth) && #[trigger] walk(adj, start, v, n);
        let p = choose|p: Seq<Text>| #[trigger] is_path(adj, p) && p.len() == n + 1 && p.first() == start && p.last() == v;
        assert forall|i: int| 0 <= i < p.len() - 1 implies #[trigger] adj.contains_key(p[i]) && adj[p[i]].contains(p[i + 1]) by {
            assert(linked(adj, p[i], p[i + 1]));
        }
        assert(leads_to(adj, p, start, v));
    }
    if v != start && exists|p: Seq<Text>| #[trigger] leads_to(adj, p, start, v) && (depth matches Some(k) ==> p.len() - 1 <= k) {
        let p = choose|p: Seq<Text>| #[trigger] leads_to(adj, p, start, v) && (depth matches Some(k) ==> p.len() - 1 <= k);
        assert forall|i: int| 0 <= i < p.len() - 1 implies linked(adj, #[trigger] p[i], p[i + 1]) by {
            assert(adj.contains_key(p[i]));
        }
        assert(is_path(adj, p));
        let n = (p.len() - 1) as nat;
        assert(n >= 1) by {
            if p.len() == 1 {
                assert(p[0] == v);
            }
        }
        assert(within(n, depth));
        assert(walk(adj, start, v, n));
    }
}

/// A lineage has the selected node and whatever a chain of parents or children
/// leads to, on the sides and up to the depth of the view; its edges are all
/// pairs of a node and its child among them.
pub proof fn lineage_is_what_chains_reach(d: DagModel, u: Text, up: bool, down: bool, depth: Option<usize>, v: Text, c: Text)
    requires
        d.valid(),
        d.nodes.contains_key(u),
    ensures
        ({
            let sg = subgraph_of(d, u, up, down, depth);
            &&& sg.selected == u
            &&& sg.has(v) <==> v == u || (up && exists|p: Seq<Text>| #[trigger]
                leads_to(d.parents, p, u, v) && (depth matches Some(k) ==> p.len() - 1 <= k)) || (down && exists|p: Seq<Text>| #[trigger]
                leads_to(d.children, p, u, v) && (depth matches Some(k) ==> p.len() - 1 <= k))
            &&& sg.edges.contains((v, c)) <==> sg.has(v) && sg.has(c) && (linked(d.children, v, c) || linked(d.parents, c, v))
        }),
{
    let sg = subgraph_of(d, u, up, down, depth);
    subgraph_members(d, u, up, down, depth);
    reach_is_by_chains(d.parents, u, depth, v);
    reach_is_by_chains(d.children, u, depth, v);
    assert(sg.has(v) <==> view_ids(d, u, up, down, depth).contains(v));
    assert(sg.has(c) <==> view_ids(d, u, up, down, depth).contains(c));
}

} // verus!
