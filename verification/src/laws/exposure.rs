//! Exposures and the edges that the graph has from two places.

use vstd::prelude::*;

use crate::dag::{appended_dependants, appended_new, dag_of, dag_of_valid, has_kept_dep, kept, pruned};
use crate::graph::{linked, neighbours, reach, walk, walk_first, Adjacency};
use crate::manifest::{RawExposureModel, RawManifestModel};
use crate::sorted::{listing, listing_exists};
use crate::text::Text;

verus! {

proof fn pruned_links(adj: Adjacency, keep: Set<Text>, u: Text, x: Text)
    ensures
        linked(pruned(adj, keep), u, x) <==> keep.contains(u) && keep.contains(x) && linked(adj, u, x),
{
    if adj.contains_key(u) {
        appended_new_holds(Seq::empty(), adj[u], keep, x);
    }
}

proof fn appended_new_holds(base: Seq<Text>, xs: Seq<Text>, keep: Set<Text>, x: Text)
    ensures
        appended_new(base, xs, keep).contains(x) <==> base.contains(x) || (xs.contains(x) && keep.contains(x)),
    decreases xs.len(),
{
    if xs.len() > 0 {
        let rest = xs.drop_last();
        let last = xs.last();
        appended_new_holds(base, rest, keep, x);
        appended_new_holds(base, rest, keep, last);
        let r = appended_new(base, rest, keep);
        assert(xs =~= rest.push(last));
        pushed_holds(rest, last, x);
        pushed_holds(r, last, x);
    }
}

proof fn pushed_holds(s: Seq<Text>, last: Text, x: Text)
    ensures
        s.push(last).contains(x) <==> s.contains(x) || x == last,
{
    let t = s.push(last);
    if s.contains(x) {
        assert(t[s.index_of(x)] == x);
    }
    assert(t[s.len() as int] == last);
    if t.contains(x) && x != last {
        assert(s[t.index_of(x)] == x);
    }
}

proof fn appended_dependants_holds(base: Seq<Text>, es: Seq<Text>, exposures: Map<Text, RawExposureModel>, dep: Text, x: Text)
    ensures
        appended_dependants(base, es, exposures, dep).contains(x) <==> base.contains(x) || (es.contains(x)
            && exposures[x].depends_on.contains(dep)),
    decreases es.len(),
{
    if es.len() > 0 {
        let rest = es.drop_last();
        let last = es.last();
        appended_dependants_holds(base, rest, exposures, dep, x);
        appended_dependants_holds(base, rest, exposures, dep, last);
        let r = appended_dependants(base, rest, exposures, dep);
        assert(es =~= rest.push(last));
        pushed_holds(rest, last, x);
        pushed_holds(r, last, x);
    }
}

/// Where the parents of a node come from: the manifest's parent map, and for an
/// exposure also what it depends on itself. Either place is enough, and both
/// ends have to be kept.
pub proof fn parents_come_from(m: RawManifestModel, u: Text, p: Text)
    ensures
        linked(dag_of(m).parents, u, p) <==> kept(m).contains(u) && kept(m).contains(p) && (linked(m.parent_map, u, p) || (
        m.exposures.contains_key(u) && m.exposures[u].depends_on.contains(p))),
{
    let keep = kept(m);
    let base = pruned(m.parent_map, keep);
    pruned_links(m.parent_map, keep, u, p);
    if m.exposures.contains_key(u) {
        let e = m.exposures[u];
        appended_new_holds(neighbours(base, u), e.depends_on, keep, p);
        if e.depends_on.contains(p) && keep.contains(p) {
            assert(has_kept_dep(e, keep));
        }
    }
}

/// Where the children of a node come from: the manifest's child map, and every
/// exposure that depends on the node.
pub proof fn children_come_from(m: RawManifestModel, u: Text, c: Text)
    requires
        m.exposures.dom().finite(),
    ensures
        linked(dag_of(m).children, u, c) <==> kept(m).contains(u) && kept(m).contains(c) && (linked(m.child_map, u, c) || (
        m.exposures.contains_key(c) && m.exposures[c].depends_on.contains(u))),
{
    let keep = kept(m);
    let base = pruned(m.child_map, keep);
    pruned_links(m.child_map, keep, u, c);
    listing_exists(m.exposures.dom());
    appended_dependants_holds(neighbours(base, u), listing(m.exposures.dom()), m.exposures, u, c);
}

/// Whatever the manifest records twice, in one list or in two places, counts
/// once: no list of the graph repeats a node, and the counts of a node are the
/// numbers of its different parents and children.
pub proof fn edges_count_once(m: RawManifestModel, u: Text)
    requires
        m.nodes.dom().finite(),
        m.sources.dom().finite(),
        m.exposures.dom().finite(),
    ensures
        neighbours(dag_of(m).parents, u).no_duplicates(),
        neighbours(dag_of(m).children, u).no_duplicates(),
        kept(m).contains(u) ==> dag_of(m).nodes[u].direct_up == neighbours(dag_of(m).parents, u).to_set().len(),
        kept(m).contains(u) ==> dag_of(m).nodes[u].direct_down == neighbours(dag_of(m).children, u).to_set().len(),
{
    let d = dag_of(m);
    dag_of_valid(m);
    neighbours(d.parents, u).unique_seq_to_set();
    neighbours(d.children, u).unique_seq_to_set();
    if kept(m).contains(u) {
        assert(d.nodes.contains_key(u));
    }
}

/// An exposure ends the lineage: nothing is downstream of it, unless the
/// manifest's child map lists something there or another exposure depends on
/// it.
pub proof fn exposures_end_the_lineage(m: RawManifestModel, e: Text)
    requires
        m.exposures.dom().finite(),
        m.exposures.contains_key(e),
        forall|c: Text| kept(m).contains(c) ==> !#[trigger] linked(m.child_map, e, c),
        forall|x: Text| m.exposures.contains_key(x) ==> !(#[trigger] m.exposures[x]).depends_on.contains(e),
    ensures
        dag_of(m).nodes[e].direct_down == 0,
        reach(dag_of(m).children, e, None) == Set::<Text>::empty(),
{
    let d = dag_of(m);
    let down = neighbours(d.children, e);
    assert forall|c: Text| !#[trigger] linked(d.children, e, c) by {
        children_come_from(m, e, c);
    }
    if down.len() > 0 {
        assert(linked(d.children, e, down[0])) by {
            assert(down.contains(down[0]));
        }
    }
    assert forall|v: Text| !#[trigger] reach(d.children, e, None).contains(v) by {
        if reach(d.children, e, None).contains(v) {
            let n = choose|n: nat| n >= 1 && crate::graph::within(n, None) && #[trigger] walk(d.children, e, v, n);
            let c = walk_first(d.children, e, v, n);
            assert(linked(d.children, e, c));
        }
    }
    assert(reach(d.children, e, None) =~= Set::<Text>::empty());
}

} // verus!
