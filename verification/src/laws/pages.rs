//! The diagrams of the documentation and those that are copied.

use vstd::prelude::*;

use crate::app::export::{mermaid_body, mermaid_click, mermaid_clicks, mermaid_ids_of, mermaid_text, named_ids};
use crate::app::{full_view, AppModel};
use crate::dag::{subgraph_members, subgraph_of, DagModel, NodeModel};
use crate::docs::neighbours_of;
use crate::graph::{
    linked, neighbours, reach, reach_stays, walk, walk_extend, walk_last, walk_start, walk_zero, within, Adjacency,
};
use crate::sorted::listing_exists;
use crate::text::{rendered, Text};

verus! {

proof fn no_clicks(ns: Seq<NodeModel>, ids: Map<Text, Text>)
    ensures
        rendered(ns, |n: NodeModel| mermaid_click(n, ids, Map::empty())) == Seq::<char>::empty(),
    decreases ns.len(),
{
    if ns.len() > 0 {
        no_clicks(ns.drop_last(), ids);
        assert(rendered(ns, |n: NodeModel| mermaid_click(n, ids, Map::empty())) =~= Seq::<char>::empty());
    }
}

/// The diagram on a node's page is the one that is copied for the node with
/// its whole lineage in view, but for the lines that link to pages: both have
/// the same nodes and edges in the same lines, and the copied one has no links.
pub proof fn page_diagram_is_the_copied_one(a: AppModel, links: Map<Text, Text>)
    requires
        a.dag.valid(),
        a.view == full_view(),
        a.selected_id() is Some,
        a.dag.nodes.contains_key(a.selected_id()->0),
    ensures
        ({
            let sg = subgraph_of(a.dag, a.selected_id()->0, true, true, None);
            &&& a.mermaid() == Some(mermaid_body(sg) + "```\n"@)
            &&& mermaid_text(sg, links) == mermaid_body(sg) + mermaid_clicks(sg, links) + "```\n"@
        }),
{
    let uid = a.selected_id()->0;
    let sg = subgraph_of(a.dag, uid, true, true, None);
    subgraph_members(a.dag, uid, true, true, None);
    assert(sg.has(uid));
    no_clicks(sg.nodes, mermaid_ids_of(named_ids(sg)));
    assert(mermaid_body(sg) + Seq::<char>::empty() =~= mermaid_body(sg));
    reveal(AppModel::mermaid);
}

proof fn one_hop(adj: Adjacency, u: Text, v: Text)
    ensures
        reach(adj, u, Some(1)).contains(v) <==> v != u && linked(adj, u, v),
{
    if v != u && linked(adj, u, v) {
        walk_start(adj, u);
        walk_extend(adj, u, u, v, 0);
        assert(1 >= 1 && within(1, Some(1usize)) && walk(adj, u, v, 1));
    }
    if reach(adj, u, Some(1)).contains(v) {
        let n = choose|n: nat| n >= 1 && within(n, Some(1usize)) && #[trigger] walk(adj, u, v, n);
        let m = walk_last(adj, u, v, n);
        walk_zero(adj, u, m);
    }
}

/// The lists of parents and children on a page hold exactly the node's
/// neighbours, and as many as the page counts above them. A node that is its
/// own neighbour is not listed.
pub proof fn pages_list_every_neighbour(d: DagModel, u: Text, upstream: bool)
    requires
        d.valid(),
        d.nodes.contains_key(u),
    ensures
        ({
            let adj = if upstream { d.parents } else { d.children };
            let listed = neighbours_of(d, u, upstream);
            &&& listed.no_duplicates()
            &&& forall|v: Text| #[trigger] listed.contains(v) <==> v != u && linked(adj, u, v)
            &&& !linked(adj, u, u) ==> listed.len() == if upstream { d.nodes[u].direct_up } else { d.nodes[u].direct_down }
        }),
{
    let adj = if upstream {
        d.parents
    } else {
        d.children
    };
    let near = reach(adj, u, Some(1));
    let listed = neighbours_of(d, u, upstream);
    reach_stays(adj, u, Some(1), d.nodes.dom());
    vstd::set_lib::lemma_set_subset_finite(d.nodes.dom(), near);
    listing_exists(near);
    assert forall|v: Text| #[trigger] listed.contains(v) <==> v != u && linked(adj, u, v) by {
        one_hop(adj, u, v);
    }
    let all_near = neighbours(adj, u);
    all_near.unique_seq_to_set();
    if !linked(adj, u, u) {
        assert(all_near.to_set() =~= near) by {
            assert forall|v: Text| all_near.to_set().contains(v) <==> near.contains(v) by {
                one_hop(adj, u, v);
            }
        }
    }
}

} // verus!
