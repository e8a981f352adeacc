//! What the diagrams and pages say, line by line.

use vstd::prelude::*;

use super::texts::{every_part_is_written, holds_text, holds_within};
use crate::app::analysis::{passes, passing, NodeTest};
use crate::app::export::{
    dot_diagram, dot_edge, dot_node, dot_text, kind_text, label_text, mermaid_click, mermaid_edge, mermaid_ids_of, mermaid_node, mermaid_text,
    named_ids,
};
use crate::dag::{edge_list, edge_list_members, subgraph_members, subgraph_of, ColumnModel, DagModel, NodeModel, SubgraphModel, TestModel};
use crate::docs::{
    cell, column_row, files_of, group_text, groups_of, index_key, index_order, index_row, index_table, leaf_models,
    link_line, linked_diagram, neighbours_of, page_links, page_text, part_of, test_row, whole, GroupModel,
};
use crate::graph::{linked, reach};
use crate::model_list::{in_order_rows, in_order_rows_sorted};
use crate::sorted::{filter_keeps, in_order, in_order_sorted, listing, listing_exists};
use crate::text::{decimal, rendered, Text};

verus! {

pub(crate) broadcast proof fn holds_in_sum(a: Text, b: Text, part: Text)
    ensures
        holds_text(a, part) || holds_text(b, part) ==> #[trigger] holds_text(a + b, part),
{
    let e = Seq::<char>::empty();
    if holds_text(a, part) {
        holds_within(a, e, b, part);
        assert(e + a + b =~= a + b);
    }
    if holds_text(b, part) {
        holds_within(b, a, e, part);
        assert(a + b + e =~= a + b);
    }
}

// ---- diagrams ----

/// Every edge of a subgraph has its line in the Mermaid and in the Graphviz
/// diagram, from the parent to the child.
pub proof fn diagrams_show_every_edge(sg: SubgraphModel, links: Map<Text, Text>, p: Text, c: Text)
    requires
        sg.edges.contains((p, c)),
    ensures
        ({
            let ids = mermaid_ids_of(named_ids(sg));
            &&& holds_text(mermaid_text(sg, links), "  "@ + ids[p] + " --> "@ + ids[c] + "\n"@)
            &&& holds_text(dot_diagram(sg), "  \""@ + dot_text(p) + "\" -> \""@ + dot_text(c) + "\";\n"@)
        }),
{
    broadcast use holds_in_sum;
    let ids = mermaid_ids_of(named_ids(sg));
    let k = sg.edges.index_of((p, c));
    every_part_is_written(sg.edges, |e: (Text, Text)| mermaid_edge(e, ids), k);
    every_part_is_written(sg.edges, |e: (Text, Text)| dot_edge(e), k);
}

/// Every node of a subgraph has its line in the Mermaid and in the Graphviz
/// diagram, with its name and kind; in the former the selected one is marked,
/// and a node with a page has a line that links to it.
pub proof fn diagrams_show_every_node(sg: SubgraphModel, links: Map<Text, Text>, k: int)
    requires
        0 <= k < sg.nodes.len(),
    ensures
        ({
            let n = sg.nodes[k];
            let id = mermaid_ids_of(named_ids(sg))[n.unique_id];
            let mark = if n.unique_id == sg.selected { " *"@ } else { ""@ };
            &&& holds_text(mermaid_text(sg, links), "  "@ + id + "[\""@ + label_text(n.name + " ("@ + kind_text(n) + ")"@ + mark) + "\"]\n"@)
            &&& links.contains_key(n.unique_id) ==> holds_text(
                mermaid_text(sg, links),
                "  click "@ + id + " \""@ + label_text(links[n.unique_id]) + "\"\n"@,
            )
            &&& holds_text(
                dot_diagram(sg),
                "  \""@ + dot_text(n.unique_id) + "\" [label=\""@ + dot_text(n.name) + "\\n("@ + dot_text(kind_text(n)) + ")\"];\n"@,
            )
        }),
{
    broadcast use holds_in_sum;
    let ids = mermaid_ids_of(named_ids(sg));
    every_part_is_written(sg.nodes, |n: NodeModel| mermaid_node(n, sg.selected, ids), k);
    every_part_is_written(sg.nodes, |n: NodeModel| mermaid_click(n, ids, links), k);
    every_part_is_written(sg.nodes, |n: NodeModel| dot_node(n), k);
}

/// Below a linked diagram every one of its nodes is listed, with a link to its
/// page where it has one.
pub proof fn legends_list_every_node(d: DagModel, sg: SubgraphModel, links: Map<Text, Text>, k: int)
    requires
        0 <= k < sg.nodes.len(),
        d.nodes.contains_key(sg.nodes[k].unique_id),
    ensures
        ({
            let u = sg.nodes[k].unique_id;
            holds_text(
                linked_diagram(d, sg, links),
                if links.contains_key(u) {
                    "- ["@ + d.nodes[u].name + "]("@ + links[u] + ")\n"@
                } else {
                    "- "@ + d.nodes[u].name + "\n"@
                },
            )
        }),
{
    broadcast use holds_in_sum;
    every_part_is_written(sg.nodes, |n: NodeModel| link_line(crate::docs::legend_name(d, n), n.unique_id, links), k);
}

// ---- the index ----

/// The subgraph of the whole graph has exactly the graph's nodes, and as its
/// edges exactly the pairs of a node and one of its children.
pub proof fn whole_graph_is_drawn(d: DagModel)
    requires
        d.valid(),
    ensures
        forall|u: Text| #[trigger] whole(d).has(u) <==> d.nodes.contains_key(u),
        forall|n: NodeModel| #[trigger] whole(d).nodes.contains(n) ==> d.nodes[n.unique_id] == n,
        whole(d).nodes.no_duplicates(),
        whole(d).nodes.len() == d.nodes.dom().len(),
        forall|p: Text, c: Text| #[trigger] whole(d).edges.contains((p, c)) <==> linked(d.children, p, c),
        whole(d).edges.no_duplicates(),
        whole(d).closed(),
{
    edge_list_members(d);
    listing_exists(d.nodes.dom());
    let l = listing(d.nodes.dom());
    let sg = whole(d);
    assert forall|i: int| 0 <= i < sg.nodes.len() implies (#[trigger] sg.nodes[i]).unique_id == l[i] && d.nodes.contains_key(l[i]) by {
        assert(l.contains(l[i]));
        assert(d.nodes.dom().contains(l[i]));
        assert(d.nodes.contains_key(l[i]));
    }
    assert forall|u: Text| #[trigger] sg.has(u) <==> d.nodes.contains_key(u) by {
        if d.nodes.contains_key(u) {
            assert(l.contains(u));
            let k = l.index_of(u);
            assert(sg.nodes[k].unique_id == u);
        }
    }
    assert forall|i: int| 0 <= i < sg.edges.len() implies sg.has((#[trigger] sg.edges[i]).0) && sg.has(sg.edges[i].1) by {
        let e = sg.edges[i];
        assert(sg.edges.contains(e));
        assert(linked(d.children, e.0, e.1));
    }
}

/// The README, the last of the written files, is the index of the documentation.
pub open spec fn readme(d: DagModel, project: Text, source: Text) -> Text {
    crate::docs::docs_of(d, project, source).last().1
}

proof fn whole_ids(d: DagModel)
    requires
        d.valid(),
    ensures
        named_ids(whole(d)) == d.nodes.dom(),
{
    whole_graph_is_drawn(d);
    let sg = whole(d);
    let ns = sg.nodes.map_values(|n: NodeModel| n.unique_id);
    let ps = sg.edges.map_values(|e: (Text, Text)| e.0);
    let cs = sg.edges.map_values(|e: (Text, Text)| e.1);
    assert forall|u: Text| #[trigger] named_ids(sg).contains(u) <==> d.nodes.dom().contains(u) by {
        if d.nodes.contains_key(u) {
            assert(sg.has(u));
            let k = choose|k: int| 0 <= k < sg.nodes.len() && (#[trigger] sg.nodes[k]).unique_id == u;
            assert(ns[k] == u);
            assert(ns.to_set().contains(u));
        }
        if ns.to_set().contains(u) {
            let k = ns.index_of(u);
            assert(ns[k] == sg.nodes[k].unique_id);
            assert(sg.has(u));
        }
        if ps.to_set().contains(u) {
            let k = ps.index_of(u);
            assert(ps[k] == sg.edges[k].0);
            assert(sg.has(u));
        }
        if cs.to_set().contains(u) {
            let k = cs.index_of(u);
            assert(cs[k] == sg.edges[k].1);
            assert(sg.has(u));
        }
    }
    assert(named_ids(sg) =~= d.nodes.dom());
}

/// The index of a project of fewer than 150 nodes draws every edge of the
/// graph.
pub proof fn index_draws_every_edge(d: DagModel, project: Text, source: Text, p: Text, c: Text)
    requires
        d.valid(),
        d.nodes.dom().len() < 150,
        linked(d.children, p, c),
    ensures
        ({
            let ids = mermaid_ids_of(d.nodes.dom());
            holds_text(readme(d, project, source), "  "@ + ids[p] + " --> "@ + ids[c] + "\n"@)
        }),
{
    broadcast use holds_in_sum;
    whole_graph_is_drawn(d);
    whole_ids(d);
    let files = files_of(d);
    assert(whole(d).edges.contains((p, c)));
    diagrams_show_every_edge(whole(d), files, p, c);
    assert(d.nodes.dom().len() > 0) by {
        assert(whole(d).has(p));
        assert(d.nodes.dom().contains(p));
    }
    let part = "  "@ + mermaid_ids_of(d.nodes.dom())[p] + " --> "@ + mermaid_ids_of(d.nodes.dom())[c] + "\n"@;
    assert(holds_text(linked_diagram(d, whole(d), files), part));
}

/// The index of a project of fewer than 150 nodes draws every node of the
/// graph, linked to its page.
pub proof fn index_draws_every_node(d: DagModel, project: Text, source: Text, u: Text)
    requires
        d.valid(),
        d.nodes.dom().len() < 150,
        d.nodes.contains_key(u),
    ensures
        ({
            let id = mermaid_ids_of(d.nodes.dom())[u];
            let n = d.nodes[u];
            let page = "  click "@ + id + " \""@ + label_text(files_of(d)[u]) + "\"\n"@;
            &&& u.len() > 0 ==> holds_text(
                readme(d, project, source),
                "  "@ + id + "[\""@ + label_text(n.name + " ("@ + kind_text(n) + ")"@ + ""@) + "\"]\n"@,
            )
            &&& holds_text(readme(d, project, source), page)
            &&& holds_text(readme(d, project, source), "- ["@ + n.name + "]("@ + files_of(d)[u] + ")\n"@)
        }),
{
    broadcast use holds_in_sum;
    whole_graph_is_drawn(d);
    whole_ids(d);
    let files = files_of(d);
    let sg = whole(d);
    assert(sg.has(u));
    let k = choose|k: int| 0 <= k < sg.nodes.len() && (#[trigger] sg.nodes[k]).unique_id == u;
    assert(sg.nodes.contains(sg.nodes[k]));
    super::escape::links_lead_to_pages(d, u);
    assert(files.contains_key(u));
    diagrams_show_every_node(sg, files, k);
    legends_list_every_node(d, sg, files, k);
    assert(d.nodes.dom().len() > 0) by {
        assert(d.nodes.dom().contains(u));
    }
    let id = mermaid_ids_of(d.nodes.dom())[u];
    let n = d.nodes[u];
    let page = "  click "@ + id + " \""@ + label_text(files[u]) + "\"\n"@;
    assert(holds_text(linked_diagram(d, sg, files), page));
    let line = "- ["@ + n.name + "]("@ + files[u] + ")\n"@;
    assert(holds_text(linked_diagram(d, sg, files), line));
    if u.len() > 0 {
        let node = "  "@ + id + "[\""@ + label_text(n.name + " ("@ + kind_text(n) + ")"@ + ""@) + "\"]\n"@;
        assert(u != sg.selected);
        assert(holds_text(linked_diagram(d, sg, files), node));
    }
}

/// A part of a large graph has the given nodes, and as its edges exactly the
/// pairs of a node and one of its children among them.
pub proof fn parts_have_their_edges(d: DagModel, ids: Seq<Text>, p: Text, c: Text)
    requires
        d.valid(),
    ensures
        part_of(d, ids).edges.contains((p, c)) <==> ids.contains(p) && ids.contains(c) && linked(d.children, p, c),
        part_of(d, ids).nodes.len() == ids.len(),
        forall|i: int| 0 <= i < ids.len() ==> #[trigger] part_of(d, ids).nodes[i] == d.nodes[ids[i]],
{
    edge_list_members(d);
    filter_keeps(edge_list(d), |e: (Text, Text)| ids.contains(e.0) && ids.contains(e.1), (p, c));
    assert(edge_list(d).contains((p, c)) <==> linked(d.children, p, c));
}

/// The index of a project of at least 150 nodes draws every edge between two
/// nodes of one part.
pub proof fn parts_draw_their_edges(d: DagModel, project: Text, source: Text, k: int, p: Text, c: Text)
    requires
        d.valid(),
        d.nodes.dom().len() >= 150,
        0 <= k < groups_of(d).len(),
        groups_of(d)[k].uids.contains(p),
        groups_of(d)[k].uids.contains(c),
        linked(d.children, p, c),
    ensures
        ({
            let ids = mermaid_ids_of(named_ids(part_of(d, groups_of(d)[k].uids)));
            holds_text(readme(d, project, source), "  "@ + ids[p] + " --> "@ + ids[c] + "\n"@)
        }),
{
    broadcast use holds_in_sum;
    let files = files_of(d);
    let g = groups_of(d)[k];
    let sg = part_of(d, g.uids);
    parts_have_their_edges(d, g.uids, p, c);
    diagrams_show_every_edge(sg, files, p, c);
    let ids = mermaid_ids_of(named_ids(sg));
    let part = "  "@ + ids[p] + " --> "@ + ids[c] + "\n"@;
    assert(holds_text(linked_diagram(d, sg, files), part));
    assert(holds_text(group_text(d, g, files), part));
    let f = |g: GroupModel| group_text(d, g, files);
    every_part_is_written(groups_of(d), f, k);
    part_of_part(rendered(groups_of(d), f), group_text(d, g, files), part);
}

pub(crate) proof fn part_of_part(s: Text, mid: Text, part: Text)
    requires
        holds_text(s, mid),
        holds_text(mid, part),
    ensures
        holds_text(s, part),
{
    let i = choose|i: int| 0 <= i && i + mid.len() <= s.len() && #[trigger] s.subrange(i, i + mid.len()) == mid;
    holds_within(mid, s.take(i), s.skip(i + mid.len()), part);
    assert(s.take(i) + mid + s.skip(i + mid.len()) =~= s);
}

/// The index has a row for every node: its name, resource type,
/// materialization or a dash, number of tests, and the link to its page.
pub proof fn index_has_every_row(d: DagModel, project: Text, source: Text, u: Text)
    requires
        d.valid(),
        d.nodes.contains_key(u),
    ensures
        ({
            let n = d.nodes[u];
            let mat = match n.materialized {
                Some(m) => m,
                None => "-"@,
            };
            holds_text(
                readme(d, project, source),
                "| "@ + cell(n.name) + " | "@ + cell(n.resource_type) + " | "@ + cell(mat) + " | "@ + decimal(n.test_count) + " | "@ + (
                "["@ + cell(n.name) + "]("@ + files_of(d)[u] + ")"@) + " |\n"@,
            )
        }),
{
    broadcast use holds_in_sum;
    let files = files_of(d);
    super::escape::links_lead_to_pages(d, u);
    assert(files.contains_key(u));
    listing_exists(d.nodes.dom());
    let l = listing(d.nodes.dom());
    let keys = l.map_values(|u: Text| index_key(d.nodes[u]));
    in_order_rows_sorted(keys);
    assert(l.contains(u));
    let j = l.index_of(u);
    assert(keys[j] == index_key(d.nodes[u]));
    assert(keys.contains(index_key(d.nodes[u])));
    let sorted = in_order_rows(keys);
    assert(sorted.contains(index_key(d.nodes[u])));
    let k = sorted.index_of(index_key(d.nodes[u]));
    assert(sorted[k] == index_key(d.nodes[u]));
    assert(index_order(d)[k] == d.nodes[u]);
    every_part_is_written(index_order(d), |n: NodeModel| index_row(n, files), k);
    assert(holds_text(index_table(d, files), index_row(d.nodes[u], files)));
}

/// The index lists, with a link to its page, every model that nothing depends
/// on.
pub proof fn index_lists_every_leaf(d: DagModel, project: Text, source: Text, u: Text)
    requires
        d.valid(),
        d.nodes.contains_key(u),
        d.nodes[u].resource_type == "model"@,
        d.nodes[u].direct_down == 0,
    ensures
        leaf_models(d).contains((d.nodes[u].name, u)),
        holds_text(readme(d, project, source), "- ["@ + d.nodes[u].name + "]("@ + files_of(d)[u] + ")\n"@),
{
    broadcast use holds_in_sum;
    let files = files_of(d);
    super::escape::links_lead_to_pages(d, u);
    assert(files.contains_key(u));
    listing_exists(d.nodes.dom());
    let all = listing(d.nodes.dom());
    assert(all.contains(u));
    filter_keeps(all, |u: Text| passes(d, NodeTest::Leaf, u), u);
    let ls = passing(d, NodeTest::Leaf);
    assert(ls.contains(u));
    let pairs = ls.map_values(|u: Text| (d.nodes[u].name, u));
    let j = ls.index_of(u);
    assert(pairs[j] == (d.nodes[u].name, u));
    assert(pairs.contains((d.nodes[u].name, u)));
    in_order_sorted::<(String, String)>(pairs);
    assert(in_order::<(String, String)>(pairs).to_multiset().contains((d.nodes[u].name, u))) by {
        pairs.to_multiset_ensures();
    }
    leaf_models(d).to_multiset_ensures();
    assert(leaf_models(d).contains((d.nodes[u].name, u)));
    let k = leaf_models(d).index_of((d.nodes[u].name, u));
    every_part_is_written(leaf_models(d), |p: (Text, Text)| link_line(p.0, p.1, files), k);
}

/// Only models that nothing depends on are listed as such.
pub proof fn listed_leaves_are_leaves(d: DagModel, name: Text, u: Text)
    requires
        d.valid(),
        leaf_models(d).contains((name, u)),
    ensures
        d.nodes.contains_key(u),
        d.nodes[u].name == name,
        d.nodes[u].resource_type == "model"@,
        d.nodes[u].direct_down == 0,
{
    listing_exists(d.nodes.dom());
    let all = listing(d.nodes.dom());
    let ls = passing(d, NodeTest::Leaf);
    let pairs = ls.map_values(|u: Text| (d.nodes[u].name, u));
    in_order_sorted::<(String, String)>(pairs);
    leaf_models(d).to_multiset_ensures();
    pairs.to_multiset_ensures();
    assert(pairs.contains((name, u)));
    let j = pairs.index_of((name, u));
    assert(pairs[j] == (d.nodes[ls[j]].name, ls[j]));
    assert(ls.contains(ls[j]));
    filter_keeps(all, |u: Text| passes(d, NodeTest::Leaf, u), ls[j]);
}

// ---- pages ----

/// The page of a node.
pub open spec fn page(d: DagModel, u: Text) -> Text {
    page_text(d, u, page_links(files_of(d)))
}

/// Every node has its page among the written files, at its path.
pub proof fn every_node_has_its_page(d: DagModel, project: Text, source: Text, u: Text)
    requires
        d.valid(),
        d.nodes.contains_key(u),
    ensures
        crate::docs::docs_of(d, project, source).contains((files_of(d)[u], page(d, u))),
        crate::docs::docs_of(d, project, source).len() == d.nodes.dom().len() + 1,
{
    listing_exists(d.nodes.dom());
    let l = listing(d.nodes.dom());
    assert(l.contains(u));
    let k = l.index_of(u);
    assert(crate::docs::docs_of(d, project, source)[k] == (files_of(d)[u], page(d, u)));
}

/// A page has a row for every column of its node: name, type and description.
pub proof fn pages_have_every_column(d: DagModel, u: Text, k: int)
    requires
        d.nodes.contains_key(u),
        d.details.contains_key(u),
        0 <= k < d.details[u].columns.len(),
    ensures
        ({
            let c = d.details[u].columns[k];
            let kind = match c.data_type {
                Some(t) => t,
                None => ""@,
            };
            let words = match c.description {
                Some(t) => t,
                None => ""@,
            };
            holds_text(page(d, u), "| "@ + cell(c.name) + " | "@ + cell(kind) + " | "@ + cell(words) + " |\n"@)
        }),
{
    broadcast use holds_in_sum;
    let columns = d.details[u].columns;
    every_part_is_written(columns, |c: ColumnModel| column_row(c), k);
    let row = column_row(columns[k]);
    assert(holds_text(crate::docs::page_columns(columns), row));
}

/// A page has a row for every test of its node: kind and column.
pub proof fn pages_have_every_test(d: DagModel, u: Text, k: int)
    requires
        d.nodes.contains_key(u),
        d.tests.contains_key(u),
        0 <= k < d.tests[u].len(),
    ensures
        ({
            let t = d.tests[u][k];
            let column = match t.column_name {
                Some(c) => c,
                None => ""@,
            };
            holds_text(page(d, u), "| "@ + cell(t.kind) + " | "@ + cell(column) + " |\n"@)
        }),
{
    broadcast use holds_in_sum;
    every_part_is_written(d.tests[u], |t: TestModel| test_row(t), k);
    let row = test_row(d.tests[u][k]);
    assert(holds_text(crate::docs::page_tests(d.tests[u]), row));
}

/// A page lists, by name and with a link, every other node that its node is
/// directly linked to, upstream or downstream.
pub proof fn pages_link_every_neighbour(d: DagModel, u: Text, v: Text, upstream: bool)
    requires
        d.valid(),
        d.nodes.contains_key(u),
        v != u,
        linked(if upstream { d.parents } else { d.children }, u, v),
    ensures
        holds_text(page(d, u), "- ["@ + d.nodes[v].name + "]("@ + page_links(files_of(d))[v] + ")\n"@),
{
    broadcast use holds_in_sum;
    let links = page_links(files_of(d));
    super::pages::pages_list_every_neighbour(d, u, upstream);
    let l = neighbours_of(d, u, upstream);
    assert(l.contains(v));
    let k = l.index_of(v);
    super::escape::links_lead_to_pages(d, v);
    every_part_is_written(l, |w: Text| link_line(crate::diff::name_in(d, w), w, links), k);
    let line = "- ["@ + d.nodes[v].name + "]("@ + links[v] + ")\n"@;
    assert(holds_text(crate::docs::neighbour_list(d, l, links), line));
    assert(holds_text(crate::docs::page_side(d, u, upstream, links), line));
}

/// The diagram of a page draws every dependency among the nodes upstream and
/// downstream of its node.
pub proof fn pages_draw_the_lineage(d: DagModel, u: Text, p: Text, c: Text)
    requires
        d.valid(),
        d.nodes.contains_key(u),
        p == u || reach(d.parents, u, None).contains(p) || reach(d.children, u, None).contains(p),
        c == u || reach(d.parents, u, None).contains(c) || reach(d.children, u, None).contains(c),
        linked(d.children, p, c),
    ensures
        ({
            let ids = mermaid_ids_of(named_ids(subgraph_of(d, u, true, true, None)));
            holds_text(page(d, u), "  "@ + ids[p] + " --> "@ + ids[c] + "\n"@)
        }),
{
    broadcast use holds_in_sum;
    let links = page_links(files_of(d));
    let sg = subgraph_of(d, u, true, true, None);
    subgraph_members(d, u, true, true, None);
    assert(sg.edges.contains((p, c)));
    assert(sg.has(u));
    diagrams_show_every_edge(sg, links, p, c);
    let ids = mermaid_ids_of(named_ids(sg));
    let line = "  "@ + ids[p] + " --> "@ + ids[c] + "\n"@;
    assert(holds_text(linked_diagram(d, sg, links), line));
    assert(holds_text(crate::docs::page_lineage(d, u, links), line));
}

} // verus!
