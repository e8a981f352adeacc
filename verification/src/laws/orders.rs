//! In which order things come, and that nothing else comes between them.

use vstd::prelude::*;
use vstd::relations::sorted_by;

use super::written::page;
use crate::app::analysis::{diff_view_of, exposed_ids, exposures_below, name_and_kind, passing, stats_view_of, violations_of, NodeTest};
use crate::app::export::{dot_diagram, dot_edge, dot_node, dot_text, kind_text, label_text, mermaid_click, mermaid_edge, mermaid_ids_of, mermaid_node, mermaid_text, named_ids};
use crate::app::report::{is_listed, names_in};
use crate::app::styles::{band_of, bands_for, bands_of, columns_in};
use crate::app::{coherent, AppModel};
use crate::dag::{ColumnModel, DagModel, NodeModel, SubgraphModel, TestModel};
use crate::docs::{cell, column_row, docs_of, files_of, leaf_models, page_columns, page_tests, test_row};
use crate::layout::LayoutModel;
use crate::model_list::KeepModel;
use crate::sorted::{distinct_in_order, distinct_in_order_exists, in_order, in_order_sorted, listing, listing_exists, pair_le, Sortable};
use crate::text::{rendered, text_le, text_lt, text_lt_irreflexive, Text};

verus! {

// ---- parts of a list ----

/// `part` is what is left of `whole` when entries are taken out: each entry
/// stands in `whole`, in the same order.
pub open spec fn left_of_list<A>(part: Seq<A>, whole: Seq<A>, at: Seq<int>) -> bool {
    &&& at.len() == part.len()
    &&& forall|i: int| 0 <= i < part.len() ==> 0 <= #[trigger] at[i] < whole.len() && whole[at[i]] == part[i]
    &&& forall|i: int, j: int| 0 <= i < j < part.len() ==> #[trigger] at[i] < #[trigger] at[j]
}

proof fn filter_keeps_order<A>(s: Seq<A>, p: spec_fn(A) -> bool) -> (at: Seq<int>)
    ensures
        left_of_list(s.filter(p), s, at),
        forall|i: int| 0 <= i < s.filter(p).len() ==> p(#[trigger] s.filter(p)[i]),
    decreases s.len(),
{
    reveal(Seq::filter);
    if s.len() > 0 {
        let r = s.drop_last();
        let before = filter_keeps_order(r, p);
        assert forall|i: int| 0 <= i < before.len() implies 0 <= #[trigger] before[i] < r.len() && s[before[i]] == r.filter(p)[i] by {
            assert(r[before[i]] == r.filter(p)[i]);
        }
        if p(s.last()) {
            let at = before.push(s.len() - 1);
            assert forall|i: int| 0 <= i < at.len() implies 0 <= #[trigger] at[i] < s.len() && s[at[i]] == s.filter(p)[i] by {
                if i < before.len() {
                    assert(at[i] == before[i]);
                }
            }
            assert forall|i: int, j: int| 0 <= i < j < at.len() implies #[trigger] at[i] < #[trigger] at[j] by {
                assert(at[i] == before[i]);
                if j < before.len() {
                    assert(at[j] == before[j]);
                }
            }
            at
        } else {
            before
        }
    } else {
        Seq::empty()
    }
}

/// What a persistent filter or a search leaves of the list stays in the order
/// of the list.
pub proof fn filters_keep_the_order(a: AppModel) -> (at: (Seq<int>, Seq<int>))
    requires
        coherent(a),
    ensures
        left_of_list(a.base(), a.model_list, at.0),
        a.list_search() is Some ==> left_of_list(a.refiltered().active(), a.base(), at.1),
{
    reveal(coherent);
    reveal(AppModel::refiltered);
    let whole = Seq::new(a.model_list.len(), |i: int| i);
    let one = filter_keeps_order(a.model_list, |n: NodeModel| KeepModel::Untested.keeps(n));
    let two = filter_keeps_order(a.model_list, |n: NodeModel| KeepModel::Bookmarked(a.bookmarks).keeps(n));
    let first = match a.list_filter {
        crate::app::ListFilter::All => whole,
        crate::app::ListFilter::Untested => one,
        crate::app::ListFilter::Bookmarked => two,
    };
    let second = match a.list_search() {
        Some(s) => filter_keeps_order(a.base(), |n: NodeModel| crate::model_list::subsequence(s.query, n.name)),
        None => Seq::empty(),
    };
    (first, second)
}

// ---- lists of names ----

/// The names in the impact report come in order.
pub proof fn reported_names_are_in_order(d: DagModel, ids: Set<Text>, exposures: bool, i: int, j: int)
    requires
        0 <= i < j < names_in(d, ids, exposures).len(),
    ensures
        text_le(names_in(d, ids, exposures)[i], names_in(d, ids, exposures)[j]),
{
    let raw = listing(ids).filter(|u: Text| is_listed(d, u, exposures)).map_values(|u: Text| d.nodes[u].name);
    in_order_sorted::<String>(raw);
    let le = |a: Text, b: Text| <String as Sortable>::leq(a, b);
    assert(le(names_in(d, ids, exposures)[i], names_in(d, ids, exposures)[j]));
}

proof fn pairs_in_order(raw: Seq<(Text, Text)>, i: int, j: int)
    requires
        0 <= i < j < raw.len(),
    ensures
        ({
            let l = in_order::<(String, String)>(raw);
            l.len() == raw.len() && text_le(l[i].0, l[j].0) && (l[i].0 == l[j].0 ==> text_le(l[i].1, l[j].1))
        }),
{
    broadcast use text_lt_irreflexive;
    in_order_sorted::<(String, String)>(raw);
    let l = in_order::<(String, String)>(raw);
    let le = |a: (Text, Text), b: (Text, Text)| <(String, String) as Sortable>::leq(a, b);
    assert(le(l[i], l[j]));
    assert(pair_le(l[i], l[j]));
}

/// Affected exposures come by name.
pub proof fn exposures_are_in_order(d: DagModel, u: Text, i: int, j: int)
    requires
        0 <= i < j < exposures_below(d, u).len(),
    ensures
        text_le(exposures_below(d, u)[i].0.name, exposures_below(d, u)[j].0.name),
{
    let ids = exposed_ids(d, u);
    let raw = ids.map_values(|w: Text| (d.nodes[w].name, w));
    in_order_sorted::<(String, String)>(raw);
    let l = in_order::<(String, String)>(raw);
    pairs_in_order(raw, i, j);
    assert forall|k: int| 0 <= k < l.len() implies d.nodes[(#[trigger] l[k]).1].name == l[k].0 by {
        assert(l.contains(l[k]));
        assert(raw.contains(l[k]));
        let m = raw.index_of(l[k]);
        assert(raw[m] == (d.nodes[ids[m]].name, ids[m]));
    }
}

/// Models that nothing depends on are listed by name.
pub proof fn leaves_are_in_order(d: DagModel, i: int, j: int)
    requires
        0 <= i < j < leaf_models(d).len(),
    ensures
        text_le(leaf_models(d)[i].0, leaf_models(d)[j].0),
{
    let raw = passing(d, NodeTest::Leaf).map_values(|u: Text| (d.nodes[u].name, u));
    in_order_sorted::<(String, String)>(raw);
    pairs_in_order(raw, i, j);
}

/// Added and modified nodes are shown by name, and so are the edges of the
/// dashboard that lead back in the flow.
pub proof fn changes_are_in_order(a: AppModel, i: int, j: int)
    requires
        a.diff is Some,
        0 <= i < j,
    ensures
        ({
            let v = diff_view_of(a)->0;
            let s = stats_view_of(a).layer_violations;
            &&& j < v.added.len() ==> text_le(v.added[i].0, v.added[j].0)
            &&& j < v.modified.len() ==> text_le(v.modified[i].0, v.modified[j].0)
            &&& j < s.len() ==> text_le(s[i].0, s[j].0)
        }),
{
    reveal(stats_view_of);
    let d = a.diff->0;
    let x = listing(d.added).map_values(|u: Text| name_and_kind(a.dag, u));
    let y = listing(d.modified.dom()).map_values(|u: Text| (name_and_kind(a.dag, u).0, crate::text::joined(d.modified[u], "; "@)));
    let z = violations_of(a.dag).map_values(|e: (Text, Text)| (crate::diff::name_in(a.dag, e.0), crate::diff::name_in(a.dag, e.1)));
    in_order_sorted::<(String, String)>(x);
    in_order_sorted::<(String, String)>(y);
    in_order_sorted::<(String, String)>(z);
    if j < x.len() {
        pairs_in_order(x, i, j);
    }
    if j < y.len() {
        pairs_in_order(y, i, j);
    }
    if j < z.len() {
        pairs_in_order(z, i, j);
    }
}

// ---- documentation ----

/// The pages are written in the order of the ids, and the index last.
pub proof fn pages_come_by_id(d: DagModel, project: Text, source: Text, i: int, j: int)
    requires
        d.valid(),
        0 <= i < j < d.nodes.dom().len(),
    ensures
        ({
            let l = docs_of(d, project, source);
            &&& l.len() == d.nodes.dom().len() + 1
            &&& l.last().0 == "README.md"@
            &&& exists|u: Text, v: Text| #[trigger] text_lt(u, v) && d.nodes.contains_key(u) && d.nodes.contains_key(v) && l[i] == (
                files_of(d)[u],
                page(d, u),
            ) && l[j] == (files_of(d)[v], page(d, v))
        }),
{
    let ids = listing(d.nodes.dom());
    listing_exists(d.nodes.dom());
    let l = docs_of(d, project, source);
    assert(ids.contains(ids[i]) && ids.contains(ids[j]));
    assert(d.nodes.dom().contains(ids[i]) && d.nodes.dom().contains(ids[j]));
    assert(text_lt(ids[i], ids[j]));
    assert(l[i] == (files_of(d)[ids[i]], page(d, ids[i])));
    assert(l[j] == (files_of(d)[ids[j]], page(d, ids[j])));
}

proof fn same_rendering<A>(s: Seq<A>, f: spec_fn(A) -> Text, g: spec_fn(A) -> Text)
    requires
        forall|x: A| #[trigger] f(x) == g(x),
    ensures
        rendered(s, f) == rendered(s, g),
    decreases s.len(),
{
    if s.len() > 0 {
        same_rendering(s.drop_last(), f, g);
        assert(f(s.last()) == g(s.last()));
    }
}

/// What stands for a missing text.
pub open spec fn or_nothing(v: Option<Text>) -> Text {
    if v is Some {
        v->0
    } else {
        ""@
    }
}

/// The columns of a page are one table in the order of the definition, the
/// tests another in the order of the tests, and either is a sentence where
/// there is nothing to list.
pub proof fn tables_list_in_order(columns: Seq<ColumnModel>, tests: Seq<TestModel>)
    ensures
        columns.len() > 0 ==> page_columns(columns) == "\n## Columns\n\n"@ + ("| Name | Type | Description |\n"@ + "| --- | --- | --- |\n"@ + rendered(
            columns,
            |c: ColumnModel|
                "| "@ + cell(c.name) + " | "@ + cell(or_nothing(c.data_type)) + " | "@ + cell(or_nothing(c.description)) + " |\n"@,
        )),
        columns.len() == 0 ==> page_columns(columns) == "\n## Columns\n\n"@ + "No columns.\n"@,
        tests.len() > 0 ==> page_tests(tests) == "\n## Tests\n\n"@ + ("| Test | Column |\n"@ + "| --- | --- |\n"@ + rendered(
            tests,
            |t: TestModel| "| "@ + cell(t.kind) + " | "@ + cell(or_nothing(t.column_name)) + " |\n"@,
        )),
        tests.len() == 0 ==> page_tests(tests) == "\n## Tests\n\n"@ + "No tests.\n"@,
{
    same_rendering(
        columns,
        |c: ColumnModel| column_row(c),
        |c: ColumnModel|
            "| "@ + cell(c.name) + " | "@ + cell(or_nothing(c.data_type)) + " | "@ + cell(or_nothing(c.description)) + " |\n"@,
    );
    same_rendering(
        tests,
        |t: TestModel| test_row(t),
        |t: TestModel| "| "@ + cell(t.kind) + " | "@ + cell(or_nothing(t.column_name)) + " |\n"@,
    );
}

/// A Mermaid diagram is its nodes, then its edges, then its links, each in
/// order and nothing else between the fences.
pub proof fn mermaid_is_nodes_edges_links(sg: SubgraphModel, links: Map<Text, Text>)
    ensures
        ({
            let ids = mermaid_ids_of(named_ids(sg));
            let node = |n: NodeModel|
                "  "@ + ids[n.unique_id] + "[\""@ + label_text(
                    n.name + " ("@ + kind_text(n) + ")"@ + if n.unique_id == sg.selected { " *"@ } else { ""@ },
                ) + "\"]\n"@;
            let edge = |e: (Text, Text)| "  "@ + ids[e.0] + " --> "@ + ids[e.1] + "\n"@;
            let link = |n: NodeModel|
                if links.contains_key(n.unique_id) {
                    "  click "@ + ids[n.unique_id] + " \""@ + label_text(links[n.unique_id]) + "\"\n"@
                } else {
                    Seq::<char>::empty()
                };
            mermaid_text(sg, links) == "```mermaid\ngraph LR\n"@ + rendered(sg.nodes, node) + rendered(sg.edges, edge) + rendered(sg.nodes, link)
                + "```\n"@
        }),
{
    let ids = mermaid_ids_of(named_ids(sg));
    let node = |n: NodeModel|
        "  "@ + ids[n.unique_id] + "[\""@ + label_text(
            n.name + " ("@ + kind_text(n) + ")"@ + if n.unique_id == sg.selected { " *"@ } else { ""@ },
        ) + "\"]\n"@;
    let edge = |e: (Text, Text)| "  "@ + ids[e.0] + " --> "@ + ids[e.1] + "\n"@;
    let link = |n: NodeModel|
        if links.contains_key(n.unique_id) {
            "  click "@ + ids[n.unique_id] + " \""@ + label_text(links[n.unique_id]) + "\"\n"@
        } else {
            Seq::<char>::empty()
        };
    same_rendering(sg.nodes, |n: NodeModel| mermaid_node(n, sg.selected, ids), node);
    same_rendering(sg.edges, |e: (Text, Text)| mermaid_edge(e, ids), edge);
    same_rendering(sg.nodes, |n: NodeModel| mermaid_click(n, ids, links), link);
}

/// A Graphviz diagram is its nodes and then its edges, each in order and
/// nothing else in the braces.
pub proof fn graphviz_is_nodes_edges(sg: SubgraphModel)
    ensures
        dot_diagram(sg) == "digraph lineage {\n  rankdir=LR;\n  node [shape=box];\n"@ + rendered(
            sg.nodes,
            |n: NodeModel|
                "  \""@ + dot_text(n.unique_id) + "\" [label=\""@ + dot_text(n.name) + "\\n("@ + dot_text(kind_text(n)) + ")\"];\n"@,
        ) + rendered(sg.edges, |e: (Text, Text)| "  \""@ + dot_text(e.0) + "\" -> \""@ + dot_text(e.1) + "\";\n"@) + "}\n"@,
{
    same_rendering(
        sg.nodes,
        |n: NodeModel| dot_node(n),
        |n: NodeModel| "  \""@ + dot_text(n.unique_id) + "\" [label=\""@ + dot_text(n.name) + "\\n("@ + dot_text(kind_text(n)) + ")\"];\n"@,
    );
    same_rendering(
        sg.edges,
        |e: (Text, Text)| dot_edge(e),
        |e: (Text, Text)| "  \""@ + dot_text(e.0) + "\" -> \""@ + dot_text(e.1) + "\";\n"@,
    );
}

// ---- bands ----

/// The bands of a drawing come from left to right: those of smaller columns
/// first.
pub proof fn bands_come_by_column(d: DagModel, l: LayoutModel, i: int, j: int)
    requires
        l.rects.dom().finite(),
        0 <= i < j < bands_of(d, l).len(),
    ensures
        exists|b: usize, c: usize|
            b < c && #[trigger] band_of(d, l, b) == Some(bands_of(d, l)[i]) && #[trigger] band_of(d, l, c) == Some(bands_of(d, l)[j]),
{
    let used = listing(l.rects.dom()).filter(|u: Text| l.columns.contains_key(u)).map_values(|u: Text| l.columns[u]);
    assert(columns_in(l) == used.to_set());
    distinct_in_order_exists::<usize>(columns_in(l));
    let cols = distinct_in_order::<usize>(columns_in(l));
    let le = |a: usize, b: usize| <usize as Sortable>::leq(a, b);
    assert forall|x: int, y: int| 0 <= x < y < cols.len() implies #[trigger] cols[x] < #[trigger] cols[y] by {
        assert(le(cols[x], cols[y]));
        assert(cols[x] != cols[y]);
    }
    let at = bands_from_columns(d, l, cols);
    assert(at[i] < at[j]);
    let b = cols[at[i]];
    let c = cols[at[j]];
    assert(band_of(d, l, b) == Some(bands_of(d, l)[i]) && band_of(d, l, c) == Some(bands_of(d, l)[j]));
}

proof fn bands_from_columns(d: DagModel, l: LayoutModel, cols: Seq<usize>) -> (at: Seq<int>)
    ensures
        at.len() == bands_for(d, l, cols).len(),
        forall|i: int| 0 <= i < at.len() ==> 0 <= #[trigger] at[i] < cols.len() && band_of(d, l, cols[at[i]]) == Some(bands_for(d, l, cols)[i]),
        forall|i: int, j: int| 0 <= i < j < at.len() ==> #[trigger] at[i] < #[trigger] at[j],
    decreases cols.len(),
{
    if cols.len() == 0 {
        Seq::empty()
    } else {
        let r = cols.drop_last();
        let before = bands_from_columns(d, l, r);
        assert forall|i: int| 0 <= i < before.len() implies 0 <= #[trigger] before[i] < r.len() && cols[before[i]] == r[before[i]] by {}
        if band_of(d, l, cols.last()) is Some {
            let at = before.push(cols.len() - 1);
            assert forall|i: int| 0 <= i < at.len() implies 0 <= #[trigger] at[i] < cols.len() && band_of(d, l, cols[at[i]]) == Some(
                bands_for(d, l, cols)[i],
            ) by {
                if i < before.len() {
                    assert(at[i] == before[i]);
                }
            }
            assert forall|i: int, j: int| 0 <= i < j < at.len() implies #[trigger] at[i] < #[trigger] at[j] by {
                assert(at[i] == before[i]);
                if j < before.len() {
                    assert(at[j] == before[j]);
                }
            }
            at
        } else {
            before
        }
    }
}

} // verus!
