//! The Markdown documentation of a project: a page for every node and an index,
//! as pairs of a relative path and contents. The same graph always gives the
//! same bytes, in the same order.

use vstd::prelude::*;

use crate::app::analysis::{ids_passing, passing, tested_within_testable, NodeTest};
use crate::app::export::{mermaid_text, subgraph_mermaid_linked};
use crate::dag::{
    at, edge_list, subgraph_of, view_ids, ColumnInfo, ColumnModel, Dag, DagModel, DetailModel, Edge, NodeInfo, NodeModel,
    Subgraph, SubgraphModel, TestInfo, TestModel,
};
use crate::diff::name_in;
use crate::graph::{linked, reach, reach_stays, walk, walk_first, within};
use crate::model_list::{
    first_dir_or, in_order_rows, in_order_rows_sorted, layer_or, layer_rank, rank_of, Row, RowModel,
};
use crate::naming::{all_taken, given, given_facts, pick_id, taken_count};
use crate::sorted::{listing_filtered, listing_of, filter_keeps, in_order, listing, listing_exists, sort, StrMap, StrSet};
use crate::text::{
    alnum, appended_in_turn, chars_of, decimal, is_alnum, join_from, joined, push_decimal, rendered, rendered_all,
    rendered_step, split, split_at_char, str_eq, Text,
};

verus! {

// ---- file names ----

/// A character of a file name: letters, digits, `.`, `_` and `-` stay.
pub open spec fn stem_char(c: char) -> char {
    if is_alnum(c) || c == '.' || c == '_' || c == '-' {
        c
    } else {
        '_'
    }
}

/// The file name of an id before it is numbered; never empty.
pub open spec fn stem_of(uid: Text) -> Text {
    if uid.len() == 0 {
        "_"@
    } else {
        uid.map_values(|c: char| stem_char(c))
    }
}

/// The path of a page.
pub open spec fn page_path(stem: Text) -> Text {
    "models/"@ + stem + ".md"@
}

/// The path of the page of each node.
pub open spec fn files_of(d: DagModel) -> Map<Text, Text> {
    given(listing(d.nodes.dom()), Set::empty(), |u: Text| stem_of(u)).ids.map_values(|s: Text| page_path(s))
}

/// What follows the last `/` of a path.
pub open spec fn base_name(path: Text) -> Text {
    split(path, '/').last()
}

/// The links from one page to another: all pages are in one directory.
pub open spec fn page_links(files: Map<Text, Text>) -> Map<Text, Text> {
    files.map_values(|p: Text| base_name(p))
}

fn sanitize_stem(uid: &str) -> (r: String)
    ensures
        r@ == stem_of(uid@),
{
    let cs = chars_of(uid);
    if cs.len() == 0 {
        return "_".to_owned();
    }
    let mut out = String::new();
    let mut i: usize = 0;
    while i < cs.len()
        invariant
            i <= cs@.len(),
            out@.len() == i,
            forall|j: int| 0 <= j < i ==> #[trigger] out@[j] == stem_char(cs@[j]),
        decreases cs@.len() - i,
    {
        let c = cs[i];
        if alnum(c) || c == '.' || c == '_' || c == '-' {
            out.push(c);
        } else {
            out.push('_');
        }
        i = i + 1;
    }
    assert(out@ =~= stem_of(uid@));
    out
}

/// Gives every node the path of its page. Ids that come to the same file name
/// are numbered, in ascending order of the ids.
pub fn node_files(dag: &Dag) -> (r: StrMap<String>)
    requires
        dag.wf(),
    ensures
        r.wf(),
        r.deep_view() == files_of(dag.deep_view()),
{
    let ghost d = dag.deep_view();
    let nodes = dag.nodes();
    let ghost ids = nodes.key_list();
    let ghost base = |u: Text| stem_of(u);
    let ghost path = |s: Text| page_path(s);
    let n: usize = nodes.len();
    let mut used = StrSet::new();
    let mut files: StrMap<String> = StrMap::new();
    let mut i: usize = 0;
    proof {
        nodes.keys_listed();
        assert(d.nodes.dom() =~= nodes@.dom());
        assert(files.deep_view() =~= given(ids.take(0), Set::empty(), base).ids.map_values(path));
    }
    while i < n
        invariant
            nodes.wf(),
            ids == nodes.key_list(),
            ids.no_duplicates(),
            base == (|u: Text| stem_of(u)),
            path == (|s: Text| page_path(s)),
            n == ids.len(),
            i <= n,
            used.wf(),
            files.wf(),
            used@ == given(ids.take(i as int), Set::empty(), base).used,
            files.deep_view() == given(ids.take(i as int), Set::empty(), base).ids.map_values(path),
        decreases n - i,
    {
        let uid = nodes.key_at(i);
        let stem = sanitize_stem(uid.as_str());
        let ghost g = given(ids.take(i as int), Set::empty(), base);
        proof {
            assert(ids.take(i + 1).drop_last() =~= ids.take(i as int));
            assert(ids.take(i as int).no_duplicates());
            given_facts(ids.take(i as int), Set::empty(), base);
            if used@.contains(stem@) {
                assert forall|k: nat| #[trigger] all_taken(stem@, used@, k) implies k <= usize::MAX by {
                    taken_count(stem@, used@, k);
                }
            }
        }
        let name = pick_id(stem.as_str(), &used);
        let mut rel = "models/".to_owned();
        rel.append(name.as_str());
        rel.append(".md");
        proof {
            StrMap::<String>::deep_insert(files@, files@.insert(uid@, rel), uid@, rel);
            assert(g.ids.insert(uid@, name@).map_values(path) =~= g.ids.map_values(path).insert(uid@, path(name@)));
        }
        files.insert(uid.clone(), rel);
        used.insert(name);
        i = i + 1;
    }
    assert(ids.take(n as int) =~= ids);
    files
}

fn link_between_nodes(path: &str) -> (r: String)
    ensures
        r@ == base_name(path@),
{
    let pieces = split_at_char(path, '/');
    let ghost ps = pieces.deep_view();
    assert(ps.last() == pieces@[pieces@.len() - 1]@);
    pieces[pieces.len() - 1].clone()
}

fn links_between(files: &StrMap<String>) -> (r: StrMap<String>)
    requires
        files.wf(),
    ensures
        r.wf(),
        r.deep_view() == page_links(files.deep_view()),
{
    let ghost keys = files.key_list();
    let ghost all = page_links(files.deep_view());
    let mut out: StrMap<String> = StrMap::new();
    let mut i: usize = 0;
    assert(out.deep_view() =~= all.restrict(keys.take(0).to_set()));
    while i < files.len()
        invariant
            files.wf(),
            out.wf(),
            keys == files.key_list(),
            all == page_links(files.deep_view()),
            i <= keys.len(),
            out.deep_view() == all.restrict(keys.take(i as int).to_set()),
        decreases keys.len() - i,
    {
        let uid = files.key_at(i);
        let link = link_between_nodes(files.value_at(i).as_str());
        proof {
            assert(keys.take(i + 1) =~= keys.take(i as int).push(uid@));
            keys.take(i as int).lemma_push_to_set_commute(uid@);
            StrMap::<String>::deep_insert(out@, out@.insert(uid@, link), uid@, link);
            assert(all[uid@] == link@);
            assert(all.restrict(keys.take(i + 1).to_set()) =~= all.restrict(keys.take(i as int).to_set()).insert(uid@, link@));
        }
        out.insert(uid.clone(), link);
        i = i + 1;
    }
    proof {
        files.keys_listed();
        assert(keys.take(keys.len() as int) =~= keys);
        assert(all.restrict(keys.to_set()) =~= all);
    }
    out
}

// ---- pieces of Markdown ----

/// What a character becomes in a table cell.
pub open spec fn cell_char(c: char) -> Text {
    if c == '|' {
        "\\|"@
    } else if c == '\n' || c == '\r' {
        " "@
    } else {
        seq![c]
    }
}

/// A text in a table cell.
pub open spec fn cell(s: Text) -> Text {
    rendered(s, |c: char| cell_char(c))
}

/// An optional text as inline code; `none` where it is missing or empty.
pub open spec fn code_or_none(v: Option<Text>) -> Text {
    match v {
        Some(s) => if s.len() > 0 {
            "`"@ + s + "`"@
        } else {
            "none"@
        },
        None => "none"@,
    }
}

/// A bullet that links to the page of an id, where it has one.
pub open spec fn link_line(name: Text, uid: Text, links: Map<Text, Text>) -> Text {
    if links.contains_key(uid) {
        "- ["@ + name + "]("@ + links[uid] + ")\n"@
    } else {
        "- "@ + name + "\n"@
    }
}

fn md_cell(text: &str) -> (r: String)
    ensures
        r@ == cell(text@),
{
    let cs = chars_of(text);
    let ghost f = |c: char| cell_char(c);
    let mut out = String::new();
    let mut i: usize = 0;
    proof {
        rendered_all(cs@, f);
    }
    while i < cs.len()
        invariant
            i <= cs@.len(),
            f == (|c: char| cell_char(c)),
            out@ == rendered(cs@.take(i as int), f),
        decreases cs@.len() - i,
    {
        proof {
            rendered_step(cs@, i as int, f);
        }
        let c = cs[i];
        if c == '|' {
            out.append("\\|");
        } else if c == '\n' || c == '\r' {
            out.append(" ");
        } else {
            let ghost o = out@;
            out.push(c);
            assert(out@ =~= o + seq![c]);
        }
        i = i + 1;
    }
    out
}

fn push_opt_code(out: &mut String, v: &Option<String>)
    ensures
        final(out)@ == old(out)@ + code_or_none(v.deep_view()),
{
    broadcast use appended_in_turn;
    let ghost o = out@;
    match v {
        Some(s) => {
            if s.as_str().is_empty() {
                out.append("none");
            } else {
                out.append("`");
                out.append(s.as_str());
                out.append("`");
                assert(out@ == o + ("`"@ + s@ + "`"@));
            }
        },
        None => out.append("none"),
    }
}

fn push_link_line(out: &mut String, name: &str, uid: &str, links: &StrMap<String>)
    requires
        links.wf(),
    ensures
        final(out)@ == old(out)@ + link_line(name@, uid@, links.deep_view()),
{
    broadcast use appended_in_turn;
    let ghost o = out@;
    match links.get(uid) {
        Some(href) => {
            out.append("- [");
            out.append(name);
            out.append("](");
            out.append(href.as_str());
            out.append(")\n");
        },
        None => {
            out.append("- ");
            out.append(name);
            out.append("\n");
        },
    }
    assert(out@ == o + link_line(name@, uid@, links.deep_view()));
}

// ---- the page of a node ----

/// The tags of a node as code, `none` where there are none.
pub open spec fn tags_text(tags: Seq<Text>) -> Text {
    if tags.len() == 0 {
        "none"@
    } else {
        joined(tags.map_values(|t: Text| "`"@ + t + "`"@), ", "@)
    }
}

/// The warehouse lines of a page.
pub open spec fn detail_lines(d: DetailModel) -> Text {
    "- database: "@ + code_or_none(d.database) + "\n"@ + "- schema: "@ + code_or_none(d.schema) + "\n"@ + "- tags: "@
        + tags_text(d.tags) + "\n"@
}

/// The details of a node, where there are any.
pub open spec fn detail_of(d: DagModel, uid: Text) -> Option<DetailModel> {
    if d.details.contains_key(uid) {
        Some(d.details[uid])
    } else {
        None
    }
}

/// The materialization of a node: its own, else that in its details.
pub open spec fn materialization(n: NodeModel, detail: Option<DetailModel>) -> Option<Text> {
    match n.materialized {
        Some(m) => Some(m),
        None => match detail {
            Some(d) => d.materialized,
            None => None,
        },
    }
}

/// The heading and the facts of a page.
pub open spec fn page_head(n: NodeModel, uid: Text, detail: Option<DetailModel>) -> Text {
    "# "@ + n.name + "\n\n"@ + "- resource type: `"@ + n.resource_type + "`\n"@ + "- materialization: "@ + code_or_none(
        materialization(n, detail),
    ) + "\n"@ + (match detail {
        Some(d) => detail_lines(d),
        None => Seq::empty(),
    }) + "- unique_id: `"@ + uid + "`\n"@ + "- source file: "@ + code_or_none(
        match detail {
            Some(d) => d.original_file_path,
            None => None,
        },
    ) + "\n"@
}

/// The description of a page.
pub open spec fn page_description(detail: Option<DetailModel>) -> Text {
    "\n## Description\n\n"@ + (match detail {
        Some(d) => match d.description {
            Some(t) => t,
            None => "No description."@,
        },
        None => "No description."@,
    }) + "\n"@
}

/// An optional text, empty where it is missing.
pub open spec fn or_empty(v: Option<Text>) -> Text {
    match v {
        Some(s) => s,
        None => ""@,
    }
}

/// A row of the column table.
pub open spec fn column_row(c: ColumnModel) -> Text {
    "| "@ + cell(c.name) + " | "@ + cell(or_empty(c.data_type)) + " | "@ + cell(or_empty(c.description)) + " |\n"@
}

/// The columns of a page, in definition order.
pub open spec fn page_columns(columns: Seq<ColumnModel>) -> Text {
    "\n## Columns\n\n"@ + if columns.len() == 0 {
        "No columns.\n"@
    } else {
        "| Name | Type | Description |\n"@ + "| --- | --- | --- |\n"@ + rendered(columns, |c: ColumnModel| column_row(c))
    }
}

/// A row of the test table.
pub open spec fn test_row(t: TestModel) -> Text {
    "| "@ + cell(t.kind) + " | "@ + cell(or_empty(t.column_name)) + " |\n"@
}

/// The tests of a page.
pub open spec fn page_tests(tests: Seq<TestModel>) -> Text {
    "\n## Tests\n\n"@ + if tests.len() == 0 {
        "No tests.\n"@
    } else {
        "| Test | Column |\n"@ + "| --- | --- |\n"@ + rendered(tests, |t: TestModel| test_row(t))
    }
}

/// The direct parents or children of a node, ascending, without the node.
pub open spec fn neighbours_of(d: DagModel, uid: Text, upstream: bool) -> Seq<Text> {
    listing(reach(if upstream { d.parents } else { d.children }, uid, Some(1)))
}

/// A list of linked neighbours.
pub open spec fn neighbour_list(d: DagModel, ids: Seq<Text>, links: Map<Text, Text>) -> Text {
    if ids.len() == 0 {
        "None.\n"@
    } else {
        rendered(ids, |u: Text| link_line(name_in(d, u), u, links))
    }
}

/// The dependencies of a page on one side.
pub open spec fn page_side(d: DagModel, uid: Text, upstream: bool, links: Map<Text, Text>) -> Text {
    if upstream {
        "\n## Upstream dependencies\n\n"@ + "- direct parents: "@ + decimal(d.nodes[uid].direct_up) + "\n- transitive ancestors: "@
            + decimal(reach(d.parents, uid, None).len()) + "\n\n"@ + neighbour_list(d, neighbours_of(d, uid, true), links)
    } else {
        "\n## Downstream dependencies\n\n"@ + "- direct children: "@ + decimal(d.nodes[uid].direct_down)
            + "\n- transitive descendants: "@ + decimal(reach(d.children, uid, None).len()) + "\n\n"@ + neighbour_list(
            d,
            neighbours_of(d, uid, false),
            links,
        )
    }
}

/// The name of a node of a diagram, as the graph has it.
pub open spec fn legend_name(d: DagModel, n: NodeModel) -> Text {
    if d.nodes.contains_key(n.unique_id) {
        d.nodes[n.unique_id].name
    } else {
        n.name
    }
}

/// A diagram with links, and the same links as a list below it.
pub open spec fn linked_diagram(d: DagModel, sg: SubgraphModel, links: Map<Text, Text>) -> Text {
    mermaid_text(sg, links) + "\nNodes in this diagram:\n\n"@ + rendered(
        sg.nodes,
        |n: NodeModel| link_line(legend_name(d, n), n.unique_id, links),
    )
}

/// The lineage of a page: everything upstream and downstream.
pub open spec fn page_lineage(d: DagModel, uid: Text, links: Map<Text, Text>) -> Text {
    let sg = subgraph_of(d, uid, true, true, None);
    "\n## Lineage\n\n"@
        + "Full lineage (all upstream + downstream dependencies). Matches the interactive `m` yank for this node.\n\n"@
        + if sg.nodes.len() == 0 {
        "No lineage.\n"@
    } else {
        linked_diagram(d, sg, links)
    }
}

/// The page of a node.
pub open spec fn page_text(d: DagModel, uid: Text, links: Map<Text, Text>) -> Text {
    if !d.nodes.contains_key(uid) {
        "# "@ + uid + "\n\nNode not found.\n"@
    } else {
        let detail = detail_of(d, uid);
        page_head(d.nodes[uid], uid, detail) + page_description(detail) + page_columns(
            match detail {
                Some(x) => x.columns,
                None => Seq::empty(),
            },
        ) + page_tests(at(d.tests, uid)) + page_side(d, uid, true, links) + page_side(d, uid, false, links) + page_lineage(
            d,
            uid,
            links,
        )
    }
}

fn push_tags(out: &mut String, tags: &Vec<String>)
    ensures
        final(out)@ == old(out)@ + tags_text(tags.deep_view()),
{
    if tags.len() == 0 {
        out.append("none");
        return;
    }
    let ghost all = tags.deep_view();
    let mut codes: Vec<String> = Vec::new();
    let mut i: usize = 0;
    while i < tags.len()
        invariant
            i <= tags@.len(),
            all == tags.deep_view(),
            codes@.len() == i,
            forall|j: int| 0 <= j < i ==> (#[trigger] codes@[j])@ == "`"@ + all[j] + "`"@,
        decreases tags@.len() - i,
    {
        let mut c = "`".to_owned();
        c.append(tags[i].as_str());
        c.append("`");
        codes.push(c);
        i = i + 1;
    }
    proof {
        assert(codes.deep_view() =~= all.map_values(|t: Text| "`"@ + t + "`"@));
        assert(codes.deep_view().skip(0) =~= codes.deep_view());
    }
    out.append(join_from(&codes, 0, ", ").as_str());
}

fn push_detail_lines(out: &mut String, d: &crate::dag::NodeDetail)
    ensures
        final(out)@ == old(out)@ + detail_lines(d.deep_view()),
{
    broadcast use appended_in_turn;
    let ghost o = out@;
    out.append("- database: ");
    push_opt_code(out, &d.database);
    out.append("\n");
    out.append("- schema: ");
    push_opt_code(out, &d.schema);
    out.append("\n");
    out.append("- tags: ");
    push_tags(out, &d.tags);
    out.append("\n");
    assert(out@ == o + detail_lines(d.deep_view()));
}

fn page_start(dag: &Dag, uid: &str, node: &NodeInfo) -> (out: String)
    requires
        dag.wf(),
    ensures
        out@ == page_head(node.deep_view(), uid@, detail_of(dag.deep_view(), uid@)),
{
    let mut out = "# ".to_owned();
    out.append(node.name.as_str());
    out.append("\n\n");
    out.append("- resource type: `");
    out.append(node.resource_type.as_str());
    out.append("`\n");
    out.append("- materialization: ");
    let detail = dag.detail(uid);
    let none: Option<String> = None;
    match (&node.materialized, detail) {
        (Some(_), _) => push_opt_code(&mut out, &node.materialized),
        (None, Some(d)) => push_opt_code(&mut out, &d.materialized),
        (None, None) => push_opt_code(&mut out, &none),
    }
    out.append("\n");
    match detail {
        Some(d) => push_detail_lines(&mut out, d),
        None => {
            assert(out@ + Seq::<char>::empty() =~= out@);
        },
    }
    out.append("- unique_id: `");
    out.append(uid);
    out.append("`\n");
    out.append("- source file: ");
    match detail {
        Some(d) => push_opt_code(&mut out, &d.original_file_path),
        None => push_opt_code(&mut out, &none),
    }
    out.append("\n");
    out
}

fn push_description(out: &mut String, detail: Option<&crate::dag::NodeDetail>)
    ensures
        final(out)@ == old(out)@ + page_description(detail.deep_view()),
{
    broadcast use appended_in_turn;
    let ghost o = out@;
    out.append("\n## Description\n\n");
    match detail {
        Some(d) => match &d.description {
            Some(t) => out.append(t.as_str()),
            None => out.append("No description."),
        },
        None => out.append("No description."),
    }
    out.append("\n");
    assert(out@ == o + page_description(detail.deep_view()));
}

fn push_opt_cell(out: &mut String, v: &Option<String>)
    ensures
        final(out)@ == old(out)@ + cell(or_empty(v.deep_view())),
{
    match v {
        Some(s) => out.append(md_cell(s.as_str()).as_str()),
        None => out.append(md_cell("").as_str()),
    }
}

fn push_columns(out: &mut String, columns: &Vec<ColumnInfo>)
    ensures
        final(out)@ == old(out)@ + page_columns(columns.deep_view()),
{
    let ghost all = columns.deep_view();
    let ghost f = |c: ColumnModel| column_row(c);
    let ghost o = out@;
    out.append("\n## Columns\n\n");
    if columns.len() == 0 {
        out.append("No columns.\n");
        assert(out@ =~= o + page_columns(all));
        return;
    }
    out.append("| Name | Type | Description |\n");
    out.append("| --- | --- | --- |\n");
    let ghost o1 = out@;
    let mut i: usize = 0;
    proof {
        rendered_all(all, f);
        assert(o1 + Seq::<char>::empty() =~= o1);
    }
    while i < columns.len()
        invariant
            i <= columns@.len(),
            all == columns.deep_view(),
            f == (|c: ColumnModel| column_row(c)),
            out@ == o1 + rendered(all.take(i as int), f),
        decreases columns@.len() - i,
    {
        let ghost p = out@;
        let c = &columns[i];
        proof {
            rendered_step(all, i as int, f);
            assert(all[i as int] == c.deep_view());
        }
        out.append("| ");
        out.append(md_cell(c.name.as_str()).as_str());
        out.append(" | ");
        push_opt_cell(out, &c.data_type);
        out.append(" | ");
        push_opt_cell(out, &c.description);
        out.append(" |\n");
        assert(out@ =~= p + column_row(c.deep_view()));
        assert(out@ =~= o1 + rendered(all.take(i + 1), f));
        i = i + 1;
    }
    assert(out@ =~= o + page_columns(all));
}

fn push_tests(out: &mut String, tests: &[TestInfo])
    ensures
        final(out)@ == old(out)@ + page_tests(tests.deep_view()),
{
    let ghost all = tests.deep_view();
    let ghost f = |t: TestModel| test_row(t);
    let ghost o = out@;
    out.append("\n## Tests\n\n");
    if tests.len() == 0 {
        out.append("No tests.\n");
        assert(out@ =~= o + page_tests(all));
        return;
    }
    out.append("| Test | Column |\n");
    out.append("| --- | --- |\n");
    let ghost o1 = out@;
    let mut i: usize = 0;
    proof {
        rendered_all(all, f);
        assert(o1 + Seq::<char>::empty() =~= o1);
    }
    while i < tests.len()
        invariant
            i <= tests@.len(),
            all == tests.deep_view(),
            f == (|t: TestModel| test_row(t)),
            out@ == o1 + rendered(all.take(i as int), f),
        decreases tests@.len() - i,
    {
        let ghost p = out@;
        let t = &tests[i];
        proof {
            rendered_step(all, i as int, f);
            assert(all[i as int] == t.deep_view());
        }
        out.append("| ");
        out.append(md_cell(t.kind.as_str()).as_str());
        out.append(" | ");
        push_opt_cell(out, &t.column_name);
        out.append(" |\n");
        assert(out@ =~= p + test_row(t.deep_view()));
        assert(out@ =~= o1 + rendered(all.take(i + 1), f));
        i = i + 1;
    }
    assert(out@ =~= o + page_tests(all));
}

fn direct_neighbours(dag: &Dag, uid: &str, upstream: bool) -> (r: Vec<String>)
    requires
        dag.wf(),
    ensures
        r.deep_view() == neighbours_of(dag.deep_view(), uid@, upstream),
{
    let sg = dag.subgraph_view(uid, upstream, !upstream, Some(1));
    let ghost ids = sg.deep_view().nodes.map_values(|n: NodeModel| n.unique_id);
    let ghost p = |u: Text| u != uid@;
    let mut out: Vec<String> = Vec::new();
    let mut i: usize = 0;
    proof {
        reveal(Seq::filter);
        assert(out.deep_view() =~= ids.take(0).filter(p));
    }
    while i < sg.nodes.len()
        invariant
            i <= sg.nodes@.len(),
            ids == sg.nodes.deep_view().map_values(|n: NodeModel| n.unique_id),
            p == (|u: Text| u != uid@),
            out.deep_view() == ids.take(i as int).filter(p),
        decreases sg.nodes@.len() - i,
    {
        let ghost o = out.deep_view();
        proof {
            reveal(Seq::filter);
            assert(ids[i as int] == sg.nodes@[i as int].unique_id@);
            assert(ids.take(i + 1).drop_last() =~= ids.take(i as int));
        }
        if !str_eq(sg.nodes[i].unique_id.as_str(), uid) {
            out.push(sg.nodes[i].unique_id.clone());
            assert(out.deep_view() =~= o.push(ids[i as int]));
        }
        i = i + 1;
    }
    assert(ids.take(ids.len() as int) =~= ids);
    proof {
        dag.wf_valid();
        others_in_view(dag.deep_view(), uid@, upstream, ids, p);
    }
    out
}

/// The nodes one hop away on one side, without the node itself.
proof fn others_in_view(d: DagModel, uid: Text, upstream: bool, ids: Seq<Text>, p: spec_fn(Text) -> bool)
    requires
        d.valid(),
        ids == subgraph_of(d, uid, upstream, !upstream, Some(1)).nodes.map_values(|n: NodeModel| n.unique_id),
        forall|u: Text| #[trigger] p(u) <==> u != uid,
    ensures
        ids.filter(p) == neighbours_of(d, uid, upstream),
{
    let adj = if upstream {
        d.parents
    } else {
        d.children
    };
    let near = reach(adj, uid, Some(1));
    reach_stays(adj, uid, Some(1), d.nodes.dom());
    if d.nodes.contains_key(uid) {
        let all = view_ids(d, uid, upstream, !upstream, Some(1));
        assert(all =~= near.insert(uid));
        vstd::set_lib::lemma_set_subset_finite(d.nodes.dom(), all);
        listing_exists(all);
        assert(ids =~= listing(all)) by {
            assert forall|i: int| 0 <= i < listing(all).len() implies ids[i] == listing(all)[i] by {
                assert(listing(all).contains(listing(all)[i]));
                assert(all.contains(listing(all)[i]));
                assert(d.nodes.contains_key(listing(all)[i]));
            }
        }
        listing_filtered(all, p);
        assert(Set::new(|u: Text| all.contains(u) && p(u)) =~= near);
    } else {
        assert forall|v: Text| !near.contains(v) by {
            if near.contains(v) {
                let n = choose|n: nat| n >= 1 && within(n, Some(1usize)) && #[trigger] walk(adj, uid, v, n);
                let m = walk_first(adj, uid, v, n);
                assert(linked(adj, uid, m));
            }
        }
        assert(near =~= Seq::<Text>::empty().to_set());
        listing_of(Seq::empty());
        reveal(Seq::filter);
        assert(ids.filter(p) =~= Seq::empty());
    }
}

fn push_dep_list(out: &mut String, dag: &Dag, ids: &Vec<String>, links: &StrMap<String>)
    requires
        dag.wf(),
        links.wf(),
    ensures
        final(out)@ == old(out)@ + neighbour_list(dag.deep_view(), ids.deep_view(), links.deep_view()),
{
    if ids.len() == 0 {
        out.append("None.\n");
        return;
    }
    let ghost d = dag.deep_view();
    let ghost lv = links.deep_view();
    let ghost all = ids.deep_view();
    let ghost f = |u: Text| link_line(name_in(d, u), u, lv);
    let ghost o1 = out@;
    let mut i: usize = 0;
    proof {
        rendered_all(all, f);
        assert(o1 + Seq::<char>::empty() =~= o1);
    }
    while i < ids.len()
        invariant
            dag.wf(),
            links.wf(),
            d == dag.deep_view(),
            lv == links.deep_view(),
            i <= ids@.len(),
            all == ids.deep_view(),
            f == (|u: Text| link_line(name_in(d, u), u, lv)),
            out@ == o1 + rendered(all.take(i as int), f),
        decreases ids@.len() - i,
    {
        proof {
            rendered_step(all, i as int, f);
            assert(all[i as int] == ids@[i as int]@);
        }
        let name = match dag.get(ids[i].as_str()) {
            Some(n) => n.name.as_str(),
            None => ids[i].as_str(),
        };
        push_link_line(out, name, ids[i].as_str(), links);
        assert(out@ =~= o1 + rendered(all.take(i + 1), f));
        i = i + 1;
    }
}

fn push_side(out: &mut String, dag: &Dag, uid: &str, node: &NodeInfo, upstream: bool, links: &StrMap<String>)
    requires
        dag.wf(),
        links.wf(),
        node.deep_view() == dag.deep_view().nodes[uid@],
    ensures
        final(out)@ == old(out)@ + page_side(dag.deep_view(), uid@, upstream, links.deep_view()),
{
    broadcast use appended_in_turn;
    let ghost o = out@;
    let ids = direct_neighbours(dag, uid, upstream);
    if upstream {
        out.append("\n## Upstream dependencies\n\n");
        out.append("- direct parents: ");
        push_decimal(out, node.direct_up);
        out.append("\n- transitive ancestors: ");
        push_decimal(out, dag.upstream(uid).len());
    } else {
        out.append("\n## Downstream dependencies\n\n");
        out.append("- direct children: ");
        push_decimal(out, node.direct_down);
        out.append("\n- transitive descendants: ");
        push_decimal(out, dag.downstream(uid).len());
    }
    out.append("\n\n");
    push_dep_list(out, dag, &ids, links);
    assert(out@ == o + page_side(dag.deep_view(), uid@, upstream, links.deep_view()));
}

fn push_linked_diagram(out: &mut String, dag: &Dag, sg: &Subgraph, links: &StrMap<String>)
    requires
        dag.wf(),
        links.wf(),
    ensures
        final(out)@ == old(out)@ + linked_diagram(dag.deep_view(), sg.deep_view(), links.deep_view()),
{
    let ghost d = dag.deep_view();
    let ghost lv = links.deep_view();
    let ghost all = sg.deep_view().nodes;
    let ghost f = |n: NodeModel| link_line(legend_name(d, n), n.unique_id, lv);
    let ghost o = out@;
    out.append(subgraph_mermaid_linked(sg, links).as_str());
    out.append("\nNodes in this diagram:\n\n");
    let ghost o1 = out@;
    let mut i: usize = 0;
    proof {
        rendered_all(all, f);
        assert(o1 + Seq::<char>::empty() =~= o1);
    }
    while i < sg.nodes.len()
        invariant
            dag.wf(),
            links.wf(),
            d == dag.deep_view(),
            lv == links.deep_view(),
            i <= sg.nodes@.len(),
            all == sg.nodes.deep_view(),
            f == (|n: NodeModel| link_line(legend_name(d, n), n.unique_id, lv)),
            out@ == o1 + rendered(all.take(i as int), f),
        decreases sg.nodes@.len() - i,
    {
        let n = &sg.nodes[i];
        proof {
            rendered_step(all, i as int, f);
            assert(all[i as int] == n.deep_view());
        }
        let name = match dag.get(n.unique_id.as_str()) {
            Some(m) => m.name.as_str(),
            None => n.name.as_str(),
        };
        push_link_line(out, name, n.unique_id.as_str(), links);
        assert(out@ =~= o1 + rendered(all.take(i + 1), f));
        i = i + 1;
    }
    assert(out@ =~= o + linked_diagram(d, sg.deep_view(), lv));
}

fn push_page_lineage(out: &mut String, dag: &Dag, uid: &str, links: &StrMap<String>)
    requires
        dag.wf(),
        links.wf(),
    ensures
        final(out)@ == old(out)@ + page_lineage(dag.deep_view(), uid@, links.deep_view()),
{
    broadcast use appended_in_turn;
    let ghost o = out@;
    out.append("\n## Lineage\n\n");
    out.append("Full lineage (all upstream + downstream dependencies). Matches the interactive `m` yank for this node.\n\n");
    let sg = dag.subgraph_view(uid, true, true, None);
    if sg.nodes.len() == 0 {
        out.append("No lineage.\n");
    } else {
        push_linked_diagram(out, dag, &sg, links);
    }
    assert(out@ == o + page_lineage(dag.deep_view(), uid@, links.deep_view()));
}

/// The Markdown page of a node; `links` leads to the other pages.
pub fn node_markdown(dag: &Dag, uid: &str, links: &StrMap<String>) -> (r: String)
    requires
        dag.wf(),
        links.wf(),
    ensures
        r@ == page_text(dag.deep_view(), uid@, links.deep_view()),
{
    let node = match dag.get(uid) {
        Some(n) => n,
        None => {
            let mut out = "# ".to_owned();
            out.append(uid);
            out.append("\n\nNode not found.\n");
            return out;
        },
    };
    let detail = dag.detail(uid);
    let mut out = page_start(dag, uid, node);
    push_description(&mut out, detail);
    let none: Vec<ColumnInfo> = Vec::new();
    assert(none.deep_view() =~= Seq::empty());
    match detail {
        Some(d) => push_columns(&mut out, &d.columns),
        None => push_columns(&mut out, &none),
    }
    push_tests(&mut out, dag.tests(uid));
    push_side(&mut out, dag, uid, node, true, links);
    push_side(&mut out, dag, uid, node, false, links);
    push_page_lineage(&mut out, dag, uid, links);
    out
}

// ---- the index ----

/// The place of a resource type in the order of display, unknown ones last.
pub open spec fn resource_rank_of(rt: Text) -> nat {
    if rt == "model"@ {
        0
    } else if rt == "snapshot"@ {
        1
    } else if rt == "seed"@ {
        2
    } else if rt == "source"@ {
        3
    } else if rt == "exposure"@ {
        4
    } else {
        5
    }
}

fn resource_rank(rt: &str) -> (r: usize)
    ensures
        r == resource_rank_of(rt@),
        r <= 5,
{
    if str_eq(rt, "model") {
        0
    } else if str_eq(rt, "snapshot") {
        1
    } else if str_eq(rt, "seed") {
        2
    } else if str_eq(rt, "source") {
        3
    } else if str_eq(rt, "exposure") {
        4
    } else {
        5
    }
}

/// The place of a model's layer; 0 for any other node.
pub open spec fn layer_rank_of(n: NodeModel) -> nat {
    if n.resource_type == "model"@ {
        rank_of(layer_or(n, ""@))
    } else {
        0
    }
}

fn model_layer_rank(n: &NodeInfo) -> (r: usize)
    ensures
        r == layer_rank_of(n.deep_view()),
        r <= 4,
{
    if str_eq(n.resource_type.as_str(), "model") {
        layer_rank(first_dir_or(n, "").as_str())
    } else {
        0
    }
}

/// The sort key of a node in the index: by resource type, then layer, then
/// name, then id; nodes of an unknown type by id alone. There are fewer than
/// five layer ranks above the first.
pub open spec fn index_key(n: NodeModel) -> RowModel {
    RowModel {
        rank: resource_rank_of(n.resource_type) * 5 + layer_rank_of(n),
        layer: ""@,
        weight: 0,
        name: if resource_rank_of(n.resource_type) < 5 {
            n.name
        } else {
            ""@
        },
        uid: n.unique_id,
    }
}

/// The nodes in the order of the index.
pub open spec fn index_order(d: DagModel) -> Seq<NodeModel> {
    in_order_rows(listing(d.nodes.dom()).map_values(|u: Text| index_key(d.nodes[u]))).map_values(
        |r: RowModel| d.nodes[r.uid],
    )
}

/// The line of a resource type; nothing where there is no such node.
pub open spec fn type_line(d: DagModel, rt: Text) -> Text {
    let n = crate::app::count_of(d, rt);
    if n > 0 {
        "- "@ + rt + ": "@ + decimal(n) + "\n"@
    } else {
        Seq::empty()
    }
}

/// The counts at the top of the index.
pub open spec fn index_summary(d: DagModel) -> Text {
    "## Summary\n\n"@ + "- total nodes: "@ + decimal(d.nodes.dom().len()) + "\n"@ + type_line(d, "model"@) + type_line(
        d,
        "snapshot"@,
    ) + type_line(d, "seed"@) + type_line(d, "source"@) + type_line(d, "exposure"@)
}

/// How many of `total` resources are tested; the share is cut off to whole
/// percent.
pub open spec fn coverage_lines(tested: nat, total: nat) -> Text {
    "- tested: "@ + decimal(tested) + " / "@ + decimal(total) + " testable resources (model/snapshot/seed)\n"@ + "- coverage: "@
        + decimal(tested * 100 / total) + "%\n"@ + "- untested: "@ + decimal((total - tested) as nat) + "\n"@
}

/// The test coverage.
pub open spec fn index_coverage(d: DagModel) -> Text {
    let tested = passing(d, NodeTest::Tested).len();
    let total = passing(d, NodeTest::Testable).len();
    "\n## Test coverage\n\n"@ + if total == 0 {
        "- testable resources (model/snapshot/seed): 0\n"@
    } else {
        coverage_lines(tested, total)
    }
}

/// The models without children by name and id.
pub open spec fn leaf_models(d: DagModel) -> Seq<(Text, Text)> {
    in_order::<(String, String)>(passing(d, NodeTest::Leaf).map_values(|u: Text| (d.nodes[u].name, u)))
}

/// The list of models without children.
pub open spec fn index_orphans(d: DagModel, files: Map<Text, Text>) -> Text {
    "\n## Orphan models\n\n"@ + "Models with no downstream consumer (`direct_down == 0`):\n\n"@ + if leaf_models(d).len() == 0 {
        "None.\n"@
    } else {
        rendered(leaf_models(d), |p: (Text, Text)| link_line(p.0, p.1, files))
    }
}

/// The link of a node in the index table.
pub open spec fn table_link(n: NodeModel, files: Map<Text, Text>) -> Text {
    if files.contains_key(n.unique_id) {
        "["@ + cell(n.name) + "]("@ + files[n.unique_id] + ")"@
    } else {
        cell(n.name)
    }
}

/// A row of the index table.
pub open spec fn index_row(n: NodeModel, files: Map<Text, Text>) -> Text {
    "| "@ + cell(n.name) + " | "@ + cell(n.resource_type) + " | "@ + cell(
        match n.materialized {
            Some(m) => m,
            None => "-"@,
        },
    ) + " | "@ + decimal(n.test_count) + " | "@ + table_link(n, files) + " |\n"@
}

/// The table of all nodes.
pub open spec fn index_table(d: DagModel, files: Map<Text, Text>) -> Text {
    "\n## Nodes\n\n"@ + "| Name | Type | Materialization | Tests | Doc |\n"@ + "| --- | --- | --- | --- | --- |\n"@ + rendered(
        index_order(d),
        |n: NodeModel| index_row(n, files),
    )
}

/// From this many nodes on, the whole graph is drawn in parts.
pub const FULL_GRAPH_NODE_LIMIT: usize = 150;

/// The subgraph of some nodes: those nodes in the given order, and every edge
/// between them; no node is marked.
pub open spec fn part_of(d: DagModel, ids: Seq<Text>) -> SubgraphModel {
    SubgraphModel {
        selected: Seq::empty(),
        nodes: ids.map_values(|u: Text| d.nodes[u]),
        edges: edge_list(d).filter(|e: (Text, Text)| ids.contains(e.0) && ids.contains(e.1)),
    }
}

/// The whole graph as a subgraph.
pub open spec fn whole(d: DagModel) -> SubgraphModel {
    SubgraphModel {
        selected: Seq::empty(),
        nodes: listing(d.nodes.dom()).map_values(|u: Text| d.nodes[u]),
        edges: edge_list(d),
    }
}

/// The part of the drawing that a node belongs to: models by layer, then the
/// other resource types, then the rest.
pub open spec fn bucket_of(n: NodeModel) -> nat {
    if n.resource_type == "model"@ {
        rank_of(layer_or(n, ""@))
    } else if resource_rank_of(n.resource_type) < 5 {
        4 + resource_rank_of(n.resource_type)
    } else {
        9
    }
}

/// The name of a part.
pub open spec fn bucket_label(b: nat) -> Text {
    if b == 0 {
        "staging"@
    } else if b == 1 {
        "intermediate"@
    } else if b == 2 {
        "marts"@
    } else if b == 3 {
        "utilities"@
    } else if b == 4 {
        "other models"@
    } else if b == 5 {
        "snapshots"@
    } else if b == 6 {
        "seeds"@
    } else if b == 7 {
        "sources"@
    } else if b == 8 {
        "exposures"@
    } else {
        "other"@
    }
}

/// The ids of a part, ascending.
pub open spec fn bucket_ids(d: DagModel, b: nat) -> Seq<Text> {
    listing(d.nodes.dom()).filter(|u: Text| bucket_of(d.nodes[u]) == b)
}

/// One part of a drawing in parts: its name and the ids of its nodes.
#[derive(Debug, PartialEq, Eq)]
pub struct LayerGroup {
    pub label: String,
    pub uids: Vec<String>,
}

/// Model of [`LayerGroup`].
pub struct GroupModel {
    pub label: Text,
    pub uids: Seq<Text>,
}

impl DeepView for LayerGroup {
    type V = GroupModel;

    open spec fn deep_view(&self) -> GroupModel {
        GroupModel { label: self.label@, uids: self.uids.deep_view() }
    }
}

/// Those of the first `n` parts that have a node.
pub open spec fn groups_upto(d: DagModel, n: nat) -> Seq<GroupModel>
    decreases n,
{
    if n == 0 {
        Seq::empty()
    } else {
        let b = (n - 1) as nat;
        let before = groups_upto(d, b);
        if bucket_ids(d, b).len() == 0 {
            before
        } else {
            before.push(GroupModel { label: bucket_label(b), uids: bucket_ids(d, b) })
        }
    }
}

/// The parts of a drawing in parts: every node by its layer or resource type.
pub open spec fn groups_of(d: DagModel) -> Seq<GroupModel> {
    groups_upto(d, 10)
}

/// A part of the drawing.
pub open spec fn group_text(d: DagModel, g: GroupModel, files: Map<Text, Text>) -> Text {
    "\n### "@ + g.label + " ("@ + decimal(g.uids.len()) + ")\n\n"@ + linked_diagram(d, part_of(d, g.uids), files)
}

/// What introduces a drawing in parts.
pub open spec fn split_note(n: nat) -> Text {
    "This project has "@ + decimal(n) + " nodes (>= "@ + decimal(FULL_GRAPH_NODE_LIMIT as nat)
        + " threshold), so the full graph is split by layer below — one diagram per group, intra-group edges only. For cross-layer lineage of a specific node, open its page (each carries its own neighbourhood diagram).\n"@
}

/// The drawing of the whole graph: in one piece, or in parts where it is large.
pub open spec fn index_lineage(d: DagModel, files: Map<Text, Text>) -> Text {
    "\n## Lineage\n\n"@ + if d.nodes.dom().len() == 0 {
        "No nodes.\n"@
    } else if d.nodes.dom().len() < FULL_GRAPH_NODE_LIMIT {
        linked_diagram(d, whole(d), files)
    } else {
        split_note(d.nodes.dom().len()) + rendered(groups_of(d), |g: GroupModel| group_text(d, g, files))
    }
}

/// The index of the documentation.
pub open spec fn index_text(d: DagModel, project: Text, source: Text, files: Map<Text, Text>) -> Text {
    "# "@ + project + "\n\n"@ + "Generated from: `"@ + source + "`\n\n"@ + index_summary(d) + index_coverage(d) + index_orphans(
        d,
        files,
    ) + index_table(d, files) + index_lineage(d, files)
}

/// The whole documentation: the pages by id, then the index.
pub open spec fn docs_of(d: DagModel, project: Text, source: Text) -> Seq<(Text, Text)> {
    let files = files_of(d);
    listing(d.nodes.dom()).map_values(|u: Text| (files[u], page_text(d, u, page_links(files)))).push(
        ("README.md"@, index_text(d, project, source, files)),
    )
}

fn push_type_line(out: &mut String, dag: &Dag, rt: &str)
    requires
        dag.wf(),
    ensures
        final(out)@ == old(out)@ + type_line(dag.deep_view(), rt@),
{
    broadcast use appended_in_turn;
    let ghost o = out@;
    let n = dag.count_by_resource_type(rt);
    if n > 0 {
        out.append("- ");
        out.append(rt);
        out.append(": ");
        push_decimal(out, n);
        out.append("\n");
    }
    assert(out@ == o + type_line(dag.deep_view(), rt@));
}

fn push_summary(out: &mut String, dag: &Dag)
    requires
        dag.wf(),
    ensures
        final(out)@ == old(out)@ + index_summary(dag.deep_view()),
{
    broadcast use appended_in_turn;
    let ghost o = out@;
    out.append("## Summary\n\n");
    out.append("- total nodes: ");
    push_decimal(out, dag.len());
    out.append("\n");
    push_type_line(out, dag, "model");
    push_type_line(out, dag, "snapshot");
    push_type_line(out, dag, "seed");
    push_type_line(out, dag, "source");
    push_type_line(out, dag, "exposure");
    assert(out@ == o + index_summary(dag.deep_view()));
}

/// The share of `tested` in `total` in whole percent.
fn percent(tested: usize, total: usize) -> (r: usize)
    requires
        tested <= total,
        total > 0,
    ensures
        r == tested * 100 / total as int,
{
    let p: u128 = (tested as u128 * 100) / (total as u128);
    assert(p <= 100) by (nonlinear_arith)
        requires
            p == (tested as int * 100) / (total as int),
            tested <= total,
            total > 0,
    ;
    p as usize
}

fn push_coverage_lines(out: &mut String, tested: usize, total: usize)
    requires
        tested <= total,
        total > 0,
    ensures
        final(out)@ == old(out)@ + coverage_lines(tested as nat, total as nat),
{
    broadcast use appended_in_turn;
    let ghost o = out@;
    let share: usize = percent(tested, total);
    out.append("- tested: ");
    push_decimal(out, tested);
    out.append(" / ");
    push_decimal(out, total);
    out.append(" testable resources (model/snapshot/seed)\n");
    out.append("- coverage: ");
    push_decimal(out, share);
    out.append("%\n");
    out.append("- untested: ");
    push_decimal(out, total - tested);
    out.append("\n");
    assert(out@ == o + coverage_lines(tested as nat, total as nat));
}

fn push_coverage(out: &mut String, dag: &Dag)
    requires
        dag.wf(),
    ensures
        final(out)@ == old(out)@ + index_coverage(dag.deep_view()),
{
    broadcast use appended_in_turn;
    let ghost o = out@;
    let ghost d = dag.deep_view();
    let tested_ids = ids_passing(dag, NodeTest::Tested);
    let total_ids = ids_passing(dag, NodeTest::Testable);
    let tested: usize = tested_ids.len();
    let total: usize = total_ids.len();
    proof {
        tested_within_testable(d);
        assert(tested == tested_ids.deep_view().len());
        assert(total == total_ids.deep_view().len());
    }
    out.append("\n## Test coverage\n\n");
    if total == 0 {
        out.append("- testable resources (model/snapshot/seed): 0\n");
    } else {
        push_coverage_lines(out, tested, total);
    }
    assert(out@ == o + index_coverage(d));
}

fn push_orphans(out: &mut String, dag: &Dag, files: &StrMap<String>)
    requires
        dag.wf(),
        files.wf(),
    ensures
        final(out)@ == old(out)@ + index_orphans(dag.deep_view(), files.deep_view()),
{
    let ghost o = out@;
    let ghost d = dag.deep_view();
    let ghost fv = files.deep_view();
    let ids = ids_passing(dag, NodeTest::Leaf);
    let mut pairs: Vec<(String, String)> = Vec::new();
    let mut k: usize = 0;
    while k < ids.len()
        invariant
            dag.wf(),
            d == dag.deep_view(),
            forall|i: int| 0 <= i < ids@.len() ==> d.nodes.contains_key((#[trigger] ids@[i])@),
            k <= ids@.len(),
            pairs@.len() == k,
            forall|j: int| 0 <= j < k ==> (#[trigger] pairs@[j]).deep_view() == (d.nodes[ids@[j]@].name, ids@[j]@),
        decreases ids@.len() - k,
    {
        assert(d.nodes.contains_key(ids@[k as int]@));
        match dag.get(ids[k].as_str()) {
            Some(n) => {
                pairs.push((n.name.clone(), ids[k].clone()));
            },
            None => {},
        }
        k = k + 1;
    }
    assert(pairs.deep_view() =~= passing(d, NodeTest::Leaf).map_values(|u: Text| (d.nodes[u].name, u)));
    let leaves = sort(pairs);
    let ghost all = leaves.deep_view();
    let ghost f = |p: (Text, Text)| link_line(p.0, p.1, fv);
    out.append("\n## Orphan models\n\n");
    out.append("Models with no downstream consumer (`direct_down == 0`):\n\n");
    if leaves.len() == 0 {
        out.append("None.\n");
        assert(all.len() == 0);
        assert(out@ =~= o + index_orphans(d, fv));
        return;
    }
    let ghost o1 = out@;
    let mut i: usize = 0;
    proof {
        rendered_all(all, f);
        assert(o1 + Seq::<char>::empty() =~= o1);
    }
    while i < leaves.len()
        invariant
            files.wf(),
            fv == files.deep_view(),
            i <= leaves@.len(),
            all == leaves.deep_view(),
            f == (|p: (Text, Text)| link_line(p.0, p.1, fv)),
            out@ == o1 + rendered(all.take(i as int), f),
        decreases leaves@.len() - i,
    {
        proof {
            rendered_step(all, i as int, f);
            assert(all[i as int] == leaves@[i as int].deep_view());
        }
        push_link_line(out, leaves[i].0.as_str(), leaves[i].1.as_str(), files);
        assert(out@ =~= o1 + rendered(all.take(i + 1), f));
        i = i + 1;
    }
    assert(all.len() > 0);
    assert(out@ =~= o + index_orphans(d, fv));
}

/// All nodes in the order of the index.
fn readme_order(dag: &Dag) -> (r: Vec<NodeInfo>)
    requires
        dag.wf(),
    ensures
        r.deep_view() == index_order(dag.deep_view()),
{
    broadcast use Dag::wf_valid;
    let ghost d = dag.deep_view();
    let nodes = dag.nodes();
    let ghost ids = nodes.key_list();
    let ghost key = |u: Text| index_key(d.nodes[u]);
    let mut rows: Vec<Row> = Vec::new();
    let mut i: usize = 0;
    proof {
        nodes.keys_listed();
        assert(d.nodes.dom() =~= nodes@.dom());
    }
    while i < nodes.len()
        invariant
            nodes.wf(),
            nodes.deep_view() == d.nodes,
            ids == nodes.key_list(),
            i <= ids.len(),
            rows@.len() == i,
            forall|j: int| 0 <= j < i ==> (#[trigger] rows@[j]).deep_view() == index_key(d.nodes[ids[j]]),
        decreases ids.len() - i,
    {
        let n = nodes.value_at(i);
        assert(d.nodes[ids[i as int]] == n.deep_view());
        let kind: usize = resource_rank(n.resource_type.as_str());
        rows.push(
            Row {
                rank: kind * 5 + model_layer_rank(n),
                layer: "".to_owned(),
                weight: 0,
                name: if kind < 5 {
                    n.name.clone()
                } else {
                    "".to_owned()
                },
                uid: n.unique_id.clone(),
            },
        );
        i = i + 1;
    }
    let ghost rv = ids.map_values(key);
    proof {
        assert(rows.deep_view() =~= rv);
        in_order_rows_sorted(rv);
        assert forall|r: RowModel| #[trigger] in_order_rows(rv).contains(r) implies d.nodes.contains_key(r.uid) by {
            assert(rv.contains(r));
            let k = rv.index_of(r);
            assert(ids.to_set().contains(ids[k]));
            assert(d.nodes.contains_key(ids[k]));
        }
    }
    let ordered = sort(rows);
    let ghost ov = ordered.deep_view();
    let mut out: Vec<NodeInfo> = Vec::new();
    let mut k: usize = 0;
    while k < ordered.len()
        invariant
            dag.wf(),
            d == dag.deep_view(),
            ov == ordered.deep_view(),
            ov == in_order_rows(rv),
            forall|r: RowModel| #[trigger] in_order_rows(rv).contains(r) ==> d.nodes.contains_key(r.uid),
            k <= ordered@.len(),
            out@.len() == k,
            forall|j: int| 0 <= j < k ==> (#[trigger] out@[j]).deep_view() == d.nodes[ov[j].uid],
        decreases ordered@.len() - k,
    {
        proof {
            assert(ov[k as int] == ordered@[k as int].deep_view());
            assert(in_order_rows(rv).contains(ov[k as int]));
        }
        match dag.get(ordered[k].uid.as_str()) {
            Some(n) => {
                out.push(n.clone());
            },
            None => {},
        }
        k = k + 1;
    }
    assert(out.deep_view() =~= index_order(d));
    out
}

fn push_index_row(out: &mut String, n: &NodeInfo, files: &StrMap<String>)
    requires
        files.wf(),
    ensures
        final(out)@ == old(out)@ + index_row(n.deep_view(), files.deep_view()),
{
    broadcast use appended_in_turn;
    let ghost o = out@;
    let name = md_cell(n.name.as_str());
    out.append("| ");
    out.append(name.as_str());
    out.append(" | ");
    out.append(md_cell(n.resource_type.as_str()).as_str());
    out.append(" | ");
    match &n.materialized {
        Some(m) => out.append(md_cell(m.as_str()).as_str()),
        None => out.append(md_cell("-").as_str()),
    }
    out.append(" | ");
    push_decimal(out, n.test_count);
    out.append(" | ");
    match files.get(n.unique_id.as_str()) {
        Some(rel) => {
            out.append("[");
            out.append(name.as_str());
            out.append("](");
            out.append(rel.as_str());
            out.append(")");
        },
        None => out.append(name.as_str()),
    }
    out.append(" |\n");
    assert(out@ == o + index_row(n.deep_view(), files.deep_view()));
}

fn push_table(out: &mut String, dag: &Dag, files: &StrMap<String>)
    requires
        dag.wf(),
        files.wf(),
    ensures
        final(out)@ == old(out)@ + index_table(dag.deep_view(), files.deep_view()),
{
    let ghost o = out@;
    let ghost d = dag.deep_view();
    let ghost fv = files.deep_view();
    let nodes = readme_order(dag);
    let ghost all = nodes.deep_view();
    let ghost f = |n: NodeModel| index_row(n, fv);
    out.append("\n## Nodes\n\n");
    out.append("| Name | Type | Materialization | Tests | Doc |\n");
    out.append("| --- | --- | --- | --- | --- |\n");
    let ghost o1 = out@;
    let mut i: usize = 0;
    proof {
        rendered_all(all, f);
        assert(o1 + Seq::<char>::empty() =~= o1);
    }
    while i < nodes.len()
        invariant
            files.wf(),
            fv == files.deep_view(),
            i <= nodes@.len(),
            all == nodes.deep_view(),
            f == (|n: NodeModel| index_row(n, fv)),
            out@ == o1 + rendered(all.take(i as int), f),
        decreases nodes@.len() - i,
    {
        proof {
            rendered_step(all, i as int, f);
            assert(all[i as int] == nodes@[i as int].deep_view());
        }
        push_index_row(out, &nodes[i], files);
        assert(out@ =~= o1 + rendered(all.take(i + 1), f));
        i = i + 1;
    }
    assert(out@ =~= o + index_table(d, fv));
}

fn bucket(n: &NodeInfo) -> (r: usize)
    ensures
        r == bucket_of(n.deep_view()),
{
    if str_eq(n.resource_type.as_str(), "model") {
        layer_rank(first_dir_or(n, "").as_str())
    } else {
        let k = resource_rank(n.resource_type.as_str());
        if k < 5 {
            4 + k
        } else {
            9
        }
    }
}

fn label_of_bucket(b: usize) -> (r: &'static str)
    ensures
        r@ == bucket_label(b as nat),
{
    if b == 0 {
        "staging"
    } else if b == 1 {
        "intermediate"
    } else if b == 2 {
        "marts"
    } else if b == 3 {
        "utilities"
    } else if b == 4 {
        "other models"
    } else if b == 5 {
        "snapshots"
    } else if b == 6 {
        "seeds"
    } else if b == 7 {
        "sources"
    } else if b == 8 {
        "exposures"
    } else {
        "other"
    }
}

/// The ids of a part, ascending.
fn group_ids(dag: &Dag, b: usize) -> (r: Vec<String>)
    requires
        dag.wf(),
    ensures
        r.deep_view() == bucket_ids(dag.deep_view(), b as nat),
        forall|i: int| 0 <= i < r@.len() ==> dag.deep_view().nodes.contains_key((#[trigger] r@[i])@),
{
    let ghost d = dag.deep_view();
    let nodes = dag.nodes();
    let ghost ids = nodes.key_list();
    let ghost p = |u: Text| bucket_of(d.nodes[u]) == b as nat;
    let mut out: Vec<String> = Vec::new();
    let mut i: usize = 0;
    proof {
        nodes.keys_listed();
        assert(d.nodes.dom() =~= nodes@.dom());
        reveal(Seq::filter);
        assert(out.deep_view() =~= ids.take(0).filter(p));
    }
    while i < nodes.len()
        invariant
            nodes.wf(),
            nodes.deep_view() == d.nodes,
            ids == nodes.key_list(),
            p == (|u: Text| bucket_of(d.nodes[u]) == b as nat),
            i <= ids.len(),
            out.deep_view() == ids.take(i as int).filter(p),
            forall|j: int| 0 <= j < out@.len() ==> d.nodes.contains_key((#[trigger] out@[j])@),
        decreases ids.len() - i,
    {
        let uid = nodes.key_at(i);
        let n = nodes.value_at(i);
        let ghost o = out.deep_view();
        proof {
            reveal(Seq::filter);
            assert(ids.take(i + 1).drop_last() =~= ids.take(i as int));
            assert(d.nodes[uid@] == n.deep_view());
            assert(d.nodes.contains_key(uid@));
        }
        if bucket(n) == b {
            out.push(uid.clone());
            assert(out.deep_view() =~= o.push(uid@));
        }
        i = i + 1;
    }
    assert(ids.take(ids.len() as int) =~= ids);
    out
}

/// Parts the nodes by layer, for models, and by resource type.
pub fn layer_groups(dag: &Dag) -> (r: Vec<LayerGroup>)
    requires
        dag.wf(),
    ensures
        r.deep_view() == groups_of(dag.deep_view()),
{
    let ghost d = dag.deep_view();
    let mut out: Vec<LayerGroup> = Vec::new();
    let mut b: usize = 0;
    assert(out.deep_view() =~= groups_upto(d, 0));
    while b < 10
        invariant
            dag.wf(),
            d == dag.deep_view(),
            b <= 10,
            out.deep_view() == groups_upto(d, b as nat),
        decreases 10 - b,
    {
        let ghost o = out.deep_view();
        let uids = group_ids(dag, b);
        let ghost ids = uids.deep_view();
        if uids.len() > 0 {
            assert(ids.len() > 0);
            out.push(LayerGroup { label: label_of_bucket(b).to_owned(), uids });
            assert(out.deep_view() =~= o.push(GroupModel { label: bucket_label(b as nat), uids: ids }));
        } else {
            assert(ids.len() == 0);
        }
        b = b + 1;
    }
    out
}

/// The nodes of some ids, in order.
fn nodes_of(dag: &Dag, ids: &Vec<String>) -> (r: Vec<NodeInfo>)
    requires
        dag.wf(),
        forall|i: int| 0 <= i < ids@.len() ==> dag.deep_view().nodes.contains_key((#[trigger] ids@[i])@),
    ensures
        r.deep_view() == ids.deep_view().map_values(|u: Text| dag.deep_view().nodes[u]),
{
    let ghost d = dag.deep_view();
    let mut out: Vec<NodeInfo> = Vec::new();
    let mut i: usize = 0;
    while i < ids.len()
        invariant
            dag.wf(),
            d == dag.deep_view(),
            forall|i: int| 0 <= i < ids@.len() ==> d.nodes.contains_key((#[trigger] ids@[i])@),
            i <= ids@.len(),
            out@.len() == i,
            forall|j: int| 0 <= j < i ==> (#[trigger] out@[j]).deep_view() == d.nodes[ids@[j]@],
        decreases ids@.len() - i,
    {
        assert(d.nodes.contains_key(ids@[i as int]@));
        match dag.get(ids[i].as_str()) {
            Some(n) => {
                out.push(n.clone());
            },
            None => {},
        }
        i = i + 1;
    }
    assert(out.deep_view() =~= ids.deep_view().map_values(|u: Text| d.nodes[u]));
    out
}

/// The subgraph of some nodes.
fn part_subgraph(dag: &Dag, ids: &Vec<String>) -> (r: Subgraph)
    requires
        dag.wf(),
        forall|i: int| 0 <= i < ids@.len() ==> dag.deep_view().nodes.contains_key((#[trigger] ids@[i])@),
    ensures
        r.deep_view() == part_of(dag.deep_view(), ids.deep_view()),
{
    let ghost d = dag.deep_view();
    let ghost iv = ids.deep_view();
    let nodes = nodes_of(dag, ids);
    let pairs = dag.edges();
    let ghost all = pairs.deep_view();
    let ghost p = |e: (Text, Text)| iv.contains(e.0) && iv.contains(e.1);
    let mut edges: Vec<Edge> = Vec::new();
    let mut i: usize = 0;
    proof {
        reveal(Seq::filter);
        assert(edges.deep_view() =~= all.take(0).filter(p));
    }
    while i < pairs.len()
        invariant
            i <= pairs@.len(),
            all == pairs.deep_view(),
            iv == ids.deep_view(),
            p == (|e: (Text, Text)| iv.contains(e.0) && iv.contains(e.1)),
            edges.deep_view() == all.take(i as int).filter(p),
        decreases pairs@.len() - i,
    {
        let ghost o = edges.deep_view();
        proof {
            reveal(Seq::filter);
            assert(all[i as int] == pairs@[i as int].deep_view());
            assert(all.take(i + 1).drop_last() =~= all.take(i as int));
        }
        if crate::sorted::contains_str(ids, pairs[i].0.as_str()) && crate::sorted::contains_str(ids, pairs[i].1.as_str()) {
            edges.push(Edge { parent: pairs[i].0.clone(), child: pairs[i].1.clone() });
            assert(edges.deep_view() =~= o.push(all[i as int]));
        }
        i = i + 1;
    }
    assert(all.take(all.len() as int) =~= all);
    Subgraph { selected: String::new(), nodes, edges }
}

/// The whole graph as a subgraph.
fn full_subgraph(dag: &Dag) -> (r: Subgraph)
    requires
        dag.wf(),
    ensures
        r.deep_view() == whole(dag.deep_view()),
{
    let ghost d = dag.deep_view();
    let ids = ids_passing(dag, NodeTest::Any);
    proof {
        all_pass(listing(d.nodes.dom()), |u: Text| crate::app::analysis::passes(d, NodeTest::Any, u));
    }
    let nodes = nodes_of(dag, &ids);
    let pairs = dag.edges();
    let mut edges: Vec<Edge> = Vec::new();
    let mut i: usize = 0;
    while i < pairs.len()
        invariant
            i <= pairs@.len(),
            edges@.len() == i,
            forall|j: int| 0 <= j < i ==> (#[trigger] edges@[j]).deep_view() == pairs@[j].deep_view(),
        decreases pairs@.len() - i,
    {
        edges.push(Edge { parent: pairs[i].0.clone(), child: pairs[i].1.clone() });
        i = i + 1;
    }
    assert(edges.deep_view() =~= pairs.deep_view());
    Subgraph { selected: String::new(), nodes, edges }
}

proof fn all_pass(s: Seq<Text>, p: spec_fn(Text) -> bool)
    requires
        forall|u: Text| #[trigger] p(u),
    ensures
        s.filter(p) == s,
    decreases s.len(),
{
    reveal(Seq::filter);
    if s.len() > 0 {
        all_pass(s.drop_last(), p);
        assert(s.drop_last().push(s.last()) =~= s);
    } else {
        assert(s.filter(p) =~= s);
    }
}

fn push_group(out: &mut String, dag: &Dag, g: &LayerGroup, files: &StrMap<String>)
    requires
        dag.wf(),
        files.wf(),
        forall|i: int| 0 <= i < g.uids@.len() ==> dag.deep_view().nodes.contains_key((#[trigger] g.uids@[i])@),
    ensures
        final(out)@ == old(out)@ + group_text(dag.deep_view(), g.deep_view(), files.deep_view()),
{
    broadcast use appended_in_turn;
    let ghost o = out@;
    let sg = part_subgraph(dag, &g.uids);
    out.append("\n### ");
    out.append(g.label.as_str());
    out.append(" (");
    push_decimal(out, g.uids.len());
    out.append(")\n\n");
    push_linked_diagram(out, dag, &sg, files);
    assert(out@ == o + group_text(dag.deep_view(), g.deep_view(), files.deep_view()));
}

fn push_readme_lineage(out: &mut String, dag: &Dag, files: &StrMap<String>)
    requires
        dag.wf(),
        files.wf(),
    ensures
        final(out)@ == old(out)@ + index_lineage(dag.deep_view(), files.deep_view()),
{
    let ghost o = out@;
    let ghost d = dag.deep_view();
    let ghost fv = files.deep_view();
    let n: usize = dag.len();
    out.append("\n## Lineage\n\n");
    if n == 0 {
        out.append("No nodes.\n");
    } else if n < FULL_GRAPH_NODE_LIMIT {
        let sg = full_subgraph(dag);
        push_linked_diagram(out, dag, &sg, files);
    } else {
        let ghost o0 = out@;
        out.append("This project has ");
        push_decimal(out, n);
        out.append(" nodes (>= ");
        push_decimal(out, FULL_GRAPH_NODE_LIMIT);
        out.append(
            " threshold), so the full graph is split by layer below — one diagram per group, intra-group edges only. For cross-layer lineage of a specific node, open its page (each carries its own neighbourhood diagram).\n",
        );
        assert(out@ =~= o0 + split_note(n as nat));
        let ghost o1 = out@;
        let groups = layer_groups(dag);
        let ghost all = groups.deep_view();
        let ghost f = |g: GroupModel| group_text(d, g, fv);
        let mut i: usize = 0;
        proof {
            rendered_all(all, f);
            assert(o1 + Seq::<char>::empty() =~= o1);
        }
        while i < groups.len()
            invariant
                dag.wf(),
                files.wf(),
                d == dag.deep_view(),
                fv == files.deep_view(),
                all == groups.deep_view(),
                all == groups_of(d),
                f == (|g: GroupModel| group_text(d, g, fv)),
                i <= groups@.len(),
                out@ == o1 + rendered(all.take(i as int), f),
            decreases groups@.len() - i,
        {
            proof {
                broadcast use Dag::wf_valid;
                rendered_step(all, i as int, f);
                assert(all[i as int] == groups@[i as int].deep_view());
                assert forall|j: int| 0 <= j < groups@[i as int].uids@.len() implies d.nodes.contains_key(
                    (#[trigger] groups@[i as int].uids@[j])@,
                ) by {
                    let g = all[i as int];
                    assert(g.uids[j] == groups@[i as int].uids@[j]@);
                    assert(g.uids.contains(g.uids[j]));
                    groups_hold(d, 10, i as int, g.uids[j]);
                }
            }
            push_group(out, dag, &groups[i], files);
            assert(out@ =~= o1 + rendered(all.take(i + 1), f));
            i = i + 1;
        }
    }
    assert(out@ =~= o + index_lineage(d, fv));
}

/// The index of the documentation.
pub fn readme_markdown(dag: &Dag, project_name: &str, source_label: &str, files: &StrMap<String>) -> (r: String)
    requires
        dag.wf(),
        files.wf(),
    ensures
        r@ == index_text(dag.deep_view(), project_name@, source_label@, files.deep_view()),
{
    let mut out = "# ".to_owned();
    out.append(project_name);
    out.append("\n\n");
    out.append("Generated from: `");
    out.append(source_label);
    out.append("`\n\n");
    push_summary(&mut out, dag);
    push_coverage(&mut out, dag);
    push_orphans(&mut out, dag, files);
    push_table(&mut out, dag, files);
    push_readme_lineage(&mut out, dag, files);
    out
}

/// The documentation of a graph: a page for every node, in ascending order of
/// the ids, and the index `README.md`.
pub fn generate_docs(dag: &Dag, project_name: &str, source_label: &str) -> (r: Vec<(String, String)>)
    requires
        dag.wf(),
    ensures
        r.deep_view() == docs_of(dag.deep_view(), project_name@, source_label@),
{
    broadcast use Dag::wf_valid;
    let ghost d = dag.deep_view();
    let files = node_files(dag);
    let links = links_between(&files);
    let ghost fv = files.deep_view();
    let nodes = dag.nodes();
    let ghost ids = nodes.key_list();
    proof {
        nodes.keys_listed();
        assert(d.nodes.dom() =~= nodes@.dom());
        given_facts(ids, Set::empty(), |u: Text| stem_of(u));
    }
    let mut out: Vec<(String, String)> = Vec::new();
    let mut i: usize = 0;
    while i < nodes.len()
        invariant
            dag.wf(),
            d == dag.deep_view(),
            nodes.wf(),
            ids == nodes.key_list(),
            files.wf(),
            links.wf(),
            fv == files.deep_view(),
            links.deep_view() == page_links(fv),
            forall|u: Text| #[trigger] fv.contains_key(u) <==> ids.contains(u),
            i <= ids.len(),
            out@.len() == i,
            forall|j: int| 0 <= j < i ==> (#[trigger] out@[j]).deep_view() == (fv[ids[j]], page_text(d, ids[j], page_links(fv))),
        decreases ids.len() - i,
    {
        let uid = nodes.key_at(i);
        proof {
            assert(ids.contains(ids[i as int]));
            assert(fv.contains_key(uid@));
        }
        match files.get(uid.as_str()) {
            Some(path) => {
                out.push((path.clone(), node_markdown(dag, uid.as_str(), &links)));
            },
            None => {},
        }
        i = i + 1;
    }
    let index = ("README.md".to_owned(), readme_markdown(dag, project_name, source_label, &files));
    let ghost xv = index.deep_view();
    out.push(index);
    assert(out.deep_view() =~= docs_of(d, project_name@, source_label@));
    out
}

// ---- laws ----

/// No two nodes share a page, and no page overwrites the index.
pub proof fn pages_are_distinct(d: DagModel, u: Text, v: Text)
    requires
        d.valid(),
        d.nodes.contains_key(u),
        d.nodes.contains_key(v),
    ensures
        files_of(d).contains_key(u),
        files_of(d)[u] == files_of(d)[v] ==> u == v,
        files_of(d)[u] != "README.md"@,
{
    let base = |w: Text| stem_of(w);
    let ids = listing(d.nodes.dom());
    listing_exists(d.nodes.dom());
    given_facts(ids, Set::empty(), base);
    let g = given(ids, Set::empty(), base).ids;
    assert(ids.contains(u) && ids.contains(v));
    assert(g.contains_key(u) && g.contains_key(v));
    reveal_strlit("models/");
    reveal_strlit(".md");
    reveal_strlit("README.md");
    let a = files_of(d)[u];
    let b = files_of(d)[v];
    assert(a == page_path(g[u]) && b == page_path(g[v]));
    assert(a[0] == 'm');
    assert("README.md"@[0] == 'R');
    if a == b {
        let n = a.len() as int;
        assert(a.subrange(7, n - 3) =~= g[u]);
        assert(b.subrange(7, n - 3) =~= g[v]);
        if u != v {
            assert(g[u] != g[v]);
        }
    }
}

/// Every node belongs to exactly one part of a drawing in parts, and the parts
/// hold nothing else.
pub proof fn parts_partition(d: DagModel, u: Text)
    requires
        d.valid(),
    ensures
        d.nodes.contains_key(u) <==> exists|i: int|
            0 <= i < groups_of(d).len() && (#[trigger] groups_of(d)[i]).uids.contains(u),
        forall|i: int, j: int|
            0 <= i < groups_of(d).len() && 0 <= j < groups_of(d).len() && (#[trigger] groups_of(d)[i]).uids.contains(u)
                && (#[trigger] groups_of(d)[j]).uids.contains(u) ==> i == j,
{
    let gs = groups_of(d);
    assert forall|i: int| 0 <= i < gs.len() && (#[trigger] gs[i]).uids.contains(u) implies d.nodes.contains_key(u) by {
        groups_hold(d, 10, i, u);
    }
    assert forall|i: int, j: int|
        0 <= i < gs.len() && 0 <= j < gs.len() && (#[trigger] gs[i]).uids.contains(u) && (#[trigger] gs[j]).uids.contains(
            u,
        ) implies i == j by {
        groups_apart(d, 10, i, j, u);
    }
    if d.nodes.contains_key(u) {
        groups_cover(d, 10, u);
    }
}

proof fn bucket_holds(d: DagModel, b: nat, u: Text)
    requires
        d.valid(),
    ensures
        bucket_ids(d, b).contains(u) <==> d.nodes.contains_key(u) && b == bucket_of(d.nodes[u]),
{
    listing_exists(d.nodes.dom());
    filter_keeps(listing(d.nodes.dom()), |w: Text| bucket_of(d.nodes[w]) == b, u);
}

proof fn groups_hold(d: DagModel, n: nat, i: int, u: Text)
    requires
        d.valid(),
        0 <= i < groups_upto(d, n).len(),
        groups_upto(d, n)[i].uids.contains(u),
    ensures
        d.nodes.contains_key(u),
        bucket_of(d.nodes[u]) < n,
    decreases n,
{
    let b = (n - 1) as nat;
    bucket_holds(d, b, u);
    if i < groups_upto(d, b).len() {
        groups_hold(d, b, i, u);
    }
}

proof fn groups_apart(d: DagModel, n: nat, i: int, j: int, u: Text)
    requires
        d.valid(),
        0 <= i < groups_upto(d, n).len(),
        0 <= j < groups_upto(d, n).len(),
        groups_upto(d, n)[i].uids.contains(u),
        groups_upto(d, n)[j].uids.contains(u),
    ensures
        i == j,
    decreases n,
{
    let b = (n - 1) as nat;
    let before = groups_upto(d, b);
    bucket_holds(d, b, u);
    if i < before.len() {
        groups_hold(d, b, i, u);
    }
    if j < before.len() {
        groups_hold(d, b, j, u);
    }
    if i < before.len() && j < before.len() {
        groups_apart(d, b, i, j, u);
    }
}

proof fn groups_cover(d: DagModel, n: nat, u: Text)
    requires
        d.valid(),
        d.nodes.contains_key(u),
        bucket_of(d.nodes[u]) < n,
    ensures
        exists|i: int| 0 <= i < groups_upto(d, n).len() && (#[trigger] groups_upto(d, n)[i]).uids.contains(u),
    decreases n,
{
    let b = (n - 1) as nat;
    let before = groups_upto(d, b);
    bucket_holds(d, b, u);
    if bucket_of(d.nodes[u]) < b {
        groups_cover(d, b, u);
        let i = choose|i: int| 0 <= i < before.len() && (#[trigger] before[i]).uids.contains(u);
        assert(groups_upto(d, n)[i] == before[i]);
    } else {
        assert(bucket_ids(d, b).contains(u));
        assert(groups_upto(d, n)[before.len() as int].uids == bucket_ids(d, b));
    }
}

} // verus!
