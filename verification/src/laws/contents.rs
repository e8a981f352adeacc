//! What the index, the pages, the status line and the palette show.

use vstd::prelude::*;

use super::pull::{place_is_rank, stands_at};
use super::rows::found_at;
use super::stats::{can_be_tested, impact_is_counted, nodes_where, types_are_counted};
use super::texts::holds_text;
use super::written::{holds_in_sum, page, readme};
use crate::action::{binding_table, keys_label, offered, offers, Action, BindingModel, ModeKind};
use crate::app::analysis::{impact_text, NodeTest};
use crate::app::{diff_chip, AppModel};
use crate::dag::{DagModel, NodeModel};
use crate::diff::{DiffModel};
use crate::docs::{
    bucket_ids, bucket_label, bucket_of, coverage_lines, groups_of, groups_upto, index_coverage, index_key, index_order, index_summary, page_description,
    page_head, page_lineage, page_side, page_tests, page_columns, resource_rank_of, type_line,
};
use crate::graph::reach;
use crate::layout::GlyphMode;
use crate::model_list::{in_order_rows, in_order_rows_sorted, row_le, RowModel};
use crate::sorted::{filter_keeps, listing, listing_exists};
use crate::text::{decimal, text_le, text_lt_irreflexive, trimmed, Text};

verus! {

// ---- the index ----

/// The index counts the nodes of each resource type that there are.
pub proof fn index_counts_types(d: DagModel, project: Text, source: Text, rt: Text)
    requires
        d.valid(),
        rt == "model"@ || rt == "snapshot"@ || rt == "seed"@ || rt == "source"@ || rt == "exposure"@,
        nodes_where(d, |u: Text| d.nodes[u].resource_type == rt).len() > 0,
    ensures
        ({
            let n = nodes_where(d, |u: Text| d.nodes[u].resource_type == rt).len();
            holds_text(readme(d, project, source), "- "@ + rt + ": "@ + decimal(n) + "\n"@)
        }),
{
    broadcast use holds_in_sum;
    types_are_counted(d, rt);
    let n = nodes_where(d, |u: Text| d.nodes[u].resource_type == rt).len();
    let line = "- "@ + rt + ": "@ + decimal(n) + "\n"@;
    assert(type_line(d, rt) == line);
    let e = Seq::<char>::empty();
    super::texts::holds_between(e, line, e);
    assert(e + line + e =~= line);
    assert(holds_text(index_summary(d), line));
}

/// The index says how many of the resources that can be tested are, how many
/// are not, and the share in whole percent, cut off.
pub proof fn index_counts_coverage(d: DagModel, project: Text, source: Text)
    requires
        d.valid(),
        d.nodes.dom().len() <= usize::MAX,
        nodes_where(d, |u: Text| can_be_tested(d, u)).len() > 0,
    ensures
        ({
            let total = nodes_where(d, |u: Text| can_be_tested(d, u)).len();
            let tested = nodes_where(d, |u: Text| can_be_tested(d, u) && d.nodes[u].test_count > 0).len();
            holds_text(
                readme(d, project, source),
                "- tested: "@ + decimal(tested) + " / "@ + decimal(total) + " testable resources (model/snapshot/seed)\n"@ + "- coverage: "@
                    + decimal(tested * 100 / total) + "%\n"@ + "- untested: "@ + decimal((total - tested) as nat) + "\n"@,
            )
        }),
{
    broadcast use holds_in_sum;
    let total = nodes_where(d, |u: Text| can_be_tested(d, u)).len();
    let tested = nodes_where(d, |u: Text| can_be_tested(d, u) && d.nodes[u].test_count > 0).len();
    super::stats::passing_where(d, NodeTest::Testable, |u: Text| can_be_tested(d, u));
    super::stats::passing_where(d, NodeTest::Tested, |u: Text| can_be_tested(d, u) && d.nodes[u].test_count > 0);
    let lines = coverage_lines(tested, total);
    let e = Seq::<char>::empty();
    super::texts::holds_between(e, lines, e);
    assert(e + lines + e =~= lines);
    assert(holds_text(index_coverage(d), lines));
}

/// The place of a resource type in the index.
pub open spec fn type_place(rt: Text) -> int {
    if rt == "model"@ {
        0
    } else if rt == "snapshot"@ {
        1
    } else if rt == "seed"@ {
        2
    } else if rt == "source"@ {
        3
    } else if rt == "exposure"@ {
        4
    } else {
        5
    }
}

/// The index goes by resource type, models first, then by the place of the
/// layer in the flow, then by name.
pub proof fn index_is_in_order(d: DagModel, i: int, j: int)
    requires
        d.valid(),
        0 <= i < j < index_order(d).len(),
    ensures
        ({
            let a = index_order(d)[i];
            let b = index_order(d)[j];
            &&& type_place(a.resource_type) <= type_place(b.resource_type)
            &&& a.resource_type == "model"@ && b.resource_type == "model"@ ==> forall|x: int, y: int| #[trigger]
                stands_at(a, x) && #[trigger] stands_at(b, y) ==> x <= y
            &&& a.resource_type == "model"@ && b.resource_type == "model"@ && (exists|x: int| #[trigger] stands_at(a, x) && stands_at(b, x))
                ==> text_le(a.name, b.name)
            &&& a.resource_type == b.resource_type && 1 <= type_place(a.resource_type) < 5 ==> text_le(a.name, b.name)
        }),
{
    broadcast use text_lt_irreflexive;
    let ids = listing(d.nodes.dom());
    listing_exists(d.nodes.dom());
    let keys = ids.map_values(|u: Text| index_key(d.nodes[u]));
    let l = in_order_rows(keys);
    let list = index_order(d);
    in_order_rows_sorted(keys);
    let le = |a: RowModel, b: RowModel| row_le(a, b);
    assert(le(l[i], l[j]));
    assert forall|k: int| 0 <= k < l.len() implies #[trigger] l[k] == index_key(list[k]) by {
        assert(l.contains(l[k]));
        assert(keys.contains(l[k]));
        let m = keys.index_of(l[k]);
        assert(ids.contains(ids[m]));
        assert(d.nodes.contains_key(ids[m]));
        assert(keys[m] == index_key(d.nodes[ids[m]]));
    }
    let a = list[i];
    let b = list[j];
    assert(type_place(a.resource_type) == resource_rank_of(a.resource_type));
    assert(type_place(b.resource_type) == resource_rank_of(b.resource_type));
    assert forall|x: int, y: int| a.resource_type == "model"@ && b.resource_type == "model"@ && #[trigger] stands_at(a, x) && #[trigger] stands_at(
        b,
        y,
    ) implies x <= y by {
        place_is_rank(a, x);
        place_is_rank(b, y);
    }
    if exists|x: int| #[trigger] stands_at(a, x) && stands_at(b, x) {
        let x = choose|x: int| #[trigger] stands_at(a, x) && stands_at(b, x);
        place_is_rank(a, x);
        place_is_rank(b, x);
    }
}

/// The parts that a large graph is drawn in.
pub open spec fn part_names() -> Seq<Text> {
    seq![
        "staging"@,
        "intermediate"@,
        "marts"@,
        "utilities"@,
        "other models"@,
        "snapshots"@,
        "seeds"@,
        "sources"@,
        "exposures"@,
        "other"@,
    ]
}

/// The part that a node belongs to: models by the place of their layer in the
/// flow, other nodes by their resource type.
pub open spec fn belongs_to(n: NodeModel, b: int) -> bool {
    if n.resource_type == "model"@ {
        stands_at(n, b)
    } else {
        b == 4 + type_place(n.resource_type)
    }
}

proof fn part_is_bucket(n: NodeModel, b: nat)
    ensures
        belongs_to(n, b as int) <==> bucket_of(n) == b,
{
    if n.resource_type == "model"@ {
        place_is_rank(n, b as int);
    }
}

proof fn groups_are_named(d: DagModel, n: nat, i: int)
    requires
        d.valid(),
        n <= 10,
        0 <= i < groups_upto(d, n).len(),
    ensures
        exists|b: int| 0 <= b < n && groups_upto(d, n)[i].label == #[trigger] part_names()[b] && groups_upto(d, n)[i].uids == bucket_ids(d, b as nat),
    decreases n,
{
    let b = (n - 1) as nat;
    let before = groups_upto(d, b);
    if i < before.len() {
        groups_are_named(d, b, i);
        let c = choose|c: int| 0 <= c < b && before[i].label == #[trigger] part_names()[c] && before[i].uids == bucket_ids(d, c as nat);
        assert(groups_upto(d, n)[i] == before[i]);
        assert(groups_upto(d, n)[i].label == part_names()[c]);
    } else {
        assert(bucket_label(b) == part_names()[b as int]);
    }
}

/// Each part of a large graph is named after what its nodes have in common, and
/// has every node that belongs there and no other.
pub proof fn parts_are_by_layer_and_type(d: DagModel, i: int) -> (b: int)
    requires
        d.valid(),
        0 <= i < groups_of(d).len(),
    ensures
        0 <= b < 10,
        groups_of(d)[i].label == part_names()[b],
        forall|u: Text| #[trigger] groups_of(d)[i].uids.contains(u) <==> d.nodes.contains_key(u) && belongs_to(d.nodes[u], b),
{
    groups_are_named(d, 10, i);
    let b = choose|b: int| 0 <= b < 10 && groups_of(d)[i].label == #[trigger] part_names()[b] && groups_of(d)[i].uids == bucket_ids(d, b as nat);
    listing_exists(d.nodes.dom());
    assert forall|u: Text| #[trigger] groups_of(d)[i].uids.contains(u) <==> d.nodes.contains_key(u) && belongs_to(d.nodes[u], b) by {
        filter_keeps(listing(d.nodes.dom()), |w: Text| bucket_of(d.nodes[w]) == b as nat, u);
        part_is_bucket(d.nodes[u], b as nat);
    }
    b
}

// ---- pages ----

/// A text as code, `none` where there is none.
pub open spec fn as_code(v: Option<Text>) -> Text {
    if v is Some && v->0.len() > 0 {
        "`"@ + v->0 + "`"@
    } else {
        "none"@
    }
}

/// The tags as code, with commas between them.
pub open spec fn tag_list(tags: Seq<Text>) -> Text {
    if tags.len() == 0 {
        "none"@
    } else {
        crate::text::joined(tags.map_values(|t: Text| "`"@ + t + "`"@), ", "@)
    }
}

/// A page begins with the facts of its node: name, resource type,
/// materialization, database, schema, tags, id and file.
pub proof fn pages_begin_with_the_facts(d: DagModel, u: Text) -> (rest: Text)
    requires
        d.nodes.contains_key(u),
        d.details.contains_key(u),
    ensures
        ({
            let n = d.nodes[u];
            let x = d.details[u];
            let mat = if n.materialized is Some { n.materialized } else { x.materialized };
            page(d, u) == "# "@ + n.name + "\n\n"@ + "- resource type: `"@ + n.resource_type + "`\n"@ + "- materialization: "@ + as_code(mat)
                + "\n"@ + ("- database: "@ + as_code(x.database) + "\n"@ + "- schema: "@ + as_code(x.schema) + "\n"@ + "- tags: "@ + tag_list(x.tags)
                + "\n"@) + "- unique_id: `"@ + u + "`\n"@ + "- source file: "@ + as_code(x.original_file_path) + "\n"@ + rest
        }),
{
    let links = crate::docs::page_links(crate::docs::files_of(d));
    let x = d.details[u];
    let head = page_head(d.nodes[u], u, Some(x));
    let b = page_description(Some(x));
    let c = page_columns(x.columns);
    let t = page_tests(crate::dag::at(d.tests, u));
    let up = page_side(d, u, true, links);
    let down = page_side(d, u, false, links);
    let l = page_lineage(d, u, links);
    let rest = b + c + t + up + down + l;
    assert(page(d, u) == head + b + c + t + up + down + l);
    assert(head + b + c + t + up + down + l =~= head + rest);
    rest
}

/// A page has the description of its node, and says how many parents, children,
/// ancestors and descendants that has.
pub proof fn pages_describe_and_count(d: DagModel, u: Text)
    requires
        d.nodes.contains_key(u),
        d.details.contains_key(u),
    ensures
        ({
            let words = if d.details[u].description is Some { d.details[u].description->0 } else { "No description."@ };
            &&& holds_text(page(d, u), "\n## Description\n\n"@ + words + "\n"@)
            &&& holds_text(
                page(d, u),
                "\n## Upstream dependencies\n\n"@ + "- direct parents: "@ + decimal(d.nodes[u].direct_up) + "\n- transitive ancestors: "@ + decimal(
                    reach(d.parents, u, None).len(),
                ) + "\n\n"@,
            )
            &&& holds_text(
                page(d, u),
                "\n## Downstream dependencies\n\n"@ + "- direct children: "@ + decimal(d.nodes[u].direct_down) + "\n- transitive descendants: "@
                    + decimal(reach(d.children, u, None).len()) + "\n\n"@,
            )
        }),
{
    broadcast use holds_in_sum;
    let links = crate::docs::page_links(crate::docs::files_of(d));
    let e = Seq::<char>::empty();
    let b = page_description(Some(d.details[u]));
    super::texts::holds_between(e, b, e);
    assert(e + b + e =~= b);
    let up = "\n## Upstream dependencies\n\n"@ + "- direct parents: "@ + decimal(d.nodes[u].direct_up) + "\n- transitive ancestors: "@ + decimal(
        reach(d.parents, u, None).len(),
    ) + "\n\n"@;
    super::texts::holds_between(e, up, e);
    assert(e + up + e =~= up);
    assert(holds_text(page_side(d, u, true, links), up));
    let down = "\n## Downstream dependencies\n\n"@ + "- direct children: "@ + decimal(d.nodes[u].direct_down) + "\n- transitive descendants: "@
        + decimal(reach(d.children, u, None).len()) + "\n\n"@;
    super::texts::holds_between(e, down, e);
    assert(e + down + e =~= down);
    assert(holds_text(page_side(d, u, false, links), down));
}

// ---- the status line ----

/// The status line counts what is downstream of the selected model, exposures
/// aside, and what is upstream, and then the exposures where there are any.
pub proof fn status_counts_the_reach(a: AppModel, u: Text)
    requires
        a.dag.valid(),
        a.selected_id() == Some(u),
        a.dag.nodes.contains_key(u),
    ensures
        ({
            let down = reach(a.dag.children, u, None);
            let others = down.filter(|w: Text| a.dag.nodes[w].resource_type != "exposure"@).len();
            let exposed = down.filter(|w: Text| a.dag.nodes[w].resource_type == "exposure"@).len();
            let up = reach(a.dag.parents, u, None).len();
            let (v, w) = match a.glyphs {
                GlyphMode::Unicode => ("↓"@, "↑"@),
                GlyphMode::Ascii => ("v"@, "^"@),
            };
            let base = "impact "@ + v + decimal(others) + " "@ + w + decimal(up);
            impact_text(a) == Some(if exposed > 0 { base + " exp:"@ + decimal(exposed) } else { base })
        }),
{
    impact_is_counted(a.dag, u);
    let d = a.dag;
    let down = reach(d.children, u, None);
    assert(down.filter(|w: Text| a.dag.nodes[w].resource_type != "exposure"@) =~= down.filter(|w: Text| d.nodes[w].resource_type != "exposure"@));
}

/// The chip on the difference is clean exactly where nothing was added, removed
/// or modified, edges included; else it counts the nodes.
pub proof fn chip_counts_the_changes(x: DiffModel)
    requires
        x.added.finite(),
        x.modified.dom().finite(),
    ensures
        ({
            let same = x.added.len() == 0 && x.removed.len() == 0 && x.modified.dom().len() == 0 && x.edges_added.len() == 0
                && x.edges_removed.len() == 0;
            diff_chip(Some(x)) == Some(
                if same {
                    "diff clean"@
                } else {
                    "diff +"@ + decimal(x.added.len()) + " ~"@ + decimal(x.modified.dom().len()) + " -"@ + decimal(x.removed.len())
                },
            )
        }),
        diff_chip(None) is None,
{
    if x.added.len() == 0 {
        assert(x.added =~= Set::<Text>::empty());
    }
}

// ---- the palette ----

/// The palette offers the commands of the selection mode, but for opening it,
/// whose help or keys the query matches, and all of them for a blank query.
pub proof fn palette_offers_the_matching(q: Text, b: BindingModel)
    ensures
        offers(q).contains(b) <==> binding_table().contains(b) && b.mode == ModeKind::Selection && b.action != Action::PaletteOpen && (trimmed(q).len()
            == 0 || (q.len() > 0 && ((exists|p: Seq<nat>| found_at(q, b.help, p)) || exists|p: Seq<nat>|
            found_at(q, keys_label(b.triggers), p)))),
{
    filter_keeps(binding_table(), |x: BindingModel| offered(x, q), b);
    super::rows::queries_match_in_order(q, b.help);
    super::rows::queries_match_in_order(q, keys_label(b.triggers));
}

} // verus!
