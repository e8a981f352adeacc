//! What the reports name, line by line, and what the suggested command selects.

use vstd::prelude::*;

use super::texts::{decimals_read_back, every_part_is_written, holds_text, number};
use super::written::holds_in_sum;
use crate::action::DiffViewModel;
use crate::app::analysis::{exposed_ids, exposures_below};
use crate::app::report::{
    bullet, bullets, exposure_line, exposures_section, hub_line, hubs_section, impact_text_of, is_listed, names_in, names_section, pr_changes,
    pr_radius, pr_risks, pr_text, row_text, section_text, selector_command, RowStyle,
};
use crate::app::LineageView;
use crate::dag::{DagModel, ExposureModel, NodeModel};
use crate::graph::{reach, reach_stays};
use crate::sorted::{filter_keeps, in_order, in_order_sorted, listing, listing_exists};
use crate::text::{decimal, Text};

verus! {

// ---- the impact report ----

proof fn name_is_listed(d: DagModel, ids: Set<Text>, exposures: bool, v: Text)
    requires
        ids.finite(),
        ids.contains(v),
        d.nodes.contains_key(v),
        exposures || d.nodes[v].resource_type != "exposure"@,
    ensures
        holds_text(bullets(names_in(d, ids, exposures)), "- "@ + d.nodes[v].name + "\n"@),
{
    listing_exists(ids);
    let l = listing(ids);
    let p = |u: Text| is_listed(d, u, exposures);
    let f = l.filter(p);
    assert(l.contains(v));
    filter_keeps(l, p, v);
    let names = f.map_values(|u: Text| d.nodes[u].name);
    assert(names[f.index_of(v)] == d.nodes[v].name);
    assert(names.contains(d.nodes[v].name));
    in_order_sorted::<String>(names);
    let sorted = in_order::<String>(names);
    assert(sorted.contains(d.nodes[v].name));
    every_part_is_written(sorted, |n: Text| bullet(n), sorted.index_of(d.nodes[v].name));
}

/// The impact report names every node upstream and every node downstream that
/// is no exposure.
pub proof fn impact_names_the_lineage(d: DagModel, u: Text, v: Text)
    requires
        d.valid(),
        d.nodes.contains_key(u),
        reach(d.parents, u, None).contains(v) || (reach(d.children, u, None).contains(v) && d.nodes[v].resource_type != "exposure"@),
    ensures
        d.nodes.contains_key(v),
        holds_text(impact_text_of(d, u), "- "@ + d.nodes[v].name + "\n"@),
{
    broadcast use holds_in_sum;
    let known = d.nodes.dom();
    reach_stays(d.children, u, None, known);
    reach_stays(d.parents, u, None, known);
    vstd::set_lib::lemma_set_subset_finite(known, reach(d.children, u, None));
    vstd::set_lib::lemma_set_subset_finite(known, reach(d.parents, u, None));
    assert(known.contains(v));
    if reach(d.parents, u, None).contains(v) {
        name_is_listed(d, reach(d.parents, u, None), true, v);
    } else {
        name_is_listed(d, reach(d.children, u, None), false, v);
    }
}

/// How an exposure is described in the impact report: its kind, and its owner
/// where one is recorded.
pub open spec fn described_as(e: ExposureModel) -> Text {
    let kind = match e.exposure_type {
        Some(k) => k,
        None => "exposure"@,
    };
    if e.owner_name is Some && e.owner_email is Some {
        " ("@ + kind + (", owner: "@ + e.owner_name->0 + " <"@ + e.owner_email->0 + ">"@) + ")"@
    } else if e.owner_name is Some {
        " ("@ + kind + (", owner: "@ + e.owner_name->0) + ")"@
    } else if e.owner_email is Some {
        " ("@ + kind + (", owner: <"@ + e.owner_email->0 + ">"@) + ")"@
    } else {
        " ("@ + kind + ""@ + ")"@
    }
}

/// The impact report names every exposure downstream, with its kind and owner.
pub proof fn impact_names_the_exposures(d: DagModel, u: Text, v: Text)
    requires
        d.valid(),
        d.nodes.contains_key(u),
        reach(d.children, u, None).contains(v),
        d.nodes[v].resource_type == "exposure"@,
        d.exposures.contains_key(v),
    ensures
        holds_text(impact_text_of(d, u), "- "@ + d.nodes[v].name + described_as(d.exposures[v]) + "\n"@),
        exposures_below(d, u).contains((d.nodes[v], Some(d.exposures[v]))),
{
    broadcast use holds_in_sum;
    let known = d.nodes.dom();
    let down = reach(d.children, u, None);
    reach_stays(d.children, u, None, known);
    vstd::set_lib::lemma_set_subset_finite(known, down);
    assert(known.contains(v));
    listing_exists(down);
    assert(listing(down).contains(v));
    filter_keeps(listing(down), |w: Text| d.nodes.contains_key(w) && d.nodes[w].resource_type == "exposure"@, v);
    let ids = exposed_ids(d, u);
    let pairs = ids.map_values(|w: Text| (d.nodes[w].name, w));
    let pair = (d.nodes[v].name, v);
    assert(pairs[ids.index_of(v)] == pair);
    assert(pairs.contains(pair));
    in_order_sorted::<(String, String)>(pairs);
    let sorted = in_order::<(String, String)>(pairs);
    assert(sorted.contains(pair));
    let k = sorted.index_of(pair);
    let es = exposures_below(d, u);
    assert(es[k] == (d.nodes[v], Some(d.exposures[v])));
    every_part_is_written(es, |e: (NodeModel, Option<ExposureModel>)| exposure_line(e), k);
    let line = "- "@ + d.nodes[v].name + described_as(d.exposures[v]) + "\n"@;
    assert(exposure_line(es[k]) == line);
    assert(holds_text(exposures_section(es), line));
}

/// Nothing but exposures downstream is listed as an affected exposure.
pub proof fn only_exposures_are_affected(d: DagModel, u: Text, i: int)
    requires
        d.valid(),
        d.nodes.contains_key(u),
        0 <= i < exposures_below(d, u).len(),
    ensures
        ({
            let n = exposures_below(d, u)[i].0;
            &&& reach(d.children, u, None).contains(n.unique_id)
            &&& d.nodes[n.unique_id] == n
            &&& n.resource_type == "exposure"@
        }),
{
    let known = d.nodes.dom();
    let down = reach(d.children, u, None);
    reach_stays(d.children, u, None, known);
    vstd::set_lib::lemma_set_subset_finite(known, down);
    listing_exists(down);
    let ids = exposed_ids(d, u);
    let pairs = ids.map_values(|w: Text| (d.nodes[w].name, w));
    in_order_sorted::<(String, String)>(pairs);
    let sorted = in_order::<(String, String)>(pairs);
    assert(sorted.contains(sorted[i]));
    assert(pairs.contains(sorted[i]));
    let j = pairs.index_of(sorted[i]);
    assert(ids.contains(ids[j]));
    filter_keeps(listing(down), |w: Text| d.nodes.contains_key(w) && d.nodes[w].resource_type == "exposure"@, ids[j]);
    assert(d.nodes[ids[j]].unique_id == ids[j]);
}

// ---- the report on a change ----

proof fn row_is_written(mark: Text, title: Text, style: RowStyle, rows: Seq<(Text, Text)>, k: int)
    requires
        0 <= k < rows.len(),
    ensures
        holds_text(section_text(mark, title, style, rows), row_text(style, rows[k]) + "\n"@),
{
    broadcast use holds_in_sum;
    every_part_is_written(rows, |r: (Text, Text)| row_text(style, r) + "\n"@, k);
}

proof fn name_is_written(mark: Text, title: Text, names: Seq<Text>, k: int)
    requires
        0 <= k < names.len(),
    ensures
        holds_text(names_section(mark, title, names), "- "@ + names[k] + "\n"@),
{
    broadcast use holds_in_sum;
    every_part_is_written(names, |n: Text| bullet(n), k);
}

/// The report on a change has a line for every added, modified and removed
/// node.
pub proof fn report_names_every_change(project: Text, dv: DiffViewModel, k: int)
    ensures
        0 <= k < dv.added.len() && dv.added[k].1.len() > 0 ==> holds_text(
            pr_text(project, dv),
            "- "@ + dv.added[k].0 + " ("@ + dv.added[k].1 + ")"@ + "\n"@,
        ),
        0 <= k < dv.modified.len() ==> holds_text(pr_text(project, dv), "- "@ + dv.modified[k].0 + ": "@ + dv.modified[k].1 + "\n"@),
        0 <= k < dv.removed.len() && dv.removed[k].1.len() > 0 ==> holds_text(
            pr_text(project, dv),
            "- "@ + dv.removed[k].0 + " ("@ + dv.removed[k].1 + ")"@ + "\n"@,
        ),
{
    broadcast use holds_in_sum;
    if 0 <= k < dv.added.len() && dv.added[k].1.len() > 0 {
        row_is_written("##"@, "Added"@, RowStyle::Node, dv.added, k);
        let line = "- "@ + dv.added[k].0 + " ("@ + dv.added[k].1 + ")"@ + "\n"@;
        assert(holds_text(pr_changes(dv), line));
    }
    if 0 <= k < dv.modified.len() {
        row_is_written("##"@, "Modified"@, RowStyle::Reason, dv.modified, k);
        let line = "- "@ + dv.modified[k].0 + ": "@ + dv.modified[k].1 + "\n"@;
        assert(holds_text(pr_changes(dv), line));
    }
    if 0 <= k < dv.removed.len() && dv.removed[k].1.len() > 0 {
        row_is_written("##"@, "Removed"@, RowStyle::Node, dv.removed, k);
        let line = "- "@ + dv.removed[k].0 + " ("@ + dv.removed[k].1 + ")"@ + "\n"@;
        assert(holds_text(pr_changes(dv), line));
    }
}

/// The report on a change has a line for every added and removed edge, and for
/// every new violation.
pub proof fn report_names_every_edge(project: Text, dv: DiffViewModel, k: int)
    ensures
        0 <= k < dv.edges_added.len() ==> holds_text(pr_text(project, dv), "- "@ + dv.edges_added[k].0 + " -> "@ + dv.edges_added[k].1 + "\n"@),
        0 <= k < dv.edges_removed.len() ==> holds_text(
            pr_text(project, dv),
            "- "@ + dv.edges_removed[k].0 + " -> "@ + dv.edges_removed[k].1 + "\n"@,
        ),
        0 <= k < dv.pr.new_layer_violations.len() ==> holds_text(
            pr_text(project, dv),
            "- "@ + dv.pr.new_layer_violations[k].0 + " -> "@ + dv.pr.new_layer_violations[k].1 + "\n"@,
        ),
{
    broadcast use holds_in_sum;
    if 0 <= k < dv.edges_added.len() {
        row_is_written("##"@, "Edges added"@, RowStyle::Edge, dv.edges_added, k);
        let line = "- "@ + dv.edges_added[k].0 + " -> "@ + dv.edges_added[k].1 + "\n"@;
        assert(holds_text(pr_changes(dv), line));
    }
    if 0 <= k < dv.edges_removed.len() {
        row_is_written("##"@, "Edges removed"@, RowStyle::Edge, dv.edges_removed, k);
        let line = "- "@ + dv.edges_removed[k].0 + " -> "@ + dv.edges_removed[k].1 + "\n"@;
        assert(holds_text(pr_changes(dv), line));
    }
    if 0 <= k < dv.pr.new_layer_violations.len() {
        row_is_written("###"@, "New layer violations"@, RowStyle::Edge, dv.pr.new_layer_violations, k);
        let line = "- "@ + dv.pr.new_layer_violations[k].0 + " -> "@ + dv.pr.new_layer_violations[k].1 + "\n"@;
        assert(holds_text(pr_risks(dv.pr), line));
    }
}

/// The report on a change has a line for every affected mart and exposure, for
/// every change without tests, and for every changed hub with its reach.
pub proof fn report_names_every_risk(project: Text, dv: DiffViewModel, k: int)
    ensures
        0 <= k < dv.pr.affected_marts.len() ==> holds_text(pr_text(project, dv), "- "@ + dv.pr.affected_marts[k] + "\n"@),
        0 <= k < dv.pr.affected_exposures.len() ==> holds_text(pr_text(project, dv), "- "@ + dv.pr.affected_exposures[k] + "\n"@),
        0 <= k < dv.pr.untested_changes.len() ==> holds_text(pr_text(project, dv), "- "@ + dv.pr.untested_changes[k] + "\n"@),
        0 <= k < dv.pr.changed_hubs.len() ==> holds_text(
            pr_text(project, dv),
            "- "@ + dv.pr.changed_hubs[k].0 + " ("@ + decimal(dv.pr.changed_hubs[k].1 as nat) + " downstream)\n"@,
        ),
{
    broadcast use holds_in_sum;
    let pr = dv.pr;
    if 0 <= k < pr.affected_marts.len() {
        name_is_written("###"@, "Affected marts"@, pr.affected_marts, k);
        let line = "- "@ + pr.affected_marts[k] + "\n"@;
        assert(holds_text(pr_radius(pr), line));
    }
    if 0 <= k < pr.affected_exposures.len() {
        name_is_written("##"@, "Affected exposures"@, pr.affected_exposures, k);
    }
    if 0 <= k < pr.untested_changes.len() {
        name_is_written("###"@, "Untested changes"@, pr.untested_changes, k);
        let line = "- "@ + pr.untested_changes[k] + "\n"@;
        assert(holds_text(pr_risks(pr), line));
    }
    if 0 <= k < pr.changed_hubs.len() {
        every_part_is_written(pr.changed_hubs, |h: (Text, usize)| hub_line(h), k);
        let line = hub_line(pr.changed_hubs[k]);
        assert(holds_text(hubs_section(pr.changed_hubs), line));
        assert(holds_text(pr_risks(pr), line));
    }
}

// ---- the command for a view ----

/// The command for a lineage view selects the model and, with a plus on that
/// side, each side that the view shows; a limited depth stands beside the plus
/// as a number.
pub proof fn command_selects_the_view(name: Text, v: LineageView) -> (ends: (Text, Text))
    ensures
        selector_command(name, v) == "dbt build --select "@ + ends.0 + name + ends.1,
        ends.0.len() > 0 <==> v.upstream,
        ends.1.len() > 0 <==> v.downstream,
        v.upstream ==> ends.0.last() == '+',
        v.downstream ==> ends.1[0] == '+',
        v.upstream ==> match v.depth {
            None => ends.0.len() == 1,
            Some(n) => number(ends.0.drop_last()) == n,
        },
        v.downstream ==> match v.depth {
            None => ends.1.len() == 1,
            Some(n) => number(ends.1.drop_first()) == n,
        },
{
    reveal_strlit("");
    reveal_strlit("+");
    let pre = match (v.upstream, v.depth) {
        (false, _) => ""@,
        (true, None) => "+"@,
        (true, Some(n)) => decimal(n as nat) + "+"@,
    };
    let post = match (v.downstream, v.depth) {
        (false, _) => ""@,
        (true, None) => "+"@,
        (true, Some(n)) => "+"@ + decimal(n as nat),
    };
    if let Some(n) = v.depth {
        decimals_read_back(n as nat);
        assert((decimal(n as nat) + "+"@).drop_last() =~= decimal(n as nat));
        assert(("+"@ + decimal(n as nat)).drop_first() =~= decimal(n as nat));
    }
    (pre, post)
}

} // verus!
