//! The texts that the application offers for copying and export.

use vstd::prelude::*;

use crate::action::{DiffView, DiffViewModel, PrImpact, PrModel};
use crate::dag::{project_of, Dag, DagModel, ExposureInfo, ExposureModel, NodeInfo, NodeModel};
use crate::graph::reach;
use crate::layout::{layout_density, layout_of, lines_text};
use crate::sorted::{in_order, listing, sort, StrSet};
use crate::text::{
    appended_in_turn, decimal, push_decimal, rendered, rendered_all, rendered_step, str_eq, trim, trimmed, Text,
};
use super::analysis::exposures_below;
use super::export::{dot_diagram, mermaid_text, subgraph_dot, subgraph_mermaid};
use super::{App, AppModel, LineageView};

verus! {

/// The SQL of a node that is worth copying: recorded, and not blank.
pub open spec fn sql_of(d: DagModel, uid: Text) -> Option<Text> {
    if d.sql.contains_key(uid) && trimmed(d.sql[uid]).len() > 0 {
        Some(d.sql[uid])
    } else {
        None
    }
}

/// A `dbt build` command that selects what the lineage shows.
pub open spec fn selector_command(name: Text, v: LineageView) -> Text {
    let prefix = match (v.upstream, v.depth) {
        (false, _) => ""@,
        (true, None) => "+"@,
        (true, Some(n)) => decimal(n as nat) + "+"@,
    };
    let suffix = match (v.downstream, v.depth) {
        (false, _) => ""@,
        (true, None) => "+"@,
        (true, Some(n)) => "+"@ + decimal(n as nat),
    };
    "dbt build --select "@ + prefix + name + suffix
}

/// A node that is listed by name; exposures only where they are asked for.
pub open spec fn is_listed(d: DagModel, u: Text, exposures: bool) -> bool {
    d.nodes.contains_key(u) && (exposures || d.nodes[u].resource_type != "exposure"@)
}

/// The names of a set of nodes, with or without the exposures, sorted.
pub open spec fn names_in(d: DagModel, ids: Set<Text>, exposures: bool) -> Seq<Text> {
    in_order::<String>(
        listing(ids).filter(|u: Text| is_listed(d, u, exposures)).map_values(|u: Text| d.nodes[u].name),
    )
}

/// A bullet line.
pub open spec fn bullet(name: Text) -> Text {
    "- "@ + name + "\n"@
}

/// A bullet line for each name.
pub open spec fn bullets(names: Seq<Text>) -> Text {
    rendered(names, |n: Text| bullet(n))
}

/// A heading with a count.
pub open spec fn counted_heading(mark: Text, title: Text, n: nat) -> Text {
    "\n"@ + mark + " "@ + title + " ("@ + decimal(n) + ")\n"@
}

/// The owner of an exposure: name and e-mail, each where it is known.
pub open spec fn owner_text(e: ExposureModel) -> Text {
    match (e.owner_name, e.owner_email) {
        (Some(n), Some(m)) => ", owner: "@ + n + " <"@ + m + ">"@,
        (Some(n), None) => ", owner: "@ + n,
        (None, Some(m)) => ", owner: <"@ + m + ">"@,
        (None, None) => ""@,
    }
}

/// The kind and owner of an exposure in brackets.
pub open spec fn exposure_text(payload: Option<ExposureModel>) -> Text {
    match payload {
        None => " ("@ + "exposure"@ + ""@ + ")"@,
        Some(e) => " ("@ + (match e.exposure_type {
            Some(k) => k,
            None => "exposure"@,
        }) + owner_text(e) + ")"@,
    }
}

/// The line of an exposure in the impact report.
pub open spec fn exposure_line(e: (NodeModel, Option<ExposureModel>)) -> Text {
    "- "@ + e.0.name + exposure_text(e.1) + "\n"@
}

/// The top of the impact report.
pub open spec fn impact_head(node: NodeModel, uid: Text) -> Text {
    "# Impact: "@ + node.name + "\n\n"@ + "- unique_id: `"@ + uid + "`\n"@ + "- direct: "@ + decimal(node.direct_up) + " upstream / "@
        + decimal(node.direct_down) + " downstream\n"@
}

/// The line of the impact report that counts ancestors and descendants.
pub open spec fn transitive_line(up: nat, down: nat) -> Text {
    "- transitive: "@ + decimal(up) + " upstream / "@ + decimal(down) + " downstream\n"@
}

/// The exposures of the impact report; nothing where there is none.
pub open spec fn exposures_section(exposures: Seq<(NodeModel, Option<ExposureModel>)>) -> Text {
    if exposures.len() > 0 {
        counted_heading("##"@, "Affected exposures"@, exposures.len()) + rendered(
            exposures,
            |e: (NodeModel, Option<ExposureModel>)| exposure_line(e),
        )
    } else {
        Seq::empty()
    }
}

/// The impact report of a node. Descendants are listed without the exposures,
/// which have a section of their own.
pub open spec fn impact_text_of(d: DagModel, uid: Text) -> Text {
    let down = names_in(d, reach(d.children, uid, None), false);
    let up = names_in(d, reach(d.parents, uid, None), true);
    let exposures = exposures_below(d, uid);
    impact_head(d.nodes[uid], uid) + transitive_line(up.len(), down.len()) + count_line("affected exposures"@, exposures.len())
        + counted_heading("##"@, "Downstream (blast radius)"@, down.len()) + bullets(down) + counted_heading(
        "##"@,
        "Upstream"@,
        up.len(),
    ) + bullets(up) + exposures_section(exposures)
}

/// How a row of the pull-request report is written.
pub enum RowStyle {
    /// A name, with its kind in brackets where it has one.
    Node,
    /// A name and the reasons.
    Reason,
    /// A parent and a child.
    Edge,
}

/// A row of the pull-request report.
pub open spec fn row_text(style: RowStyle, r: (Text, Text)) -> Text {
    match style {
        RowStyle::Node => if r.1.len() == 0 {
            "- "@ + r.0
        } else {
            "- "@ + r.0 + " ("@ + r.1 + ")"@
        },
        RowStyle::Reason => "- "@ + r.0 + ": "@ + r.1,
        RowStyle::Edge => "- "@ + r.0 + " -> "@ + r.1,
    }
}

/// The rows of a section, a line each.
pub open spec fn rows_text(style: RowStyle, rows: Seq<(Text, Text)>) -> Text {
    rendered(rows, |r: (Text, Text)| row_text(style, r) + "\n"@)
}

/// A section of the pull-request report; nothing where it has no rows.
pub open spec fn section_text(mark: Text, title: Text, style: RowStyle, rows: Seq<(Text, Text)>) -> Text {
    if rows.len() == 0 {
        Seq::empty()
    } else {
        counted_heading(mark, title, rows.len()) + rows_text(style, rows)
    }
}

/// A list of names under a heading; nothing where it is empty.
pub open spec fn names_section(mark: Text, title: Text, names: Seq<Text>) -> Text {
    if names.len() == 0 {
        Seq::empty()
    } else {
        counted_heading(mark, title, names.len()) + bullets(names)
    }
}

/// The line of a changed hub.
pub open spec fn hub_line(h: (Text, usize)) -> Text {
    "- "@ + h.0 + " ("@ + decimal(h.1 as nat) + " downstream)\n"@
}

/// The changed hubs under a heading; nothing where there is none.
pub open spec fn hubs_section(hubs: Seq<(Text, usize)>) -> Text {
    if hubs.len() == 0 {
        Seq::empty()
    } else {
        counted_heading("###"@, "Changed hubs"@, hubs.len()) + rendered(hubs, |h: (Text, usize)| hub_line(h))
    }
}

/// A counted line; nothing where the count is zero.
pub open spec fn count_line(label: Text, n: nat) -> Text {
    if n == 0 {
        Seq::empty()
    } else {
        "- "@ + label + ": "@ + decimal(n) + "\n"@
    }
}

/// The summary at the top of the pull-request report.
pub open spec fn pr_head(project: Text, dv: DiffViewModel) -> Text {
    "# PR Impact Report: "@ + project + "\n\n"@ + "- baseline: `"@ + dv.baseline + "`\n"@ + "- changed: +"@ + decimal(dv.added.len())
        + " added, ~"@ + decimal(dv.modified.len()) + " modified, -"@ + decimal(dv.removed.len()) + " removed\n"@ + "- edges: +"@
        + decimal(dv.edges_added.len()) + " / -"@ + decimal(dv.edges_removed.len()) + "\n"@ + "- affected models: "@ + decimal(
        dv.pr.affected_models as nat,
    ) + "\n"@
}

/// The changed nodes and edges.
pub open spec fn pr_changes(dv: DiffViewModel) -> Text {
    section_text("##"@, "Added"@, RowStyle::Node, dv.added) + section_text("##"@, "Modified"@, RowStyle::Reason, dv.modified)
        + section_text("##"@, "Removed"@, RowStyle::Node, dv.removed) + section_text(
        "##"@,
        "Edges added"@,
        RowStyle::Edge,
        dv.edges_added,
    ) + section_text("##"@, "Edges removed"@, RowStyle::Edge, dv.edges_removed)
}

/// The blast radius: the number of affected models, and the marts among them.
pub open spec fn pr_radius(pr: PrModel) -> Text {
    "\n## Blast radius ("@ + decimal(pr.affected_models as nat) + " affected models)\n"@ + if pr.affected_marts.len() == 0 {
        "- no affected marts\n"@
    } else {
        names_section("###"@, "Affected marts"@, pr.affected_marts)
    }
}

/// The suggested command.
pub open spec fn pr_command(pr: PrModel) -> Text {
    "\n## Suggested CI command\n"@ + match pr.ci_command {
        Some(cmd) => "```sh\n"@ + cmd + "\n```\n"@,
        None => "- no buildable changes\n"@,
    }
}

/// The risk flags; nothing where there is none.
pub open spec fn pr_risks(pr: PrModel) -> Text {
    if pr.untested_changes.len() == 0 && pr.changed_hubs.len() == 0 && pr.new_layer_violations.len() == 0 {
        Seq::empty()
    } else {
        "\n## Risk flags\n"@ + names_section("###"@, "Untested changes"@, pr.untested_changes) + hubs_section(
            pr.changed_hubs,
        ) + section_text("###"@, "New layer violations"@, RowStyle::Edge, pr.new_layer_violations)
    }
}

/// The pull-request report.
pub open spec fn pr_text(project: Text, dv: DiffViewModel) -> Text {
    pr_head(project, dv) + count_line("affected marts"@, dv.pr.affected_marts.len()) + count_line(
        "affected exposures"@,
        dv.pr.affected_exposures.len(),
    ) + pr_changes(dv) + pr_radius(dv.pr) + names_section("##"@, "Affected exposures"@, dv.pr.affected_exposures) + pr_command(
        dv.pr,
    ) + pr_risks(dv.pr)
}

/// What `a + b + c` appends to `o` is what `b + c` appends to `o + a`.
proof fn assoc(o: Text, a: Text, b: Text)
    ensures
        o + (a + b) == o + a + b,
{
    assert(o + (a + b) =~= o + a + b);
}

fn push_heading(out: &mut String, mark: &str, title: &str, n: usize)
    ensures
        final(out)@ == old(out)@ + counted_heading(mark@, title@, n as nat),
{
    broadcast use appended_in_turn;
    let ghost o = out@;
    out.append("\n");
    out.append(mark);
    out.append(" ");
    out.append(title);
    out.append(" (");
    push_decimal(out, n);
    out.append(")\n");
    assert(out@ == o + counted_heading(mark@, title@, n as nat));
}

fn push_bullets(out: &mut String, names: &Vec<String>)
    ensures
        final(out)@ == old(out)@ + bullets(names.deep_view()),
{
    let ghost all = names.deep_view();
    let ghost f = |n: Text| bullet(n);
    let ghost o1 = out@;
    let mut i: usize = 0;
    proof {
        rendered_all(all, f);
        assert(o1 + Seq::<char>::empty() =~= o1);
    }
    while i < names.len()
        invariant
            i <= names@.len(),
            all == names.deep_view(),
            f == (|n: Text| bullet(n)),
            out@ == o1 + rendered(all.take(i as int), f),
        decreases names@.len() - i,
    {
        let ghost o = out@;
        proof {
            rendered_step(all, i as int, f);
            assert(all[i as int] == names@[i as int]@);
        }
        out.append("- ");
        out.append(names[i].as_str());
        out.append("\n");
        assert(out@ =~= o + bullet(names@[i as int]@));
        assert(out@ =~= o1 + rendered(all.take(i + 1), f));
        i = i + 1;
    }
}

fn push_names_section(out: &mut String, mark: &str, title: &str, names: &Vec<String>)
    ensures
        final(out)@ == old(out)@ + names_section(mark@, title@, names.deep_view()),
{
    broadcast use appended_in_turn;
    let ghost o = out@;
    if names.len() == 0 {
        assert(out@ == o + names_section(mark@, title@, names.deep_view()));
        return;
    }
    push_heading(out, mark, title, names.len());
    push_bullets(out, names);
    assert(out@ == o + names_section(mark@, title@, names.deep_view()));
}

fn push_row(out: &mut String, style: &RowStyle, r: &(String, String))
    ensures
        final(out)@ == old(out)@ + (row_text(*style, r.deep_view()) + "\n"@),
{
    broadcast use appended_in_turn;
    let ghost o = out@;
    out.append("- ");
    out.append(r.0.as_str());
    match style {
        RowStyle::Node => {
            if !r.1.as_str().is_empty() {
                out.append(" (");
                out.append(r.1.as_str());
                out.append(")");
            }
        },
        RowStyle::Reason => {
            out.append(": ");
            out.append(r.1.as_str());
        },
        RowStyle::Edge => {
            out.append(" -> ");
            out.append(r.1.as_str());
        },
    }
    out.append("\n");
    assert(r.deep_view() == (r.0@, r.1@));
    assert(out@ == o + (row_text(*style, r.deep_view()) + "\n"@));
}

fn push_section(out: &mut String, mark: &str, title: &str, style: RowStyle, rows: &Vec<(String, String)>)
    ensures
        final(out)@ == old(out)@ + section_text(mark@, title@, style, rows.deep_view()),
{
    let ghost all = rows.deep_view();
    let ghost f = |r: (Text, Text)| row_text(style, r) + "\n"@;
    let ghost o = out@;
    if rows.len() == 0 {
        assert(out@ =~= o + section_text(mark@, title@, style, all));
        return;
    }
    push_heading(out, mark, title, rows.len());
    let ghost o1 = out@;
    let mut i: usize = 0;
    proof {
        rendered_all(all, f);
        assert(o1 + Seq::<char>::empty() =~= o1);
    }
    while i < rows.len()
        invariant
            i <= rows@.len(),
            all == rows.deep_view(),
            f == (|r: (Text, Text)| row_text(style, r) + "\n"@),
            out@ == o1 + rendered(all.take(i as int), f),
        decreases rows@.len() - i,
    {
        proof {
            rendered_step(all, i as int, f);
            assert(all[i as int] == rows@[i as int].deep_view());
        }
        push_row(out, &style, &rows[i]);
        assert(out@ =~= o1 + rendered(all.take(i + 1), f));
        i = i + 1;
    }
    assert(out@ =~= o + section_text(mark@, title@, style, all));
}

fn push_hubs(out: &mut String, hubs: &Vec<(String, usize)>)
    ensures
        final(out)@ == old(out)@ + hubs_section(hubs.deep_view()),
{
    let ghost all = hubs.deep_view();
    let ghost f = |h: (Text, usize)| hub_line(h);
    let ghost o = out@;
    if hubs.len() == 0 {
        assert(out@ =~= o + hubs_section(all));
        return;
    }
    push_heading(out, "###", "Changed hubs", hubs.len());
    let ghost o1 = out@;
    let mut i: usize = 0;
    proof {
        rendered_all(all, f);
        assert(o1 + Seq::<char>::empty() =~= o1);
    }
    while i < hubs.len()
        invariant
            i <= hubs@.len(),
            all == hubs.deep_view(),
            f == (|h: (Text, usize)| hub_line(h)),
            out@ == o1 + rendered(all.take(i as int), f),
        decreases hubs@.len() - i,
    {
        let ghost p = out@;
        proof {
            rendered_step(all, i as int, f);
            assert(all[i as int] == (hubs@[i as int].0@, hubs@[i as int].1));
        }
        out.append("- ");
        out.append(hubs[i].0.as_str());
        out.append(" (");
        push_decimal(out, hubs[i].1);
        out.append(" downstream)\n");
        assert(out@ =~= p + hub_line(all[i as int]));
        assert(out@ =~= o1 + rendered(all.take(i + 1), f));
        i = i + 1;
    }
    assert(out@ =~= o + hubs_section(all));
}

fn push_count_line(out: &mut String, label: &str, n: usize)
    ensures
        final(out)@ == old(out)@ + count_line(label@, n as nat),
{
    broadcast use appended_in_turn;
    let ghost o = out@;
    if n > 0 {
        out.append("- ");
        out.append(label);
        out.append(": ");
        push_decimal(out, n);
        out.append("\n");
    }
    assert(out@ == o + count_line(label@, n as nat));
}

fn pr_summary(project: &str, dv: &DiffView) -> (out: String)
    ensures
        out@ == pr_head(project@, dv.deep_view()),
{
    let mut out = "# PR Impact Report: ".to_owned();
    out.append(project);
    out.append("\n\n");
    out.append("- baseline: `");
    out.append(dv.baseline.as_str());
    out.append("`\n");
    out.append("- changed: +");
    push_decimal(&mut out, dv.added.len());
    out.append(" added, ~");
    push_decimal(&mut out, dv.modified.len());
    out.append(" modified, -");
    push_decimal(&mut out, dv.removed.len());
    out.append(" removed\n");
    out.append("- edges: +");
    push_decimal(&mut out, dv.edges_added.len());
    out.append(" / -");
    push_decimal(&mut out, dv.edges_removed.len());
    out.append("\n");
    out.append("- affected models: ");
    push_decimal(&mut out, dv.pr.affected_models);
    out.append("\n");
    out
}

fn push_changes(out: &mut String, dv: &DiffView)
    ensures
        final(out)@ == old(out)@ + pr_changes(dv.deep_view()),
{
    broadcast use appended_in_turn;
    let ghost o = out@;
    push_section(out, "##", "Added", RowStyle::Node, &dv.added);
    push_section(out, "##", "Modified", RowStyle::Reason, &dv.modified);
    push_section(out, "##", "Removed", RowStyle::Node, &dv.removed);
    push_section(out, "##", "Edges added", RowStyle::Edge, &dv.edges_added);
    push_section(out, "##", "Edges removed", RowStyle::Edge, &dv.edges_removed);
    assert(out@ == o + pr_changes(dv.deep_view()));
}

fn push_radius(out: &mut String, pr: &PrImpact)
    ensures
        final(out)@ == old(out)@ + pr_radius(pr.deep_view()),
{
    broadcast use appended_in_turn;
    let ghost o = out@;
    out.append("\n## Blast radius (");
    push_decimal(out, pr.affected_models);
    out.append(" affected models)\n");
    if pr.affected_marts.len() == 0 {
        out.append("- no affected marts\n");
    } else {
        push_names_section(out, "###", "Affected marts", &pr.affected_marts);
    }
    assert(out@ == o + pr_radius(pr.deep_view()));
}

fn push_command(out: &mut String, pr: &PrImpact)
    ensures
        final(out)@ == old(out)@ + pr_command(pr.deep_view()),
{
    broadcast use appended_in_turn;
    let ghost o = out@;
    out.append("\n## Suggested CI command\n");
    match &pr.ci_command {
        Some(cmd) => {
            out.append("```sh\n");
            out.append(cmd.as_str());
            out.append("\n```\n");
        },
        None => {
            out.append("- no buildable changes\n");
        },
    }
    assert(out@ == o + pr_command(pr.deep_view()));
}

fn push_risks(out: &mut String, pr: &PrImpact)
    ensures
        final(out)@ == old(out)@ + pr_risks(pr.deep_view()),
{
    broadcast use appended_in_turn;
    let ghost o = out@;
    if pr.untested_changes.len() > 0 || pr.changed_hubs.len() > 0 || pr.new_layer_violations.len() > 0 {
        out.append("\n## Risk flags\n");
        push_names_section(out, "###", "Untested changes", &pr.untested_changes);
        push_hubs(out, &pr.changed_hubs);
        push_section(out, "###", "New layer violations", RowStyle::Edge, &pr.new_layer_violations);
    }
    assert(out@ == o + pr_risks(pr.deep_view()));
}

/// The kind and owner of an exposure in brackets.
pub fn exposure_note(payload: Option<&ExposureInfo>) -> (r: String)
    ensures
        r@ == exposure_text(payload.deep_view()),
{
    let mut out = " (".to_owned();
    match payload {
        None => {
            out.append("exposure");
            out.append("");
        },
        Some(e) => {
            match &e.exposure_type {
                Some(k) => out.append(k.as_str()),
                None => out.append("exposure"),
            }
            let mut owner = "".to_owned();
            match (&e.owner_name, &e.owner_email) {
                (Some(n), Some(m)) => {
                    owner = ", owner: ".to_owned();
                    owner.append(n.as_str());
                    owner.append(" <");
                    owner.append(m.as_str());
                    owner.append(">");
                },
                (Some(n), None) => {
                    owner = ", owner: ".to_owned();
                    owner.append(n.as_str());
                },
                (None, Some(m)) => {
                    owner = ", owner: <".to_owned();
                    owner.append(m.as_str());
                    owner.append(">");
                },
                (None, None) => {},
            }
            out.append(owner.as_str());
        },
    }
    out.append(")");
    out
}

fn impact_start(node: &NodeInfo, uid: &str) -> (out: String)
    ensures
        out@ == impact_head(node.deep_view(), uid@),
{
    let mut out = "# Impact: ".to_owned();
    out.append(node.name.as_str());
    out.append("\n\n");
    out.append("- unique_id: `");
    out.append(uid);
    out.append("`\n");
    out.append("- direct: ");
    push_decimal(&mut out, node.direct_up);
    out.append(" upstream / ");
    push_decimal(&mut out, node.direct_down);
    out.append(" downstream\n");
    out
}

fn push_transitive_line(out: &mut String, up: usize, down: usize)
    ensures
        final(out)@ == old(out)@ + transitive_line(up as nat, down as nat),
{
    broadcast use appended_in_turn;
    let ghost o = out@;
    out.append("- transitive: ");
    push_decimal(out, up);
    out.append(" upstream / ");
    push_decimal(out, down);
    out.append(" downstream\n");
    assert(out@ == o + transitive_line(up as nat, down as nat));
}

fn push_exposure_line(out: &mut String, node: &NodeInfo, payload: Option<&ExposureInfo>)
    ensures
        final(out)@ == old(out)@ + exposure_line((node.deep_view(), payload.deep_view())),
{
    broadcast use appended_in_turn;
    let ghost o = out@;
    let note = exposure_note(payload);
    out.append("- ");
    out.append(node.name.as_str());
    out.append(note.as_str());
    out.append("\n");
    assert(out@ == o + exposure_line((node.deep_view(), payload.deep_view())));
}

fn push_exposures(out: &mut String, exposures: &Vec<(&NodeInfo, Option<&ExposureInfo>)>)
    ensures
        final(out)@ == old(out)@ + exposures_section(exposures.deep_view()),
{
    let ghost o = out@;
    let ghost ev = exposures.deep_view();
    let ghost f = |e: (NodeModel, Option<ExposureModel>)| exposure_line(e);
    assert(ev.len() == exposures@.len());
    if exposures.len() > 0 {
        push_heading(out, "##", "Affected exposures", exposures.len());
        let ghost o1 = out@;
        let mut i: usize = 0;
        proof {
            rendered_all(ev, f);
            assert(o1 + Seq::<char>::empty() =~= o1);
        }
        while i < exposures.len()
            invariant
                i <= exposures@.len(),
                ev == exposures.deep_view(),
                f == (|e: (NodeModel, Option<ExposureModel>)| exposure_line(e)),
                out@ == o1 + rendered(ev.take(i as int), f),
            decreases exposures@.len() - i,
        {
            proof {
                rendered_step(ev, i as int, f);
                assert(ev[i as int] == exposures@[i as int].deep_view());
                appended_in_turn(o1, rendered(ev.take(i as int), f), f(ev[i as int]));
            }
            push_exposure_line(out, exposures[i].0, exposures[i].1);
            i = i + 1;
        }
        proof {
            appended_in_turn(o, counted_heading("##"@, "Affected exposures"@, ev.len()), rendered(ev, f));
        }
    } else {
        assert(o + Seq::<char>::empty() =~= o);
    }
}

/// The names of a set of nodes, with or without the exposures, sorted.
fn sorted_names(dag: &Dag, ids: &StrSet, exposures: bool) -> (r: Vec<String>)
    requires
        dag.wf(),
        ids.wf(),
    ensures
        r.deep_view() == names_in(dag.deep_view(), ids@, exposures),
{
    let ghost d = dag.deep_view();
    let ghost items = ids.items();
    let ghost p = |u: Text| is_listed(d, u, exposures);
    let ghost name = |u: Text| d.nodes[u].name;
    let mut out: Vec<String> = Vec::new();
    let mut i: usize = 0;
    proof {
        ids.items_listed();
        reveal(Seq::filter);
        assert(out.deep_view() =~= items.take(0).filter(p).map_values(name));
    }
    while i < ids.len()
        invariant
            dag.wf(),
            ids.wf(),
            d == dag.deep_view(),
            items == ids.items(),
            p == (|u: Text| is_listed(d, u, exposures)),
            name == (|u: Text| d.nodes[u].name),
            i <= items.len(),
            out.deep_view() == items.take(i as int).filter(p).map_values(name),
        decreases items.len() - i,
    {
        let uid = ids.at(i);
        let ghost o = out.deep_view();
        let ghost f = items.take(i as int).filter(p);
        proof {
            reveal(Seq::filter);
            assert(items.take(i + 1).drop_last() =~= items.take(i as int));
        }
        match dag.get(uid.as_str()) {
            Some(n) => {
                if exposures || !str_eq(n.resource_type.as_str(), "exposure") {
                    out.push(n.name.clone());
                    proof {
                        assert(out.deep_view() =~= o.push(name(uid@)));
                        assert(f.push(uid@).map_values(name) =~= f.map_values(name).push(name(uid@)));
                    }
                }
            },
            None => {},
        }
        i = i + 1;
    }
    assert(items.take(items.len() as int) =~= items);
    sort(out)
}

impl AppModel {
    /// The lineage as Mermaid; none where it has no node.
    #[verifier::opaque]
    pub open spec fn mermaid(self) -> Option<Text> {
        if self.subgraph().nodes.len() == 0 {
            None
        } else {
            Some(mermaid_text(self.subgraph(), Map::empty()))
        }
    }

    /// The lineage as Graphviz; none where it has no node.
    #[verifier::opaque]
    pub open spec fn dot(self) -> Option<Text> {
        if self.subgraph().nodes.len() == 0 {
            None
        } else {
            Some(dot_diagram(self.subgraph()))
        }
    }

    /// The lineage as the pane draws it; none where it has no node.
    #[verifier::opaque]
    pub open spec fn ascii(self) -> Option<Text> {
        if self.subgraph().nodes.len() == 0 {
            None
        } else {
            Some(lines_text(layout_of(self.subgraph(), self.glyphs, self.ui.density).rows))
        }
    }

    /// The SQL of the selected model; none where it has none worth copying.
    #[verifier::opaque]
    pub open spec fn raw_sql(self) -> Option<Text> {
        match self.selected_id() {
            Some(uid) => sql_of(self.dag, uid),
            None => None,
        }
    }

    /// The impact report of the selected model.
    #[verifier::opaque]
    pub open spec fn impact(self) -> Option<Text> {
        match self.selected_id() {
            Some(uid) => if self.dag.nodes.contains_key(uid) {
                Some(impact_text_of(self.dag, uid))
            } else {
                None
            },
            None => None,
        }
    }
}

impl App {
    /// The lineage as a fenced Mermaid diagram; `None` where it has no node.
    pub fn lineage_mermaid(&self) -> (r: Option<String>)
        requires
            self.parts(),
        ensures
            r.deep_view() == self.deep_view().mermaid(),
    {
        proof {
            reveal(AppModel::mermaid);
        }
        let sg = self.lineage_subgraph();
        if sg.nodes.len() == 0 {
            return None;
        }
        Some(subgraph_mermaid(&sg))
    }

    /// The lineage as a Graphviz digraph; `None` where it has no node.
    pub fn lineage_dot(&self) -> (r: Option<String>)
        requires
            self.parts(),
        ensures
            r.deep_view() == self.deep_view().dot(),
    {
        proof {
            reveal(AppModel::dot);
        }
        let sg = self.lineage_subgraph();
        if sg.nodes.len() == 0 {
            return None;
        }
        Some(subgraph_dot(&sg))
    }

    /// The lineage as the pane draws it, without colours; `None` where it has
    /// no node.
    pub fn lineage_ascii(&self) -> (r: Option<String>)
        requires
            self.parts(),
        ensures
            r.deep_view() == self.deep_view().ascii(),
    {
        proof {
            reveal(AppModel::ascii);
        }
        let sg = self.lineage_subgraph();
        if sg.nodes.len() == 0 {
            return None;
        }
        let lay = layout_density(&sg, self.glyph_mode, self.ui_state.density());
        Some(lay.grid.to_text())
    }

    /// The raw SQL of the selected model; `None` where none is recorded or it
    /// is blank.
    pub fn selected_raw_sql(&self) -> (r: Option<String>)
        requires
            self.parts(),
        ensures
            r.deep_view() == self.deep_view().raw_sql(),
    {
        proof {
            reveal(AppModel::raw_sql);
        }
        match self.selected_unique_id() {
            None => None,
            Some(uid) => match self.dag.raw_code(uid.as_str()) {
                Some(code) => if trim(code).as_str().is_empty() {
                    None
                } else {
                    Some(code.to_owned())
                },
                None => None,
            },
        }
    }

    /// A `dbt build` command that selects what the lineage shows; `None` where
    /// nothing is selected.
    pub fn dbt_selector_command(&self) -> (r: Option<String>)
        ensures
            r.deep_view() == (match self.deep_view().selected() {
                Some(n) => Some(selector_command(n.name, self.deep_view().view)),
                None => None,
            }),
    {
        match self.selected_name() {
            None => None,
            Some(name) => {
                let v = &self.lineage_view;
                let mut out = "dbt build --select ".to_owned();
                let ghost o = out@;
                match (v.upstream, v.depth) {
                    (false, _) => out.append(""),
                    (true, None) => out.append("+"),
                    (true, Some(n)) => {
                        push_decimal(&mut out, n);
                        out.append("+");
                        proof {
                            assoc(o, decimal(n as nat), "+"@);
                        }
                    },
                }
                out.append(name.as_str());
                let ghost p = out@;
                match (v.downstream, v.depth) {
                    (false, _) => out.append(""),
                    (true, None) => out.append("+"),
                    (true, Some(n)) => {
                        out.append("+");
                        push_decimal(&mut out, n);
                        proof {
                            assoc(p, "+"@, decimal(n as nat));
                        }
                    },
                }
                Some(out)
            },
        }
    }

    /// A Markdown report on the blast radius of the selected model; `None`
    /// where nothing is selected.
    pub fn impact_report(&self) -> (r: Option<String>)
        requires
            self.parts(),
        ensures
            r.deep_view() == self.deep_view().impact(),
    {
        proof {
            reveal(AppModel::impact);
        }
        let uid = match self.selected_unique_id() {
            Some(u) => u,
            None => {
                return None;
            },
        };
        let node = match self.dag.get(uid.as_str()) {
            Some(n) => n,
            None => {
                return None;
            },
        };
        let ghost d = self.dag.deep_view();
        let down = sorted_names(&self.dag, &self.dag.downstream(uid.as_str()), false);
        let up = sorted_names(&self.dag, &self.dag.upstream(uid.as_str()), true);
        let exposures = self.downstream_exposures(uid.as_str());
        let ghost ev = exposures.deep_view();
        let mut out = impact_start(node, uid.as_str());
        push_transitive_line(&mut out, up.len(), down.len());
        push_count_line(&mut out, "affected exposures", exposures.len());
        push_heading(&mut out, "##", "Downstream (blast radius)", down.len());
        push_bullets(&mut out, &down);
        push_heading(&mut out, "##", "Upstream", up.len());
        push_bullets(&mut out, &up);
        push_exposures(&mut out, &exposures);
        assert(ev.len() == exposures@.len());
        Some(out)
    }

    /// A Markdown report on the difference to the baseline, for a pull request:
    /// the changed nodes and edges, the blast radius, the affected exposures, a
    /// command to build them, and the risks. Empty sections are left out.
    pub fn pr_impact_markdown(&self, dv: &DiffView) -> (r: String)
        requires
            self.parts(),
        ensures
            r@ == pr_text(
                match project_of(self.deep_view().dag) {
                    Some(p) => p,
                    None => "dbt"@,
                },
                dv.deep_view(),
            ),
    {
        let project = match self.dag.project_name() {
            Some(p) => p,
            None => "dbt".to_owned(),
        };
        let pr = &dv.pr;
        let mut out = pr_summary(project.as_str(), dv);
        push_count_line(&mut out, "affected marts", pr.affected_marts.len());
        push_count_line(&mut out, "affected exposures", pr.affected_exposures.len());
        push_changes(&mut out, dv);
        push_radius(&mut out, pr);
        push_names_section(&mut out, "##", "Affected exposures", &pr.affected_exposures);
        push_command(&mut out, pr);
        push_risks(&mut out, pr);
        out
    }
}

} // verus!
