//! The fixed words around what is listed, and the order of texts.

use vstd::prelude::*;
use vstd::utf8::encode_utf8;

use super::names::given_names;
use super::stats::impact_is_counted;
use super::texts::{holds_between, holds_text};
use super::turns::{has_row, rows_are_listed};
use super::written::{holds_in_sum, part_of_part, readme};
use super::{base_from_list, select_lands};
use crate::action::{label_of, Action, DiffViewModel, KeyCodeModel, TriggerModel};
use crate::app::analysis::diff_view_of;
use crate::app::export::{kind_text, mermaid_ids_distinct, mermaid_ids_of};
use crate::app::lineage::trail_names;
use crate::app::report::{count_line, exposure_text, exposures_section, bullets, counted_heading, impact_head, impact_text_of, names_in, pr_changes, pr_command, pr_head, pr_radius, pr_risks, names_section, pr_text, transitive_line};
use crate::app::{coherent, AppModel};
use crate::dag::{DagModel, NodeModel};
use crate::docs::{files_of, group_text, groups_of, split_note, stem_of};
use crate::graph::reach;
use crate::naming::{given, numbered};
use crate::reducer::step;
use crate::sorted::{listing, listing_exists};
use crate::text::{bytes_lt, decimal, is_control, text_lt, trimmed, Text};

verus! {

// ---- the impact report ----

proof fn text_holds_itself(s: Text)
    ensures
        holds_text(s, s),
{
    let e = Seq::<char>::empty();
    holds_between(e, s, e);
    assert(e + s + e =~= s);
}

/// The impact report begins with the name and id of the node, its direct
/// neighbours, and everything that is up- and downstream of it, and says over
/// each list how long that is.
pub proof fn impact_begins_with_the_counts(d: DagModel, u: Text) -> (rest: Text)
    requires
        d.valid(),
        d.nodes.contains_key(u),
    ensures
        ({
            let n = d.nodes[u];
            let down = reach(d.children, u, None).filter(|w: Text| d.nodes[w].resource_type != "exposure"@).len();
            let up = reach(d.parents, u, None).len();
            &&& impact_text_of(d, u) == "# Impact: "@ + n.name + "\n\n"@ + "- unique_id: `"@ + u + "`\n"@ + "- direct: "@ + decimal(n.direct_up)
                + " upstream / "@ + decimal(n.direct_down) + " downstream\n"@ + ("- transitive: "@ + decimal(up) + " upstream / "@ + decimal(down)
                + " downstream\n"@) + rest
            &&& holds_text(rest, "\n"@ + "##"@ + " "@ + "Downstream (blast radius)"@ + " ("@ + decimal(down) + ")\n"@)
            &&& holds_text(rest, "\n"@ + "##"@ + " "@ + "Upstream"@ + " ("@ + decimal(up) + ")\n"@)
        }),
{
    broadcast use holds_in_sum;
    impact_is_counted(d, u);
    super::impact::report_lists_what_is_counted(d, u);
    let down = names_in(d, reach(d.children, u, None), false);
    let up = names_in(d, reach(d.parents, u, None), true);
    let es = crate::app::analysis::exposures_below(d, u);
    let a = impact_head(d.nodes[u], u) + transitive_line(up.len(), down.len());
    let b = count_line("affected exposures"@, es.len());
    let c = counted_heading("##"@, "Downstream (blast radius)"@, down.len());
    let e = bullets(down);
    let f = counted_heading("##"@, "Upstream"@, up.len());
    let g = bullets(up);
    let h = exposures_section(es);
    let rest = b + c + e + f + g + h;
    assert(a + b + c + e + f + g + h =~= a + rest);
    text_holds_itself(c);
    text_holds_itself(f);
    rest
}

/// The report on a change begins with the project, the baseline and the numbers
/// of changed nodes, edges and affected models.
pub proof fn change_report_begins_with_the_counts(project: Text, dv: DiffViewModel) -> (rest: Text)
    ensures
        pr_text(project, dv) == "# PR Impact Report: "@ + project + "\n\n"@ + "- baseline: `"@ + dv.baseline + "`\n"@ + "- changed: +"@ + decimal(
            dv.added.len(),
        ) + " added, ~"@ + decimal(dv.modified.len()) + " modified, -"@ + decimal(dv.removed.len()) + " removed\n"@ + "- edges: +"@ + decimal(
            dv.edges_added.len(),
        ) + " / -"@ + decimal(dv.edges_removed.len()) + "\n"@ + "- affected models: "@ + decimal(dv.pr.affected_models as nat) + "\n"@ + rest,
        dv.pr.ci_command matches Some(cmd) ==> holds_text(rest, "```sh\n"@ + cmd + "\n```\n"@),
        dv.pr.affected_marts.len() > 0 ==> holds_text(rest, "- "@ + "affected marts"@ + ": "@ + decimal(dv.pr.affected_marts.len()) + "\n"@),
        dv.pr.affected_exposures.len() > 0 ==> holds_text(
            rest,
            "- "@ + "affected exposures"@ + ": "@ + decimal(dv.pr.affected_exposures.len()) + "\n"@,
        ),
{
    broadcast use holds_in_sum;
    let a = pr_head(project, dv);
    let b = count_line("affected marts"@, dv.pr.affected_marts.len());
    let c = count_line("affected exposures"@, dv.pr.affected_exposures.len());
    let e = pr_changes(dv);
    let f = pr_radius(dv.pr);
    let g = names_section("##"@, "Affected exposures"@, dv.pr.affected_exposures);
    let h = pr_command(dv.pr);
    let i = pr_risks(dv.pr);
    let rest = b + c + e + f + g + h + i;
    assert(a + b + c + e + f + g + h + i =~= a + rest);
    text_holds_itself(b);
    text_holds_itself(c);
    if let Some(cmd) = dv.pr.ci_command {
        text_holds_itself("```sh\n"@ + cmd + "\n```\n"@);
        assert(holds_text(h, "```sh\n"@ + cmd + "\n```\n"@));
    }
    rest
}

/// The shown difference is labelled with the baseline and begins at the top.
pub proof fn differences_name_the_baseline(a: AppModel)
    requires
        a.diff is Some,
    ensures
        diff_view_of(a) is Some,
        diff_view_of(a)->0.baseline == a.diff_label,
        diff_view_of(a)->0.scroll == 0,
{
}

/// An exposure of which nothing is recorded is just called one.
pub proof fn bare_exposures_are_called_so()
    ensures
        exposure_text(None) == " ("@ + "exposure"@ + ""@ + ")"@,
{
}

// ---- documentation in parts ----

/// The index of a project of at least 150 nodes says how many there are, and
/// has a heading for every part with the number of its nodes.
pub proof fn parts_have_headings(d: DagModel, project: Text, source: Text, k: int)
    requires
        d.valid(),
        d.nodes.dom().len() >= 150,
        0 <= k < groups_of(d).len(),
    ensures
        ({
            let g = groups_of(d)[k];
            &&& holds_text(readme(d, project, source), "\n### "@ + g.label + " ("@ + decimal(g.uids.len()) + ")\n\n"@)
            &&& holds_text(readme(d, project, source), "This project has "@ + decimal(d.nodes.dom().len()) + " nodes (>= "@ + decimal(150))
        }),
{
    broadcast use holds_in_sum;
    let files = files_of(d);
    let g = groups_of(d)[k];
    let head = "\n### "@ + g.label + " ("@ + decimal(g.uids.len()) + ")\n\n"@;
    text_holds_itself(head);
    assert(holds_text(group_text(d, g, files), head));
    let f = |g: crate::docs::GroupModel| group_text(d, g, files);
    super::texts::every_part_is_written(groups_of(d), f, k);
    part_of_part(crate::text::rendered(groups_of(d), f), group_text(d, g, files), head);
    let note = "This project has "@ + decimal(d.nodes.dom().len()) + " nodes (>= "@ + decimal(150);
    text_holds_itself(note);
    assert(holds_text(split_note(d.nodes.dom().len()), note));
}

/// The page of a node lies in the directory of the models and is named after
/// the id, with a number where two ids would give the same name.
pub proof fn pages_lie_with_the_models(d: DagModel, u: Text)
    requires
        d.valid(),
        d.nodes.contains_key(u),
    ensures
        files_of(d)[u] == "models/"@ + stem_of(u) + ".md"@ || exists|n: nat| n >= 2 && files_of(d)[u] == "models/"@ + #[trigger] numbered(
            stem_of(u),
            n,
        ) + ".md"@,
{
    listing_exists(d.nodes.dom());
    let l = listing(d.nodes.dom());
    let base = |w: Text| stem_of(w);
    assert(l.contains(u));
    given_names(l, Set::empty(), base, u);
    crate::docs::pages_are_distinct(d, u, u);
    let id = given(l, Set::empty(), base).ids[u];
    assert(files_of(d)[u] == "models/"@ + id + ".md"@);
}

/// No Mermaid id is one of the words that Mermaid keeps for itself.
pub proof fn mermaid_ids_are_no_keywords(uids: Set<Text>, u: Text)
    requires
        uids.finite(),
        uids.contains(u),
    ensures
        ({
            let id = mermaid_ids_of(uids)[u];
            &&& id != "end"@ && id != "subgraph"@ && id != "graph"@ && id != "flowchart"@ && id != "direction"@
            &&& id != "style"@ && id != "linkStyle"@ && id != "classDef"@ && id != "class"@ && id != "click"@
        }),
{
    mermaid_ids_distinct(uids, u, u);
}

/// A node is shown as what it is materialized as, and as its resource type
/// where it is not.
pub proof fn kinds_are_materializations_first(n: NodeModel)
    ensures
        n.materialized matches Some(m) ==> kind_text(n) == m,
        n.materialized is None ==> kind_text(n) == n.resource_type,
{
}

/// Control characters are the first thirty-two, and those from delete on up to
/// the end of the second control block.
pub proof fn control_characters_are_two_blocks(c: char)
    ensures
        is_control(c) <==> (c as u32) < 32 || (127 <= c as u32 && (c as u32) < 160),
{
}

// ---- keys in the help ----

/// A key is written as what is printed on it: a character as itself but for the
/// space bar, and a chord behind the key that is held.
pub proof fn keys_are_written_as_printed(c: char)
    ensures
        c != ' ' ==> label_of(TriggerModel::Key(KeyCodeModel::Char(c))) == seq![c],
        label_of(TriggerModel::Key(KeyCodeModel::Char(' '))) == "Space"@,
        label_of(TriggerModel::Ctrl(c)) == "Ctrl-"@ + seq![c],
        label_of(TriggerModel::Super(c)) == "Cmd-"@ + seq![c],
{
    assert("Ctrl-"@.push(c) =~= "Ctrl-"@ + seq![c]);
    assert("Cmd-"@.push(c) =~= "Cmd-"@ + seq![c]);
}

// ---- previews and matches ----

/// Without recorded SQL the preview says so, with the kind of the node.
pub proof fn missing_sql_is_said(a: AppModel, u: Text)
    requires
        a.focus_id() == Some(u),
        a.dag.nodes.contains_key(u),
        !a.dag.sql.contains_key(u),
    ensures
        ({
            let b = step(a, Action::SqlOpen).0;
            b.mode is Sql && b.mode->Sql_0.sql == "(no SQL for this "@ + a.dag.nodes[u].resource_type + ")"@
        }),
{
    reveal(AppModel::sql_opened);
}

/// A blank query matches nothing in the lineage.
pub proof fn blank_queries_match_nothing(a: AppModel, q: Text)
    requires
        trimmed(q).len() == 0,
    ensures
        a.matches_of(q).len() == 0,
{
}

/// Enter on a model of the lineage other than the root makes it the root, where
/// the list has it.
pub proof fn enter_makes_the_root(a: AppModel, u: Text)
    requires
        coherent(a),
        a.focus_id() == Some(u),
        a.selected_id() != Some(u),
        a.dag.nodes.contains_key(u),
        a.dag.nodes[u].resource_type == "model"@,
        has_row(a.active(), u),
    ensures
        step(a, Action::DetailOpen).0.selected_id() == Some(u),
        step(a, Action::DetailOpen).0.mode == a.mode,
{
    reveal(AppModel::detail_opened);
    super::turns::jumps_select_and_remember(a, u);
    reveal(AppModel::jumped);
}

// ---- selection under a filter ----

/// While a list search narrows the list, the selection stays on its model as
/// long as that is shown, and else goes back to where the search began, or to
/// the top.
pub proof fn searching_keeps_the_selection(a: AppModel)
    requires
        coherent(a),
        a.list_search() is Some,
    ensures
        ({
            let b = a.refiltered();
            let from = a.list_search()->0.origin_uid;
            &&& a.selected_id() is Some && has_row(b.active(), a.selected_id()->0) ==> b.selected_id() == a.selected_id()
            &&& !(a.selected_id() is Some && has_row(b.active(), a.selected_id()->0)) && from is Some && has_row(b.active(), from->0)
                ==> b.selected_id() == from
            &&& !(a.selected_id() is Some && has_row(b.active(), a.selected_id()->0)) && !(from is Some && has_row(b.active(), from->0))
                ==> b.ui.selected == 0
        }),
{
    reveal(AppModel::refiltered);
    let s = a.list_search()->0;
    let hits = a.base().filter(|n: NodeModel| crate::model_list::subsequence(s.query, n.name));
    base_from_list(a);
    reveal(coherent);
    filter_is_no_longer(a.base(), |n: NodeModel| crate::model_list::subsequence(s.query, n.name));
    let c = AppModel { filter: Some(hits), ui: crate::ui::with_count(a.ui, crate::layout::capped(hits.len() as int)), ..a };
    assert(c.active() == hits);
    assert(c.ui.model_count == hits.len());
    if let Some(u) = a.selected_id() {
        rows_are_listed(c, u);
        if c.lists(u) {
            select_lands(c, u);
        }
    }
    if let Some(u) = s.origin_uid {
        rows_are_listed(c, u);
        if c.lists(u) {
            select_lands(c, u);
        }
    }
}

proof fn filter_is_no_longer<A>(s: Seq<A>, p: spec_fn(A) -> bool)
    ensures
        s.filter(p).len() <= s.len(),
    decreases s.len(),
{
    reveal(Seq::filter);
    if s.len() > 0 {
        filter_is_no_longer(s.drop_last(), p);
    }
}

/// A persistent filter keeps the selection on its model where that is still
/// shown, and else goes to the top.
pub proof fn filtering_keeps_the_selection(a: AppModel)
    requires
        coherent(a),
        a.list_search() is None,
        a.filter is None,
    ensures
        ({
            let b = a.list_filter_applied();
            &&& a.selected_id() is Some && has_row(b.active(), a.selected_id()->0) ==> b.selected_id() == a.selected_id()
            &&& !(a.selected_id() is Some && has_row(b.active(), a.selected_id()->0)) ==> b.ui.selected == 0
        }),
{
    reveal(AppModel::list_filter_applied);
    reveal(coherent);
    let x = AppModel { filtered_base: a.filtered(), ..a };
    base_from_list(a);
    let c = AppModel { ui: crate::ui::with_count(x.ui, crate::layout::capped(x.active().len() as int)), ..x };
    assert(c.active() == x.active());
    assert(c.active().len() <= usize::MAX);
    if let Some(u) = a.selected_id() {
        rows_are_listed(c, u);
        if c.lists(u) {
            select_lands(c, u);
        }
    }
}

/// With fewer than three steps back, the trail has all of them, and the root.
pub proof fn short_trails_name_every_step(a: AppModel, root: Text)
    requires
        a.back.len() <= 3,
        forall|i: int| 0 <= i < a.back.len() ==> a.dag.nodes.contains_key(#[trigger] a.back[i]),
        a.dag.nodes.contains_key(root),
    ensures
        trail_names(a, root) == a.back.map_values(|u: Text| a.dag.nodes[u].name).push(a.dag.nodes[root].name),
{
    let recent = a.back.skip(0);
    assert(recent =~= a.back);
    super::rows::kept_whole(a.back, |u: Text| a.dag.nodes.contains_key(u));
}

// ---- the order of texts ----

proof fn bytes_go_by_the_first_difference(a: Seq<u8>, b: Seq<u8>, k: int)
    requires
        0 <= k <= a.len(),
        k < b.len(),
        forall|i: int| 0 <= i < k ==> #[trigger] a[i] == b[i],
        k < a.len() ==> a[k] != b[k],
    ensures
        bytes_lt(a, b) <==> k == a.len() || a[k] < b[k],
        bytes_lt(b, a) <==> k < a.len() && b[k] < a[k],
    decreases k,
{
    if k > 0 {
        let c = a.drop_first();
        let d = b.drop_first();
        assert(a[0] == b[0]);
        assert forall|i: int| 0 <= i < k - 1 implies #[trigger] c[i] == d[i] by {
            assert(a[i + 1] == b[i + 1]);
        }
        bytes_go_by_the_first_difference(c, d, k - 1);
    }
}

/// Texts go by the first byte in which they differ, and what another text
/// continues comes before it.
pub proof fn texts_go_by_the_first_difference(a: Text, b: Text, k: int)
    requires
        0 <= k <= encode_utf8(a).len(),
        k < encode_utf8(b).len(),
        forall|i: int| 0 <= i < k ==> #[trigger] encode_utf8(a)[i] == encode_utf8(b)[i],
        k < encode_utf8(a).len() ==> encode_utf8(a)[k] != encode_utf8(b)[k],
    ensures
        text_lt(a, b) <==> k == encode_utf8(a).len() || encode_utf8(a)[k] < encode_utf8(b)[k],
        text_lt(b, a) <==> k < encode_utf8(a).len() && encode_utf8(b)[k] < encode_utf8(a)[k],
{
    reveal(text_lt);
    bytes_go_by_the_first_difference(encode_utf8(a), encode_utf8(b), k);
}

} // verus!
