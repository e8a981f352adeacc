//! What the report on a change says, in terms of the two graphs.

use vstd::prelude::*;

use super::change::{
    differs, edges_are_compared, names_new_edge, reasons, removed_are_what_is_gone, statuses_say_what_changed,
};
use super::texts::{flow, holds_between, holds_text, holds_within, layer_is_the_first_directory, ranks_follow_the_flow};
use crate::app::analysis::{
    against_layers, blast_hub, diff_view_of, exposure_at, name_and_kind, passing, top_five, violations_of, NodeTest,
};
use crate::app::impact::{
    below, build_command, changed_ids, impact_of, is_changed_hub, is_touched, new_violations, touched, touched_names,
    Touched,
};
use crate::app::report::exposure_text;
use crate::app::{coherent, AppModel};
use crate::dag::{edge_list, edge_list_members, DagModel, NodeModel};
use crate::diff::{diff_of, name_in};
use crate::graph::{linked, reach, reach_stays};
use crate::model_list::{layer_of, layer_or, rank_of};
use crate::sorted::{
    filter_keeps, in_order, in_order_sorted, listing, listing_exists, listing_filtered, Sortable,
};
use crate::text::{joined, Text};

verus! {

// ---- edges against the layer order ----

/// The path of a node begins with this directory.
pub open spec fn stands_in(n: NodeModel, l: Text) -> bool {
    exists|rest: Text| !l.contains('/') && n.path == Some(#[trigger] (l + seq!['/'] + rest))
}

/// The place of a node in the flow of a project: that of its directory, behind
/// all of them where its directory is none of them.
pub open spec fn stands_at(n: NodeModel, i: int) -> bool {
    if 0 <= i < 4 {
        stands_in(n, flow()[i])
    } else {
        i == 4 && forall|k: int| 0 <= k < 4 ==> !stands_in(n, #[trigger] flow()[k])
    }
}

/// An edge between two models that leads back in the flow.
pub open spec fn runs_back(d: DagModel, p: Text, c: Text) -> bool {
    &&& linked(d.children, p, c)
    &&& d.nodes[p].resource_type == "model"@
    &&& d.nodes[c].resource_type == "model"@
    &&& exists|i: int, j: int| j < i && #[trigger] stands_at(d.nodes[p], i) && #[trigger] stands_at(d.nodes[c], j)
}

pub(crate) proof fn place_is_rank(n: NodeModel, i: int)
    ensures
        stands_at(n, i) <==> rank_of(layer_or(n, ""@)) == i,
{
    let l = layer_or(n, ""@);
    ranks_follow_the_flow(l);
    assert forall|k: int| 0 <= k < 4 implies (stands_in(n, #[trigger] flow()[k]) <==> layer_of(n) == Some(flow()[k])) by {
        layer_is_the_first_directory(n, flow()[k]);
    }
    assert(flow().len() == 4);
    if layer_of(n) is None {
        reveal_strlit("");
        reveal_strlit("staging");
        reveal_strlit("intermediate");
        reveal_strlit("marts");
        reveal_strlit("utilities");
        assert(""@.len() == 0);
        assert(flow()[0].len() > 0 && flow()[1].len() > 0 && flow()[2].len() > 0 && flow()[3].len() > 0);
        assert(!flow().contains(""@));
    }
    if 0 <= i < 4 {
        if stands_in(n, flow()[i]) {
            assert(l == flow()[i]);
        }
        if rank_of(l) == i {
            assert(layer_of(n) == Some(flow()[i]));
        }
    } else if i == 4 {
        if stands_at(n, 4) && rank_of(l) < 4 {
            let k = rank_of(l) as int;
            assert(flow()[k] == l);
            assert(stands_in(n, flow()[k]));
        }
        if rank_of(l) == 4 {
            assert forall|k: int| 0 <= k < 4 implies !stands_in(n, #[trigger] flow()[k]) by {
                if stands_in(n, flow()[k]) {
                    assert(l == flow()[k]);
                }
            }
        }
    }
}

proof fn back_is_against(d: DagModel, p: Text, c: Text)
    requires
        d.valid(),
        linked(d.children, p, c),
    ensures
        runs_back(d, p, c) <==> against_layers(d, (p, c)),
{
    assert(d.children.dom().contains(p));
    assert(d.nodes.contains_key(p) && d.nodes.contains_key(c));
    let i = rank_of(layer_or(d.nodes[p], ""@)) as int;
    let j = rank_of(layer_or(d.nodes[c], ""@)) as int;
    place_is_rank(d.nodes[p], i);
    place_is_rank(d.nodes[c], j);
    if runs_back(d, p, c) {
        let (x, y) = choose|x: int, y: int| y < x && #[trigger] stands_at(d.nodes[p], x) && #[trigger] stands_at(d.nodes[c], y);
        place_is_rank(d.nodes[p], x);
        place_is_rank(d.nodes[c], y);
    }
}

/// The layer violations are exactly the edges between models that lead back in
/// the flow from staging over intermediate and marts to utilities.
pub proof fn violations_run_back(d: DagModel, p: Text, c: Text)
    requires
        d.valid(),
    ensures
        violations_of(d).contains((p, c)) <==> runs_back(d, p, c),
{
    edge_list_members(d);
    filter_keeps(edge_list(d), |e: (Text, Text)| against_layers(d, e), (p, c));
    assert(edge_list(d).contains((p, c)) <==> linked(d.children, p, c));
    if linked(d.children, p, c) {
        back_is_against(d, p, c);
    }
}

/// A pair names an edge that leads back in `d` and did not in `base`.
pub open spec fn names_new_violation(base: DagModel, d: DagModel, e: (Text, Text)) -> bool {
    exists|p: Text, c: Text| #[trigger] runs_back(d, p, c) && !runs_back(base, p, c) && e == (d.nodes[p].name, d.nodes[c].name)
}

proof fn fresh_violations(base: DagModel, d: DagModel)
    requires
        base.valid(),
        d.valid(),
    ensures
        forall|p: Text, c: Text| #[trigger] runs_back(d, p, c) && !runs_back(base, p, c) ==> new_violations(Some(base), d).contains(
            (d.nodes[p].name, d.nodes[c].name),
        ),
        forall|e: (Text, Text)| #[trigger] new_violations(Some(base), d).contains(e) ==> names_new_violation(base, d, e),
{
    let known = violations_of(base);
    let all = violations_of(d);
    let fresh = |e: (Text, Text)| !known.contains(e);
    let name = |e: (Text, Text)| (name_in(d, e.0), name_in(d, e.1));
    let f = all.filter(fresh);
    let raw = f.map_values(name);
    in_order_sorted::<(String, String)>(raw);
    let r = new_violations(Some(base), d);
    assert forall|p: Text, c: Text| #[trigger] runs_back(d, p, c) implies d.nodes.contains_key(p) && d.nodes.contains_key(c) by {
        assert(linked(d.children, p, c));
        assert(d.children.dom().contains(p));
    }
    assert forall|p: Text, c: Text| #[trigger] runs_back(d, p, c) && !runs_back(base, p, c) implies r.contains(
        (d.nodes[p].name, d.nodes[c].name),
    ) by {
        violations_run_back(d, p, c);
        violations_run_back(base, p, c);
        filter_keeps(all, fresh, (p, c));
        let k = f.index_of((p, c));
        assert(raw[k] == name((p, c)));
        assert(raw.contains(name((p, c))));
    }
    assert forall|e: (Text, Text)| #[trigger] r.contains(e) implies names_new_violation(base, d, e) by {
        assert(raw.contains(e));
        let k = raw.index_of(e);
        let (p, c) = f[k];
        assert(f.contains((p, c)));
        filter_keeps(all, fresh, (p, c));
        violations_run_back(d, p, c);
        violations_run_back(base, p, c);
        assert(runs_back(d, p, c));
    }
}

// ---- what a change touches ----

/// A node of the current graph that the baseline lacks, or that differs from
/// what the baseline has.
pub open spec fn changed(base: DagModel, d: DagModel, u: Text) -> bool {
    d.nodes.contains_key(u) && (!base.nodes.contains_key(u) || differs(base, d, u))
}

/// A node downstream of a changed one.
pub open spec fn affected(base: DagModel, d: DagModel, v: Text) -> bool {
    exists|u: Text| changed(base, d, u) && #[trigger] reach(d.children, u, None).contains(v)
}

/// What dbt builds.
pub open spec fn buildable(n: NodeModel) -> bool {
    n.resource_type == "model"@ || n.resource_type == "snapshot"@ || n.resource_type == "seed"@
}

/// Some node of which this holds has this name.
pub open spec fn named(d: DagModel, p: spec_fn(Text) -> bool, x: Text) -> bool {
    exists|u: Text| #[trigger] p(u) && d.nodes[u].name == x
}

proof fn touched_ids(d: DagModel, t: Touched, ids: Set<Text>)
    requires
        ids.finite(),
    ensures
        forall|u: Text| #[trigger] touched(d, t, ids).contains(u) <==> ids.contains(u) && is_touched(d, t, u),
        touched(d, t, ids).len() == Set::new(|u: Text| ids.contains(u) && is_touched(d, t, u)).len(),
{
    let p = |u: Text| is_touched(d, t, u);
    listing_exists(ids);
    listing_filtered(ids, p);
    let s = Set::new(|u: Text| ids.contains(u) && p(u));
    assert(s =~= Set::new(|u: Text| ids.contains(u) && is_touched(d, t, u)));
    vstd::set_lib::lemma_set_subset_finite(ids, s);
    listing_exists(s);
    assert forall|u: Text| #[trigger] touched(d, t, ids).contains(u) <==> ids.contains(u) && is_touched(d, t, u) by {
        assert(s.contains(u) <==> ids.contains(u) && p(u));
    }
}

proof fn names_touched_hold(d: DagModel, t: Touched, ids: Set<Text>, p: spec_fn(Text) -> bool, x: Text)
    requires
        ids.finite(),
        forall|u: Text| #[trigger] p(u) <==> ids.contains(u) && is_touched(d, t, u),
    ensures
        touched_names(d, t, ids).contains(x) <==> named(d, p, x),
        touched_names(d, t, ids).len() == touched(d, t, ids).len(),
{
    touched_ids(d, t, ids);
    let l = touched(d, t, ids);
    let name = |u: Text| d.nodes[u].name;
    let raw = l.map_values(name);
    in_order_sorted::<String>(raw);
    if named(d, p, x) {
        let u = choose|u: Text| #[trigger] p(u) && d.nodes[u].name == x;
        assert(l.contains(u));
        let k = l.index_of(u);
        assert(raw[k] == x);
        assert(raw.contains(x));
    }
    if raw.contains(x) {
        let k = raw.index_of(x);
        assert(l.contains(l[k]));
        assert(p(l[k]));
    }
}

proof fn sets_of_the_change(a: AppModel, base: DagModel)
    requires
        coherent(a),
        a.diff_base == Some(base),
        base.valid(),
    ensures
        ({
            let diff = diff_of(base, a.dag);
            &&& a.dag.valid()
            &&& a.diff == Some(diff)
            &&& forall|u: Text| #[trigger] changed_ids(diff).contains(u) <==> changed(base, a.dag, u)
            &&& forall|v: Text| #[trigger] below(a.dag, changed_ids(diff)).contains(v) <==> affected(base, a.dag, v)
            &&& changed_ids(diff).finite()
            &&& below(a.dag, changed_ids(diff)).finite()
        }),
{
    reveal(coherent);
    let d = a.dag;
    let diff = diff_of(base, d);
    let ids = changed_ids(diff);
    assert forall|u: Text| #[trigger] ids.contains(u) <==> changed(base, d, u) by {
        statuses_say_what_changed(base, d, u);
        if d.nodes.contains_key(u) && base.nodes.contains_key(u) {
            super::change::reasons_are_the_changes(base, d, u);
        }
    }
    assert(ids.subset_of(d.nodes.dom()));
    vstd::set_lib::lemma_set_subset_finite(d.nodes.dom(), ids);
    let down = below(d, ids);
    assert forall|v: Text| #[trigger] down.contains(v) <==> affected(base, d, v) by {
        if down.contains(v) {
            let u = choose|u: Text| ids.contains(u) && #[trigger] reach(d.children, u, None).contains(v);
            assert(changed(base, d, u) && reach(d.children, u, None).contains(v));
        }
        if affected(base, d, v) {
            let u = choose|u: Text| changed(base, d, u) && #[trigger] reach(d.children, u, None).contains(v);
            assert(ids.contains(u) && reach(d.children, u, None).contains(v));
        }
    }
    assert(down.subset_of(d.nodes.dom())) by {
        assert forall|v: Text| down.contains(v) implies d.nodes.dom().contains(v) by {
            let u = choose|u: Text| ids.contains(u) && #[trigger] reach(d.children, u, None).contains(v);
            reach_stays(d.children, u, None, d.nodes.dom());
        }
    }
    vstd::set_lib::lemma_set_subset_finite(d.nodes.dom(), down);
}

/// The blast radius of a change: the affected models are the models downstream
/// of a changed node, the affected marts those of them below `marts/`.
pub proof fn blast_radius_is_downstream(a: AppModel, base: DagModel)
    requires
        coherent(a),
        a.diff_base == Some(base),
        base.valid(),
        a.dag.nodes.dom().len() <= usize::MAX,
    ensures
        diff_view_of(a) is Some,
        ({
            let d = a.dag;
            let pr = diff_view_of(a)->0.pr;
            let hit = |v: Text| affected(base, d, v) && d.nodes[v].resource_type == "model"@;
            let mart = |v: Text| affected(base, d, v) && d.nodes[v].resource_type == "model"@ && stands_in(d.nodes[v], "marts"@);
            &&& pr.affected_models == Set::new(hit).len()
            &&& pr.affected_marts.len() == Set::new(mart).len()
            &&& forall|x: Text| #[trigger] pr.affected_marts.contains(x) <==> named(d, mart, x)
        }),
{
    sets_of_the_change(a, base);
    reveal(impact_of);
    let d = a.dag;
    let ids = changed_ids(diff_of(base, d));
    let down = below(d, ids);
    let pr = diff_view_of(a)->0.pr;
    let hit = |v: Text| affected(base, d, v) && d.nodes[v].resource_type == "model"@;
    let mart = |v: Text| affected(base, d, v) && d.nodes[v].resource_type == "model"@ && stands_in(d.nodes[v], "marts"@);
    touched_ids(d, Touched::Model, down);
    touched_ids(d, Touched::Mart, down);
    assert forall|v: Text| down.contains(v) implies d.nodes.contains_key(v) by {
        let u = choose|u: Text| ids.contains(u) && #[trigger] reach(d.children, u, None).contains(v);
        reach_stays(d.children, u, None, d.nodes.dom());
    }
    let s = Set::new(|u: Text| down.contains(u) && is_touched(d, Touched::Model, u));
    assert(s =~= Set::new(hit)) by {
        assert forall|v: Text| s.contains(v) <==> hit(v) by {
            assert(down.contains(v) <==> affected(base, d, v));
        }
    }
    vstd::set_lib::lemma_len_subset(s, d.nodes.dom());
    let t = Set::new(|u: Text| down.contains(u) && is_touched(d, Touched::Mart, u));
    assert forall|v: Text| #[trigger] mart(v) <==> down.contains(v) && is_touched(d, Touched::Mart, v) by {
        assert(down.contains(v) <==> affected(base, d, v));
        layer_is_the_first_directory(d.nodes[v], "marts"@);
        reveal_strlit("marts");
        reveal_strlit("");
        assert("marts"@.len() == 5 && ""@.len() == 0);
    }
    assert(t =~= Set::new(mart));
    assert forall|x: Text| #[trigger] pr.affected_marts.contains(x) <==> named(d, mart, x) by {
        names_touched_hold(d, Touched::Mart, down, mart, x);
    }
    names_touched_hold(d, Touched::Mart, down, mart, Seq::empty());
}

/// An exposure with the note on its kind and owner.
pub open spec fn exposure_entry(d: DagModel, u: Text) -> Text {
    d.nodes[u].name + exposure_text(if d.exposures.contains_key(u) { Some(d.exposures[u]) } else { None })
}

/// An entry of some exposure downstream of a changed node.
pub open spec fn notes_affected(base: DagModel, d: DagModel, x: Text) -> bool {
    exists|u: Text| #[trigger] affected(base, d, u) && d.nodes[u].resource_type == "exposure"@ && x == exposure_entry(d, u)
}

/// The affected exposures are those downstream of a changed node, one entry for
/// each.
pub proof fn affected_exposures_are_downstream(a: AppModel, base: DagModel)
    requires
        coherent(a),
        a.diff_base == Some(base),
        base.valid(),
    ensures
        ({
            let d = a.dag;
            let pr = diff_view_of(a)->0.pr;
            &&& forall|u: Text| #[trigger] affected(base, d, u) && d.nodes[u].resource_type == "exposure"@ ==> pr.affected_exposures.contains(
                exposure_entry(d, u),
            )
            &&& forall|x: Text| #[trigger] pr.affected_exposures.contains(x) ==> notes_affected(base, d, x)
            &&& pr.affected_exposures.len() == Set::new(
                |u: Text| affected(base, d, u) && d.nodes[u].resource_type == "exposure"@,
            ).len()
        }),
{
    sets_of_the_change(a, base);
    reveal(impact_of);
    let d = a.dag;
    let ids = changed_ids(diff_of(base, d));
    let down = below(d, ids);
    touched_ids(d, Touched::Exposure, down);
    let l = touched(d, Touched::Exposure, down);
    let pair = |u: Text| (d.nodes[u].name, u);
    let note = |p: (Text, Text)| p.0 + exposure_text(exposure_at(d, p.1));
    let raw = l.map_values(pair);
    in_order_sorted::<(String, String)>(raw);
    let o = in_order::<(String, String)>(raw);
    let r = diff_view_of(a)->0.pr.affected_exposures;
    assert(r == o.map_values(note));
    assert forall|v: Text| down.contains(v) implies d.nodes.contains_key(v) by {
        let u = choose|u: Text| ids.contains(u) && #[trigger] reach(d.children, u, None).contains(v);
        reach_stays(d.children, u, None, d.nodes.dom());
    }
    assert forall|u: Text| #[trigger] affected(base, d, u) && d.nodes[u].resource_type == "exposure"@ implies r.contains(
        exposure_entry(d, u),
    ) by {
        assert(down.contains(u));
        assert(l.contains(u));
        let k = l.index_of(u);
        assert(raw[k] == pair(u));
        assert(raw.contains(pair(u)));
        assert(o.contains(pair(u)));
        let j = o.index_of(pair(u));
        assert(r[j] == exposure_entry(d, u));
    }
    assert forall|x: Text| #[trigger] r.contains(x) implies notes_affected(base, d, x) by {
        let j = r.index_of(x);
        assert(o.contains(o[j]));
        assert(raw.contains(o[j]));
        let k = raw.index_of(o[j]);
        assert(l.contains(l[k]));
        assert(down.contains(l[k]));
        assert(affected(base, d, l[k]));
        assert(x == exposure_entry(d, l[k]));
    }
    let s = Set::new(|u: Text| down.contains(u) && is_touched(d, Touched::Exposure, u));
    assert(s =~= Set::new(|u: Text| affected(base, d, u) && d.nodes[u].resource_type == "exposure"@)) by {
        assert forall|v: Text| s.contains(v) <==> affected(base, d, v) && d.nodes[v].resource_type == "exposure"@ by {
            assert(down.contains(v) <==> affected(base, d, v));
        }
    }
}

/// The untested changes are the changed models, snapshots and seeds without
/// tests.
pub proof fn untested_changes_have_no_tests(a: AppModel, base: DagModel)
    requires
        coherent(a),
        a.diff_base == Some(base),
        base.valid(),
    ensures
        ({
            let d = a.dag;
            let pr = diff_view_of(a)->0.pr;
            let untested = |u: Text| changed(base, d, u) && buildable(d.nodes[u]) && d.nodes[u].test_count == 0;
            &&& forall|x: Text| #[trigger] pr.untested_changes.contains(x) <==> named(d, untested, x)
            &&& pr.untested_changes.len() == Set::new(untested).len()
        }),
{
    sets_of_the_change(a, base);
    reveal(impact_of);
    let d = a.dag;
    let ids = changed_ids(diff_of(base, d));
    let pr = diff_view_of(a)->0.pr;
    let untested = |u: Text| changed(base, d, u) && buildable(d.nodes[u]) && d.nodes[u].test_count == 0;
    assert forall|v: Text| #[trigger] untested(v) <==> ids.contains(v) && is_touched(d, Touched::Gap, v) by {
        assert(ids.contains(v) <==> changed(base, d, v));
    }
    assert forall|x: Text| #[trigger] pr.untested_changes.contains(x) <==> named(d, untested, x) by {
        names_touched_hold(d, Touched::Gap, ids, untested, x);
    }
    names_touched_hold(d, Touched::Gap, ids, untested, Seq::empty());
    touched_ids(d, Touched::Gap, ids);
    assert(Set::new(|u: Text| ids.contains(u) && is_touched(d, Touched::Gap, u)) =~= Set::new(untested));
}

proof fn joined_holds(parts: Seq<Text>, sep: Text, k: int)
    requires
        0 <= k < parts.len(),
    ensures
        holds_text(joined(parts, sep), parts[k]),
    decreases parts.len(),
{
    let e = Seq::<char>::empty();
    if parts.len() == 1 {
        holds_between(e, parts[0], e);
        assert(e + parts[0] + e =~= parts[0]);
    } else {
        let r = parts.drop_last();
        let t = joined(parts, sep);
        if k < r.len() {
            joined_holds(r, sep, k);
            holds_within(joined(r, sep), e, sep + parts.last(), parts[k]);
            assert(e + joined(r, sep) + (sep + parts.last()) =~= t);
        } else {
            holds_between(joined(r, sep) + sep, parts.last(), e);
            assert(joined(r, sep) + sep + parts.last() + e =~= t);
        }
    }
}

/// The suggested command builds: there is one exactly where something that dbt
/// builds changed, it is a `dbt build` of selected nodes, and it selects every
/// such node with what is downstream of it.
pub proof fn command_builds_the_changes(a: AppModel, base: DagModel)
    requires
        coherent(a),
        a.diff_base == Some(base),
        base.valid(),
    ensures
        ({
            let d = a.dag;
            let command = diff_view_of(a)->0.pr.ci_command;
            &&& command is Some <==> exists|u: Text| #[trigger] changed(base, d, u) && buildable(d.nodes[u])
            &&& command matches Some(c) ==> "dbt build --select "@.is_prefix_of(c)
            &&& forall|u: Text| #[trigger] changed(base, d, u) && buildable(d.nodes[u]) ==> holds_text(
                command->0,
                d.nodes[u].name.push('+'),
            )
        }),
{
    sets_of_the_change(a, base);
    reveal(impact_of);
    let d = a.dag;
    let ids = changed_ids(diff_of(base, d));
    let command = diff_view_of(a)->0.pr.ci_command;
    let built = |u: Text| changed(base, d, u) && buildable(d.nodes[u]);
    assert forall|v: Text| #[trigger] built(v) <==> ids.contains(v) && is_touched(d, Touched::Built, v) by {
        assert(ids.contains(v) <==> changed(base, d, v));
    }
    let names = touched_names(d, Touched::Built, ids);
    let parts = names.map_values(|n: Text| n + "+"@);
    let head = "dbt build --select "@;
    reveal_strlit("+");
    assert(command == build_command(d, ids));
    assert forall|u: Text| #[trigger] changed(base, d, u) && buildable(d.nodes[u]) implies names.len() > 0 && holds_text(
        command->0,
        d.nodes[u].name.push('+'),
    ) by {
        assert(built(u));
        names_touched_hold(d, Touched::Built, ids, built, d.nodes[u].name);
        assert(named(d, built, d.nodes[u].name));
        let k = names.index_of(d.nodes[u].name);
        joined_holds(parts, " "@, k);
        assert(parts[k] =~= d.nodes[u].name.push('+'));
        let e = Seq::<char>::empty();
        holds_within(joined(parts, " "@), head, e, parts[k]);
        assert(head + joined(parts, " "@) + e =~= command->0);
    }
    if names.len() > 0 {
        names_touched_hold(d, Touched::Built, ids, built, names[0]);
        assert(names.contains(names[0]));
        let u = choose|u: Text| #[trigger] built(u) && d.nodes[u].name == names[0];
        assert(changed(base, d, u) && buildable(d.nodes[u]));
        let c = command->0;
        assert(c.take(head.len() as int) =~= head);
    }
}

/// The new layer violations are the edges that lead back in the current graph
/// and did not in the baseline: what the baseline had is not reported again.
pub proof fn only_new_violations_are_reported(a: AppModel, base: DagModel)
    requires
        coherent(a),
        a.diff_base == Some(base),
        base.valid(),
    ensures
        ({
            let d = a.dag;
            let r = diff_view_of(a)->0.pr.new_layer_violations;
            &&& forall|p: Text, c: Text| #[trigger] runs_back(d, p, c) && !runs_back(base, p, c) ==> r.contains(
                (d.nodes[p].name, d.nodes[c].name),
            )
            &&& forall|e: (Text, Text)| #[trigger] r.contains(e) ==> names_new_violation(base, d, e)
            &&& (forall|p: Text, c: Text| #[trigger] runs_back(d, p, c) ==> runs_back(base, p, c)) ==> r.len() == 0
        }),
{
    sets_of_the_change(a, base);
    reveal(impact_of);
    fresh_violations(base, a.dag);
    let r = diff_view_of(a)->0.pr.new_layer_violations;
    if r.len() > 0 {
        assert(r.contains(r[0]));
    }
}

// ---- what the view lists ----

/// An added node by name and kind.
pub open spec fn lists_added(base: DagModel, d: DagModel, e: (Text, Text)) -> bool {
    exists|u: Text| #[trigger]
        d.nodes.contains_key(u) && !base.nodes.contains_key(u) && e == (d.nodes[u].name, d.nodes[u].resource_type)
}

/// A modified node by name, with its reasons in order.
pub open spec fn lists_modified(base: DagModel, d: DagModel, e: (Text, Text)) -> bool {
    exists|u: Text| #[trigger]
        d.nodes.contains_key(u) && base.nodes.contains_key(u) && differs(base, d, u) && e == (
            d.nodes[u].name,
            joined(reasons(base, d, u), "; "@),
        )
}

/// A removed node by name and kind.
pub open spec fn lists_removed(base: DagModel, d: DagModel, e: (Text, Text)) -> bool {
    exists|u: Text| #[trigger]
        base.nodes.contains_key(u) && !d.nodes.contains_key(u) && e == (base.nodes[u].name, base.nodes[u].resource_type)
}

/// The view of a comparison lists exactly what was added, modified and removed,
/// and the edges that came and went. It exists exactly where there is a
/// baseline, and names it.
pub proof fn view_lists_the_changes(a: AppModel, base: DagModel)
    requires
        coherent(a),
        base.valid(),
    ensures
        diff_view_of(a) is Some <==> a.diff_base is Some,
        a.diff_base == Some(base) ==> ({
            let d = a.dag;
            let v = diff_view_of(a)->0;
            &&& v.baseline == a.diff_label
            &&& forall|e: (Text, Text)| #[trigger] v.added.contains(e) <==> lists_added(base, d, e)
            &&& forall|e: (Text, Text)| #[trigger] v.modified.contains(e) <==> lists_modified(base, d, e)
            &&& forall|e: (Text, Text)| #[trigger] v.removed.contains(e) <==> lists_removed(base, d, e)
            &&& v.added.len() == d.nodes.dom().difference(base.nodes.dom()).len()
            &&& v.removed.len() == base.nodes.dom().difference(d.nodes.dom()).len()
            &&& forall|e: (Text, Text)| #[trigger] v.edges_added.contains(e) <==> names_new_edge(d, base, e)
            &&& forall|e: (Text, Text)| #[trigger] v.edges_removed.contains(e) <==> names_new_edge(base, d, e)
        }),
{
    reveal(coherent);
    let d = a.dag;
    if a.diff_base == Some(base) {
        let v = diff_view_of(a)->0;
        let diff = diff_of(base, d);
        assert(a.diff == Some(diff));
        // added
        vstd::set_lib::lemma_set_subset_finite(d.nodes.dom(), diff.added);
        listing_exists(diff.added);
        let f = |u: Text| name_and_kind(d, u);
        let l = listing(diff.added);
        in_order_sorted::<(String, String)>(l.map_values(f));
        assert forall|e: (Text, Text)| #[trigger] v.added.contains(e) <==> lists_added(base, d, e) by {
            if v.added.contains(e) {
                assert(l.map_values(f).contains(e));
                let k = l.map_values(f).index_of(e);
                assert(l.contains(l[k]));
                assert(diff.added.contains(l[k]));
                assert(d.nodes.contains_key(l[k]));
            }
            if lists_added(base, d, e) {
                let u = choose|u: Text| #[trigger]
                    d.nodes.contains_key(u) && !base.nodes.contains_key(u) && e == (d.nodes[u].name, d.nodes[u].resource_type);
                assert(diff.added.contains(u));
                assert(l.contains(u));
                let k = l.index_of(u);
                assert(l.map_values(f)[k] == e);
                assert(l.map_values(f).contains(e));
            }
        }
        // modified
        let keys = diff.modified.dom();
        assert forall|u: Text| keys.contains(u) <==> d.nodes.contains_key(u) && base.nodes.contains_key(u) && differs(base, d, u) by {
            statuses_say_what_changed(base, d, u);
            if d.nodes.contains_key(u) && base.nodes.contains_key(u) {
                super::change::reasons_are_the_changes(base, d, u);
            }
        }
        vstd::set_lib::lemma_set_subset_finite(d.nodes.dom(), keys);
        listing_exists(keys);
        let g = |u: Text| (name_and_kind(d, u).0, joined(diff.modified[u], "; "@));
        let m = listing(keys);
        in_order_sorted::<(String, String)>(m.map_values(g));
        assert forall|e: (Text, Text)| #[trigger] v.modified.contains(e) <==> lists_modified(base, d, e) by {
            if v.modified.contains(e) {
                assert(m.map_values(g).contains(e));
                let k = m.map_values(g).index_of(e);
                assert(m.contains(m[k]));
                assert(keys.contains(m[k]));
                assert(d.nodes.contains_key(m[k]));
            }
            if lists_modified(base, d, e) {
                let u = choose|u: Text| #[trigger]
                    d.nodes.contains_key(u) && base.nodes.contains_key(u) && differs(base, d, u) && e == (
                        d.nodes[u].name,
                        joined(reasons(base, d, u), "; "@),
                    );
                assert(keys.contains(u));
                assert(m.contains(u));
                let k = m.index_of(u);
                assert(m.map_values(g)[k] == e);
                assert(m.map_values(g).contains(e));
            }
        }
        // removed and edges
        removed_are_what_is_gone(base, d);
        edges_are_compared(base, d);
        assert forall|e: (Text, Text)| #[trigger] v.removed.contains(e) <==> lists_removed(base, d, e) by {
            if lists_removed(base, d, e) {
                let u = choose|u: Text| #[trigger]
                    base.nodes.contains_key(u) && !d.nodes.contains_key(u) && e == (base.nodes[u].name, base.nodes[u].resource_type);
                assert(base.nodes.contains_key(u));
            }
        }
        assert forall|e: (Text, Text)| #[trigger] v.edges_added.contains(e) <==> names_new_edge(d, base, e) by {
            new_edge_named(d, base, e);
        }
        assert forall|e: (Text, Text)| #[trigger] v.edges_removed.contains(e) <==> names_new_edge(base, d, e) by {
            new_edge_named(base, d, e);
        }
    }
}

proof fn new_edge_named(d: DagModel, other: DagModel, e: (Text, Text))
    requires
        d.valid(),
        other.valid(),
    ensures
        names_new_edge(d, other, e) ==> exists|p: Text, c: Text| #[trigger]
            linked(d.children, p, c) && !linked(other.children, p, c) && e == (d.nodes[p].name, d.nodes[c].name),
{
    if names_new_edge(d, other, e) {
        let (p, c) = choose|p: Text, c: Text| #[trigger]
            linked(d.children, p, c) && !linked(other.children, p, c) && e == (name_in(d, p), name_in(d, c));
        assert(d.children.dom().contains(p));
        assert(linked(d.children, p, c));
    }
}

// ---- hubs ----

/// How many nodes are downstream of a node.
pub open spec fn blast(d: DagModel, u: Text) -> nat {
    reach(d.children, u, None).len()
}

/// The five largest of a list of hubs: they come from it, none that is left out
/// is larger than one of them, larger ones come first, and of equally large
/// ones the smaller id.
pub proof fn top_five_are_the_largest(hubs: Seq<(Text, Text, usize)>)
    ensures
        ({
            let top = top_five(hubs);
            &&& top.len() == if hubs.len() < 5 { hubs.len() } else { 5 }
            &&& forall|i: int| 0 <= i < top.len() ==> hubs.contains(#[trigger] top[i])
            &&& forall|i: int, j: int|
                0 <= i < j < top.len() ==> (#[trigger] top[i]).2 > (#[trigger] top[j]).2 || (top[i].2 == top[j].2 && crate::text::text_le(
                    top[i].0,
                    top[j].0,
                ))
            &&& forall|h: (Text, Text, usize), i: int|
                #[trigger] hubs.contains(h) && !top.contains(h) && 0 <= i < top.len() ==> h.2 <= (#[trigger] top[i]).2
        }),
{
    in_order_sorted::<(String, String, usize)>(hubs);
    let l = in_order::<(String, String, usize)>(hubs);
    let top = top_five(hubs);
    let le = |a: (Text, Text, usize), b: (Text, Text, usize)| <(String, String, usize) as Sortable>::leq(a, b);
    assert forall|i: int, j: int| 0 <= i < j < l.len() implies (#[trigger] l[i]).2 > (#[trigger] l[j]).2 || (l[i].2 == l[j].2
        && crate::text::text_le(l[i].0, l[j].0)) by {
        assert(le(l[i], l[j]));
    }
    assert forall|i: int| 0 <= i < top.len() implies hubs.contains(#[trigger] top[i]) by {
        assert(l.contains(l[i]));
    }
    assert forall|h: (Text, Text, usize), i: int| #[trigger] hubs.contains(h) && !top.contains(h) && 0 <= i < top.len() implies h.2 <= (
    #[trigger] top[i]).2 by {
        assert(l.contains(h));
        let k = l.index_of(h);
        if k < top.len() {
            assert(top[k] == h);
        }
        assert(l[i].2 >= l[k].2);
    }
}

/// A changed hub is a changed node with something downstream, quoted with how
/// much; no more than five are named, and the changed node that has more
/// downstream than any other node is among them.
pub proof fn changed_hubs_reach_far(a: AppModel, base: DagModel, u: Text)
    requires
        coherent(a),
        a.diff_base == Some(base),
        base.valid(),
        a.dag.nodes.dom().len() <= usize::MAX,
    ensures
        ({
            let d = a.dag;
            let hubs = diff_view_of(a)->0.pr.changed_hubs;
            &&& hubs.len() <= 5
            &&& forall|i: int| 0 <= i < hubs.len() ==> exists|v: Text| #[trigger]
                changed(base, d, v) && d.nodes[v].name == (#[trigger] hubs[i]).0 && blast(d, v) == hubs[i].1 && hubs[i].1 > 0
            &&& changed(base, d, u) && blast(d, u) > 0 && (forall|v: Text| #[trigger]
                d.nodes.contains_key(v) && v != u ==> blast(d, v) < blast(d, u)) ==> hubs.contains((d.nodes[u].name, blast(d, u) as usize))
        }),
{
    sets_of_the_change(a, base);
    reveal(impact_of);
    let d = a.dag;
    let ids = changed_ids(diff_of(base, d));
    let all = passing(d, NodeTest::Any);
    let hub = |w: Text| blast_hub(d, w);
    let raw = all.map_values(hub);
    let top = top_five(raw);
    let keep = |h: (Text, Text, usize)| is_changed_hub(h, ids);
    let f = top.filter(keep);
    let hubs = diff_view_of(a)->0.pr.changed_hubs;
    let cut = |h: (Text, Text, usize)| (h.1, h.2);
    assert(hubs == f.map_values(cut));
    top_five_are_the_largest(raw);
    listing_exists(d.nodes.dom());
    assert forall|w: Text| #[trigger] all.contains(w) <==> d.nodes.contains_key(w) by {
        filter_keeps(listing(d.nodes.dom()), |x: Text| crate::app::analysis::passes(d, NodeTest::Any, x), w);
    }
    assert forall|w: Text| blast(d, w) <= usize::MAX by {
        reach_stays(d.children, w, None, d.nodes.dom());
        vstd::set_lib::lemma_len_subset(reach(d.children, w, None), d.nodes.dom());
    }
    filter_shorter(top, keep);
    assert forall|i: int| 0 <= i < hubs.len() implies exists|v: Text| #[trigger]
        changed(base, d, v) && d.nodes[v].name == (#[trigger] hubs[i]).0 && blast(d, v) == hubs[i].1 && hubs[i].1 > 0 by {
        assert(f.contains(f[i]));
        filter_keeps(top, keep, f[i]);
        let k = top.index_of(f[i]);
        assert(raw.contains(top[k]));
        let j = raw.index_of(top[k]);
        assert(f[i] == hub(all[j]));
        assert(ids.contains(all[j]));
        assert(changed(base, d, all[j]));
        assert(hubs[i] == cut(f[i]));
    }
    if changed(base, d, u) && blast(d, u) > 0 && (forall|v: Text| #[trigger]
        d.nodes.contains_key(v) && v != u ==> blast(d, v) < blast(d, u)) {
        assert(all.contains(u));
        let k = all.index_of(u);
        assert(raw[k] == hub(u));
        assert(raw.contains(hub(u)));
        if !top.contains(hub(u)) {
            assert(hub(u).2 <= top[0].2);
            assert(raw.contains(top[0]));
            let j = raw.index_of(top[0]);
            assert(all.contains(all[j]));
            assert(top[0] == hub(all[j]));
            assert(d.nodes.contains_key(all[j]));
            if all[j] == u {
                assert(top.contains(top[0]));
            }
            assert(false);
        }
        assert(ids.contains(u));
        filter_keeps(top, keep, hub(u));
        let i = f.index_of(hub(u));
        assert(hubs[i] == cut(f[i]));
    }
}

proof fn filter_shorter<A>(s: Seq<A>, p: spec_fn(A) -> bool)
    ensures
        s.filter(p).len() <= s.len(),
    decreases s.len(),
{
    reveal(Seq::filter);
    if s.len() > 0 {
        filter_shorter(s.drop_last(), p);
    }
}

} // verus!
