//! What a change means for a project: the analysis behind the pull-request
//! report.

use vstd::prelude::*;

use crate::action::{PrImpact, PrModel};
use crate::dag::{add_all, coverage_gap, is_exposure, is_gap, is_testable, testable, Dag, DagModel};
use crate::diff::{name_in, DagDiff, DiffModel};
use crate::graph::reach;
use crate::model_list::{first_dir_or, layer_or};
use crate::sorted::{holds, in_order, listing, sort, StrSet};
use crate::text::{join_from, joined, str_eq, Text};
use super::analysis::{
    blast_hub, exposure_at, hubs_of, ids_passing, layer_violation_edges, named_edges, passing, texts_of, top, top_five,
    violations_of, Column, NodeTest,
};
use super::report::{exposure_note, exposure_text};

verus! {

/// What a change can touch.
#[derive(Debug, Clone, Copy, PartialEq, Eq, Structural)]
pub enum Touched {
    Model,
    /// A model of the layer `marts`.
    Mart,
    Exposure,
    /// A testable node without tests.
    Gap,
    /// What dbt builds: a model, snapshot or seed.
    Built,
}

/// Whether a node of a graph is of a kind.
pub open spec fn is_touched(d: DagModel, t: Touched, u: Text) -> bool {
    let n = d.nodes[u];
    d.nodes.contains_key(u) && match t {
        Touched::Model => n.resource_type == "model"@,
        Touched::Mart => n.resource_type == "model"@ && layer_or(n, ""@) == "marts"@,
        Touched::Exposure => n.resource_type == "exposure"@,
        Touched::Gap => is_gap(n),
        Touched::Built => testable(n.resource_type),
    }
}

/// The ids of a set that are of a kind, ascending.
pub open spec fn touched(d: DagModel, t: Touched, ids: Set<Text>) -> Seq<Text> {
    listing(ids).filter(|u: Text| is_touched(d, t, u))
}

/// The names of the nodes of a set that are of a kind, sorted.
pub open spec fn touched_names(d: DagModel, t: Touched, ids: Set<Text>) -> Seq<Text> {
    in_order::<String>(touched(d, t, ids).map_values(|u: Text| d.nodes[u].name))
}

/// The nodes of the current graph that a difference adds or modifies.
pub open spec fn changed_ids(diff: DiffModel) -> Set<Text> {
    diff.added.union(diff.modified.dom())
}

/// Everything downstream of one of these nodes.
pub open spec fn below(d: DagModel, ids: Set<Text>) -> Set<Text> {
    Set::new(|v: Text| exists|u: Text| ids.contains(u) && #[trigger] reach(d.children, u, None).contains(v))
}

/// The exposures of a set by name, each with its kind and owner.
pub open spec fn exposure_notes(d: DagModel, ids: Set<Text>) -> Seq<Text> {
    in_order::<(String, String)>(touched(d, Touched::Exposure, ids).map_values(|u: Text| (d.nodes[u].name, u))).map_values(
        |p: (Text, Text)| p.0 + exposure_text(exposure_at(d, p.1)),
    )
}

/// The command that builds the changed nodes and what is downstream of them;
/// none where dbt builds none of them.
pub open spec fn build_command(d: DagModel, changed: Set<Text>) -> Option<Text> {
    let names = touched_names(d, Touched::Built, changed);
    if names.len() == 0 {
        None
    } else {
        Some("dbt build --select "@ + joined(names.map_values(|n: Text| n + "+"@), " "@))
    }
}

/// A hub that changed: one that something is downstream of.
pub open spec fn is_changed_hub(h: (Text, Text, usize), changed: Set<Text>) -> bool {
    changed.contains(h.0) && h.2 > 0
}

/// The changed nodes among the five with the most descendants, each with the
/// number of its descendants.
pub open spec fn changed_hubs_of(d: DagModel, changed: Set<Text>) -> Seq<(Text, usize)> {
    top_five(passing(d, NodeTest::Any).map_values(|u: Text| blast_hub(d, u))).filter(
        |h: (Text, Text, usize)| is_changed_hub(h, changed),
    ).map_values(|h: (Text, Text, usize)| (h.1, h.2))
}

/// The edges of the current graph against the layer order that the baseline
/// does not have, by name, sorted.
pub open spec fn new_violations(base: Option<DagModel>, d: DagModel) -> Seq<(Text, Text)> {
    let known = match base {
        Some(b) => violations_of(b),
        None => Seq::empty(),
    };
    in_order::<(String, String)>(
        violations_of(d).filter(|e: (Text, Text)| !known.contains(e)).map_values(
            |e: (Text, Text)| (name_in(d, e.0), name_in(d, e.1)),
        ),
    )
}

/// The analysis of a difference between a baseline and the current graph.
#[verifier::opaque]
pub open spec fn impact_of(base: Option<DagModel>, d: DagModel, diff: DiffModel) -> PrModel {
    let changed = changed_ids(diff);
    let down = below(d, changed);
    PrModel {
        affected_models: touched(d, Touched::Model, down).len() as usize,
        affected_marts: touched_names(d, Touched::Mart, down),
        affected_exposures: exposure_notes(d, down),
        ci_command: build_command(d, changed),
        untested_changes: touched_names(d, Touched::Gap, changed),
        changed_hubs: changed_hubs_of(d, changed),
        new_layer_violations: new_violations(base, d),
    }
}

fn in_touched(dag: &Dag, t: Touched, uid: &str) -> (r: bool)
    requires
        dag.wf(),
    ensures
        r == is_touched(dag.deep_view(), t, uid@),
{
    match dag.get(uid) {
        None => false,
        Some(n) => {
            let model = str_eq(n.resource_type.as_str(), "model");
            match t {
                Touched::Model => model,
                Touched::Mart => model && str_eq(first_dir_or(n, "").as_str(), "marts"),
                Touched::Exposure => is_exposure(n),
                Touched::Gap => coverage_gap(n),
                Touched::Built => is_testable(n.resource_type.as_str()),
            }
        },
    }
}

fn touched_in(dag: &Dag, t: Touched, set: &StrSet) -> (r: Vec<String>)
    requires
        dag.wf(),
        set.wf(),
    ensures
        r.deep_view() == touched(dag.deep_view(), t, set@),
        forall|i: int| 0 <= i < r@.len() ==> dag.deep_view().nodes.contains_key((#[trigger] r@[i])@),
{
    let ghost d = dag.deep_view();
    let ghost items = set.items();
    let ghost p = |u: Text| is_touched(d, t, u);
    let mut out: Vec<String> = Vec::new();
    let mut i: usize = 0;
    proof {
        set.items_listed();
        reveal(Seq::filter);
        assert(out.deep_view() =~= items.take(0).filter(p));
    }
    while i < set.len()
        invariant
            dag.wf(),
            set.wf(),
            d == dag.deep_view(),
            items == set.items(),
            p == (|u: Text| is_touched(d, t, u)),
            i <= items.len(),
            out.deep_view() == items.take(i as int).filter(p),
            forall|j: int| 0 <= j < out@.len() ==> d.nodes.contains_key((#[trigger] out@[j])@),
        decreases items.len() - i,
    {
        let uid = set.at(i);
        let ghost o = out.deep_view();
        proof {
            reveal(Seq::filter);
            assert(items.take(i + 1).drop_last() =~= items.take(i as int));
        }
        if in_touched(dag, t, uid.as_str()) {
            out.push(uid.clone());
            assert(out.deep_view() =~= o.push(uid@));
        }
        i = i + 1;
    }
    assert(items.take(items.len() as int) =~= items);
    out
}

fn names_touched(dag: &Dag, t: Touched, set: &StrSet) -> (r: Vec<String>)
    requires
        dag.wf(),
        set.wf(),
    ensures
        r.deep_view() == touched_names(dag.deep_view(), t, set@),
{
    let ghost d = dag.deep_view();
    let ids = touched_in(dag, t, set);
    let names = texts_of(dag, &ids, Column::Name);
    assert(names.deep_view() =~= touched(d, t, set@).map_values(|u: Text| d.nodes[u].name));
    sort(names)
}

/// Everything downstream of one of these nodes.
fn all_below(dag: &Dag, ids: &StrSet) -> (r: StrSet)
    requires
        dag.wf(),
        ids.wf(),
    ensures
        r.wf(),
        r@ == below(dag.deep_view(), ids@),
{
    let ghost d = dag.deep_view();
    let ghost items = ids.items();
    let mut out = StrSet::new();
    let mut i: usize = 0;
    proof {
        ids.items_listed();
        assert(out@ =~= below(d, items.take(0).to_set()));
    }
    while i < ids.len()
        invariant
            dag.wf(),
            ids.wf(),
            d == dag.deep_view(),
            items == ids.items(),
            i <= items.len(),
            out.wf(),
            out@ == below(d, items.take(i as int).to_set()),
        decreases items.len() - i,
    {
        let ghost o = out@;
        let ghost before = items.take(i as int);
        let ghost after = items.take(i + 1);
        let down = dag.downstream(ids.at(i).as_str());
        add_all(&mut out, &down);
        proof {
            let u = items[i as int];
            assert(after =~= before.push(u));
            assert(after.to_set() =~= before.to_set().insert(u)) by {
                assert forall|x: Text| after.to_set().contains(x) <==> before.to_set().insert(u).contains(x) by {
                    if before.contains(x) {
                        let k = before.index_of(x);
                        assert(after[k] == x);
                    }
                    assert(after[i as int] == u);
                    if after.contains(x) && x != u {
                        let k = after.index_of(x);
                        assert(before[k] == x);
                    }
                }
            }
            assert forall|v: Text| out@.contains(v) <==> below(d, after.to_set()).contains(v) by {
                if o.contains(v) {
                    let w = choose|w: Text| before.to_set().contains(w) && #[trigger] reach(d.children, w, None).contains(v);
                    assert(after.to_set().contains(w));
                }
                if down@.contains(v) {
                    assert(after.to_set().contains(u));
                    assert(reach(d.children, u, None).contains(v));
                }
                if below(d, after.to_set()).contains(v) {
                    let w = choose|w: Text| after.to_set().contains(w) && #[trigger] reach(d.children, w, None).contains(v);
                    if w != u {
                        assert(before.to_set().contains(w));
                    }
                }
            }
            assert(out@ =~= below(d, after.to_set()));
        }
        i = i + 1;
    }
    assert(items.take(items.len() as int) =~= items);
    out
}

fn notes_on(dag: &Dag, set: &StrSet) -> (r: Vec<String>)
    requires
        dag.wf(),
        set.wf(),
    ensures
        r.deep_view() == exposure_notes(dag.deep_view(), set@),
{
    let ghost d = dag.deep_view();
    let ids = touched_in(dag, Touched::Exposure, set);
    let mut pairs: Vec<(String, String)> = Vec::new();
    let mut i: usize = 0;
    while i < ids.len()
        invariant
            dag.wf(),
            d == dag.deep_view(),
            forall|i: int| 0 <= i < ids@.len() ==> d.nodes.contains_key((#[trigger] ids@[i])@),
            i <= ids@.len(),
            pairs@.len() == i,
            forall|j: int| 0 <= j < i ==> (#[trigger] pairs@[j]).deep_view() == (d.nodes[ids@[j]@].name, ids@[j]@),
        decreases ids@.len() - i,
    {
        assert(d.nodes.contains_key(ids@[i as int]@));
        match dag.get(ids[i].as_str()) {
            Some(n) => {
                pairs.push((n.name.clone(), ids[i].clone()));
            },
            None => {},
        }
        i = i + 1;
    }
    assert(pairs.deep_view() =~= touched(d, Touched::Exposure, set@).map_values(|u: Text| (d.nodes[u].name, u)));
    let ordered = sort(pairs);
    let ghost ov = ordered.deep_view();
    let mut out: Vec<String> = Vec::new();
    let mut k: usize = 0;
    while k < ordered.len()
        invariant
            dag.wf(),
            d == dag.deep_view(),
            ov == ordered.deep_view(),
            k <= ordered@.len(),
            out@.len() == k,
            forall|j: int| 0 <= j < k ==> (#[trigger] out@[j])@ == ov[j].0 + exposure_text(exposure_at(d, ov[j].1)),
        decreases ordered@.len() - k,
    {
        assert(ov[k as int] == ordered@[k as int].deep_view());
        let mut line = ordered[k].0.clone();
        let note = exposure_note(dag.exposure(ordered[k].1.as_str()));
        line.append(note.as_str());
        out.push(line);
        k = k + 1;
    }
    assert(out.deep_view() =~= exposure_notes(d, set@));
    out
}

fn command_for(dag: &Dag, changed: &StrSet) -> (r: Option<String>)
    requires
        dag.wf(),
        changed.wf(),
    ensures
        r.deep_view() == build_command(dag.deep_view(), changed@),
{
    let names = names_touched(dag, Touched::Built, changed);
    let ghost nv = names.deep_view();
    if names.len() == 0 {
        assert(nv.len() == 0);
        return None;
    }
    let mut parts: Vec<String> = Vec::new();
    let mut i: usize = 0;
    while i < names.len()
        invariant
            i <= names@.len(),
            nv == names.deep_view(),
            parts@.len() == i,
            forall|j: int| 0 <= j < i ==> (#[trigger] parts@[j])@ == nv[j] + "+"@,
        decreases names@.len() - i,
    {
        let mut part = names[i].clone();
        part.append("+");
        parts.push(part);
        i = i + 1;
    }
    assert(parts.deep_view() =~= nv.map_values(|n: Text| n + "+"@));
    assert(parts.deep_view().skip(0) =~= parts.deep_view());
    let mut out = "dbt build --select ".to_owned();
    let list = join_from(&parts, 0, " ");
    out.append(list.as_str());
    assert(nv.len() > 0);
    Some(out)
}

fn hubs_changed(dag: &Dag, changed: &StrSet) -> (r: Vec<(String, usize)>)
    requires
        dag.wf(),
        changed.wf(),
    ensures
        r.deep_view() == changed_hubs_of(dag.deep_view(), changed@),
{
    let ghost d = dag.deep_view();
    let all = ids_passing(dag, NodeTest::Any);
    let hubs = top(hubs_of(dag, &all, true));
    let ghost hv = hubs.deep_view();
    let ghost p = |h: (Text, Text, usize)| is_changed_hub(h, changed@);
    let ghost f = |h: (Text, Text, usize)| (h.1, h.2);
    let mut out: Vec<(String, usize)> = Vec::new();
    let mut i: usize = 0;
    proof {
        reveal(Seq::filter);
        assert(out.deep_view() =~= hv.take(0).filter(p).map_values(f));
    }
    while i < hubs.len()
        invariant
            changed.wf(),
            hv == hubs.deep_view(),
            p == (|h: (Text, Text, usize)| is_changed_hub(h, changed@)),
            f == (|h: (Text, Text, usize)| (h.1, h.2)),
            i <= hubs@.len(),
            out.deep_view() == hv.take(i as int).filter(p).map_values(f),
        decreases hubs@.len() - i,
    {
        let ghost o = out.deep_view();
        proof {
            reveal(Seq::filter);
            assert(hv[i as int] == hubs@[i as int].deep_view());
            assert(hv.take(i + 1).drop_last() =~= hv.take(i as int));
        }
        if changed.contains(hubs[i].0.as_str()) && hubs[i].2 > 0 {
            out.push((hubs[i].1.clone(), hubs[i].2));
            proof {
                assert(out.deep_view() =~= o.push(f(hv[i as int])));
                assert(hv.take(i + 1).filter(p).map_values(f) =~= hv.take(i as int).filter(p).map_values(f).push(f(hv[i as int])));
            }
        }
        i = i + 1;
    }
    assert(hv.take(hv.len() as int) =~= hv);
    out
}

fn violations_added(base: Option<&Dag>, dag: &Dag) -> (r: Vec<(String, String)>)
    requires
        dag.wf(),
        base matches Some(b) ==> b.wf(),
    ensures
        r.deep_view() == new_violations(base.deep_view(), dag.deep_view()),
{
    let ghost d = dag.deep_view();
    let known: Vec<(String, String)> = match base {
        Some(b) => layer_violation_edges(b),
        None => Vec::new(),
    };
    let ghost kv = known.deep_view();
    proof {
        if base is None {
            assert(kv =~= Seq::empty());
        }
    }
    let now = layer_violation_edges(dag);
    let ghost nv = now.deep_view();
    let ghost p = |e: (Text, Text)| !kv.contains(e);
    let mut fresh: Vec<(String, String)> = Vec::new();
    let mut i: usize = 0;
    proof {
        reveal(Seq::filter);
        assert(fresh.deep_view() =~= nv.take(0).filter(p));
    }
    while i < now.len()
        invariant
            kv == known.deep_view(),
            nv == now.deep_view(),
            p == (|e: (Text, Text)| !kv.contains(e)),
            i <= now@.len(),
            fresh.deep_view() == nv.take(i as int).filter(p),
        decreases now@.len() - i,
    {
        let ghost o = fresh.deep_view();
        proof {
            reveal(Seq::filter);
            assert(nv[i as int] == now@[i as int].deep_view());
            assert(nv.take(i + 1).drop_last() =~= nv.take(i as int));
        }
        if !holds(&known, &now[i]) {
            let pair = (now[i].0.clone(), now[i].1.clone());
            let ghost pv = pair.deep_view();
            fresh.push(pair);
            assert(fresh.deep_view() =~= o.push(pv));
        }
        i = i + 1;
    }
    assert(nv.take(nv.len() as int) =~= nv);
    sort(named_edges(dag, &fresh))
}

/// The nodes that a difference adds or modifies.
fn changed_in(diff: &DagDiff) -> (r: StrSet)
    requires
        diff.wf(),
    ensures
        r.wf(),
        r@ == changed_ids(diff.deep_view()),
{
    let mut out = diff.added.clone();
    let ghost added = diff.added@;
    let ghost keys = diff.modified.key_list();
    let mut i: usize = 0;
    proof {
        diff.modified.keys_listed();
        assert(out@ =~= added.union(keys.take(0).to_set()));
    }
    while i < diff.modified.len()
        invariant
            diff.wf(),
            keys == diff.modified.key_list(),
            i <= keys.len(),
            out.wf(),
            out@ == added.union(keys.take(i as int).to_set()),
        decreases keys.len() - i,
    {
        out.insert(diff.modified.key_at(i).clone());
        proof {
            let before = keys.take(i as int);
            let after = keys.take(i + 1);
            assert(after =~= before.push(keys[i as int]));
            assert forall|x: Text| after.contains(x) <==> before.contains(x) || x == keys[i as int] by {
                if before.contains(x) {
                    let k = before.index_of(x);
                    assert(after[k] == x);
                }
                assert(after[i as int] == keys[i as int]);
                if after.contains(x) && x != keys[i as int] {
                    let k = after.index_of(x);
                    assert(before[k] == x);
                }
            }
            assert(out@ =~= added.union(after.to_set()));
        }
        i = i + 1;
    }
    proof {
        assert(keys.take(keys.len() as int) =~= keys);
        assert(diff.deep_view().modified.dom() =~= diff.modified@.dom());
        assert(out@ =~= changed_ids(diff.deep_view()));
    }
    out
}

/// Analyses a difference between a baseline and the current graph: what is
/// downstream of the added and modified nodes, how to build it, and the risks.
pub fn pr_impact_data(base: Option<&Dag>, dag: &Dag, diff: &DagDiff) -> (r: PrImpact)
    requires
        dag.wf(),
        diff.wf(),
        base matches Some(b) ==> b.wf(),
    ensures
        r.deep_view() == impact_of(base.deep_view(), dag.deep_view(), diff.deep_view()),
{
    proof {
        reveal(impact_of);
    }
    let changed = changed_in(diff);
    let down = all_below(dag, &changed);
    let models = touched_in(dag, Touched::Model, &down);
    assert(models@.len() == models.deep_view().len());
    PrImpact {
        affected_models: models.len(),
        affected_marts: names_touched(dag, Touched::Mart, &down),
        affected_exposures: notes_on(dag, &down),
        ci_command: command_for(dag, &changed),
        untested_changes: names_touched(dag, Touched::Gap, &changed),
        changed_hubs: hubs_changed(dag, &changed),
        new_layer_violations: violations_added(base, dag),
    }
}

} // verus!
