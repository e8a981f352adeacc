//! What the dashboard and the title bar count.

use vstd::prelude::*;
use vstd::set_lib::*;

use super::pull::{blast, runs_back, top_five_are_the_largest, violations_run_back};
use crate::app::analysis::{
    blast_hub, breakdown, degree_hub, passes, passing, stats_view_of, tally_of, top_five, violations_of, NodeTest,
};
use crate::app::{count_of, stats_of, AppModel};
use crate::dag::{occurrences, DagModel};
use crate::diff::name_in;
use crate::graph::{linked, reach, reach_stays};
use crate::sorted::{in_order, in_order_sorted, listing, listing_exists, listing_filtered, Sortable};
use crate::text::{text_le, text_lt, Text};

verus! {

/// The nodes of a graph that something holds of.
pub open spec fn nodes_where(d: DagModel, p: spec_fn(Text) -> bool) -> Set<Text> {
    Set::new(|u: Text| d.nodes.contains_key(u) && p(u))
}

proof fn listed_where(d: DagModel, p: spec_fn(Text) -> bool)
    requires
        d.nodes.dom().finite(),
    ensures
        listing(d.nodes.dom()).filter(p) == listing(nodes_where(d, p)),
        nodes_where(d, p).finite(),
        listing(d.nodes.dom()).filter(p).len() == nodes_where(d, p).len(),
        nodes_where(d, p).len() <= d.nodes.dom().len(),
{
    listing_filtered(d.nodes.dom(), p);
    let s = d.nodes.dom();
    assert(nodes_where(d, p) =~= Set::new(|u: Text| s.contains(u) && p(u)));
    assert(nodes_where(d, p).subset_of(d.nodes.dom()));
    lemma_set_subset_finite(d.nodes.dom(), nodes_where(d, p));
    lemma_len_subset(nodes_where(d, p), d.nodes.dom());
    listing_exists(nodes_where(d, p));
}

pub(crate) proof fn passing_where(d: DagModel, t: NodeTest, p: spec_fn(Text) -> bool)
    requires
        d.nodes.dom().finite(),
        forall|u: Text| #[trigger] d.nodes.contains_key(u) ==> p(u) == passes(d, t, u),
    ensures
        passing(d, t) == listing(nodes_where(d, p)),
        passing(d, t).len() == nodes_where(d, p).len(),
        nodes_where(d, p).finite(),
        nodes_where(d, p).len() <= d.nodes.dom().len(),
{
    let q = |u: Text| passes(d, t, u);
    listed_where(d, q);
    assert forall|u: Text| #[trigger] nodes_where(d, p).contains(u) <==> nodes_where(d, q).contains(u) by {
        if d.nodes.contains_key(u) {
            assert(p(u) == passes(d, t, u));
        }
    }
    assert(nodes_where(d, p) =~= nodes_where(d, q));
}

/// A kind of resource that can be tested.
pub open spec fn can_be_tested(d: DagModel, u: Text) -> bool {
    let rt = d.nodes[u].resource_type;
    rt == "model"@ || rt == "snapshot"@ || rt == "seed"@
}

/// A model.
pub open spec fn a_model(d: DagModel, u: Text) -> bool {
    d.nodes[u].resource_type == "model"@
}

/// A node with a description.
pub open spec fn described(d: DagModel, u: Text) -> bool {
    d.details.contains_key(u) && d.details[u].description is Some
}

/// The counts of the dashboard: resources that can be tested, those with and
/// without tests, models that nothing depends on, and models without a
/// description.
pub proof fn dashboard_counts(a: AppModel)
    requires
        a.dag.nodes.dom().finite(),
        a.dag.nodes.dom().len() <= usize::MAX,
    ensures
        ({
            let d = a.dag;
            let v = stats_view_of(a);
            &&& v.testable_total == nodes_where(d, |u: Text| can_be_tested(d, u)).len()
            &&& v.testable_tested == nodes_where(d, |u: Text| can_be_tested(d, u) && d.nodes[u].test_count > 0).len()
            &&& v.untested_testable == nodes_where(d, |u: Text| can_be_tested(d, u) && d.nodes[u].test_count == 0).len()
            &&& v.zero_downstream_models == nodes_where(d, |u: Text| a_model(d, u) && d.nodes[u].direct_down == 0).len()
            &&& v.no_description_models == nodes_where(d, |u: Text| a_model(d, u) && !described(d, u)).len()
            &&& v.project == a.stats.project
            &&& v.scroll == 0
        }),
{
    let d = a.dag;
    reveal(stats_view_of);
    let testable = |u: Text| can_be_tested(d, u);
    let tested = |u: Text| can_be_tested(d, u) && d.nodes[u].test_count > 0;
    let bare = |u: Text| can_be_tested(d, u) && d.nodes[u].test_count == 0;
    passing_where(d, NodeTest::Testable, testable);
    passing_where(d, NodeTest::Tested, tested);
    passing_where(d, NodeTest::Leaf, |u: Text| a_model(d, u) && d.nodes[u].direct_down == 0);
    passing_where(d, NodeTest::Undescribed, |u: Text| a_model(d, u) && !described(d, u));
    let x = nodes_where(d, tested);
    let y = nodes_where(d, bare);
    assert(nodes_where(d, testable) =~= x.union(y));
    listed_where(d, bare);
    assert(x.disjoint(y));
    lemma_set_disjoint_lens(x, y);
}

proof fn occurrences_are_counted(s: Seq<Text>, f: spec_fn(Text) -> Text, k: Text)
    ensures
        occurrences(s.map_values(f), k) == s.filter(|u: Text| f(u) == k).len(),
    decreases s.len(),
{
    reveal(Seq::filter);
    if s.len() > 0 {
        occurrences_are_counted(s.drop_last(), f, k);
        assert(s.map_values(f).drop_last() =~= s.drop_last().map_values(f));
    }
}

proof fn tallied(d: DagModel, p: spec_fn(Text) -> bool, f: spec_fn(Text) -> Text, k: Text, n: usize)
    requires
        d.nodes.dom().finite(),
        d.nodes.dom().len() <= usize::MAX,
    ensures
        ({
            let t = tally_of(listing(d.nodes.dom()).filter(p).map_values(f));
            &&& t.contains((k, n)) <==> n > 0 && n == nodes_where(d, |u: Text| p(u) && f(u) == k).len()
            &&& forall|i: int, j: int| 0 <= i < j < t.len() ==> text_lt((#[trigger] t[i]).0, (#[trigger] t[j]).0)
        }),
{
    let ids = listing(d.nodes.dom()).filter(p);
    let keys = ids.map_values(f);
    let t = tally_of(keys);
    let l = listing(keys.to_set());
    let both = |u: Text| p(u) && f(u) == k;
    let part = nodes_where(d, p);
    listed_where(d, p);
    listed_where(d, both);
    listing_exists(part);
    listing_exists(keys.to_set());
    occurrences_are_counted(ids, f, k);
    let q = |u: Text| f(u) == k;
    listing_filtered(part, q);
    assert(Set::new(|u: Text| part.contains(u) && q(u)) =~= nodes_where(d, both));
    listing_exists(nodes_where(d, both));
    assert(occurrences(keys, k) == nodes_where(d, both).len());
    assert forall|i: int| 0 <= i < t.len() implies #[trigger] t[i] == (l[i], occurrences(keys, l[i]) as usize) by {}
    if t.contains((k, n)) {
        let i = t.index_of((k, n));
        assert(t[i] == (l[i], occurrences(keys, l[i]) as usize));
        assert(l.contains(l[i]));
        assert(keys.to_set().contains(k));
        let j = keys.index_of(k);
        assert(part.contains(ids[j])) by {
            assert(ids.contains(ids[j]));
        }
        assert(nodes_where(d, both).contains(ids[j]));
        assert(nodes_where(d, both).len() > 0);
    }
    if n > 0 && n == nodes_where(d, both).len() {
        let w = nodes_where(d, both).choose();
        assert(nodes_where(d, both).contains(w)) by {
            if nodes_where(d, both) =~= Set::empty() {
            }
        }
        assert(part.contains(w));
        assert(ids.contains(w));
        let j = ids.index_of(w);
        assert(keys[j] == k);
        assert(keys.to_set().contains(k));
        let i = l.index_of(k);
        assert(t[i] == (k, n));
    }
}

/// The dashboard counts the nodes of every resource type, ascending by type.
pub proof fn dashboard_counts_types(a: AppModel, rt: Text, n: usize)
    requires
        a.dag.nodes.dom().finite(),
        a.dag.nodes.dom().len() <= usize::MAX,
    ensures
        ({
            let d = a.dag;
            let t = stats_view_of(a).by_resource_type;
            &&& t.contains((rt, n)) <==> n > 0 && n == nodes_where(d, |u: Text| d.nodes[u].resource_type == rt).len()
            &&& forall|i: int, j: int| 0 <= i < j < t.len() ==> text_lt((#[trigger] t[i]).0, (#[trigger] t[j]).0)
        }),
{
    let d = a.dag;
    reveal(stats_view_of);
    let p = |u: Text| passes(d, NodeTest::Any, u);
    let f = |u: Text| d.nodes[u].resource_type;
    tallied(d, p, f, rt, n);
    assert(nodes_where(d, |u: Text| p(u) && f(u) == rt) =~= nodes_where(d, |u: Text| d.nodes[u].resource_type == rt));
}

/// The dashboard counts the models of every materialization, with one place for
/// those without.
pub proof fn dashboard_counts_materializations(a: AppModel, mat: Text, n: usize)
    requires
        a.dag.nodes.dom().finite(),
        a.dag.nodes.dom().len() <= usize::MAX,
    ensures
        ({
            let d = a.dag;
            let t = stats_view_of(a).by_materialization;
            &&& t.contains((mat, n)) <==> n > 0 && n == nodes_where(
                d,
                |u: Text|
                    a_model(d, u) && (d.nodes[u].materialized == Some(mat) || (d.nodes[u].materialized is None && mat == "(none)"@)),
            ).len()
            &&& forall|i: int, j: int| 0 <= i < j < t.len() ==> text_lt((#[trigger] t[i]).0, (#[trigger] t[j]).0)
        }),
{
    let d = a.dag;
    reveal(stats_view_of);
    let p = |u: Text| passes(d, NodeTest::Model, u);
    let f = |u: Text| crate::diff::shown(d.nodes[u].materialized);
    tallied(d, p, f, mat, n);
    assert(nodes_where(d, |u: Text| p(u) && f(u) == mat) =~= nodes_where(
        d,
        |u: Text| a_model(d, u) && (d.nodes[u].materialized == Some(mat) || (d.nodes[u].materialized is None && mat == "(none)"@)),
    ));
}

/// The dashboard names every model without parents and children, in order, and
/// nothing else.
pub proof fn dashboard_names_orphans(a: AppModel)
    requires
        a.dag.nodes.dom().finite(),
    ensures
        ({
            let d = a.dag;
            let l = stats_view_of(a).orphan_models;
            let lone = nodes_where(d, |u: Text| a_model(d, u) && d.nodes[u].direct_up == 0 && d.nodes[u].direct_down == 0);
            &&& l.len() == lone.len()
            &&& forall|u: Text| #[trigger] lone.contains(u) ==> l.contains(d.nodes[u].name)
            &&& forall|s: Text| #[trigger] l.contains(s) ==> exists|u: Text| #[trigger] lone.contains(u) && d.nodes[u].name == s
            &&& forall|i: int, j: int| 0 <= i < j < l.len() ==> text_le(#[trigger] l[i], #[trigger] l[j])
        }),
{
    let d = a.dag;
    reveal(stats_view_of);
    let p = |u: Text| a_model(d, u) && d.nodes[u].direct_up == 0 && d.nodes[u].direct_down == 0;
    passing_where(d, NodeTest::Orphan, p);
    let lone = nodes_where(d, p);
    listing_exists(lone);
    let ids = listing(lone);
    let names = ids.map_values(|u: Text| d.nodes[u].name);
    in_order_sorted::<String>(names);
    let l = stats_view_of(a).orphan_models;
    assert(l == in_order::<String>(names));
    assert forall|u: Text| #[trigger] lone.contains(u) implies l.contains(d.nodes[u].name) by {
        assert(ids.contains(u));
        assert(names[ids.index_of(u)] == d.nodes[u].name);
        assert(names.contains(d.nodes[u].name));
    }
    assert forall|s: Text| #[trigger] l.contains(s) implies exists|u: Text| #[trigger] lone.contains(u) && d.nodes[u].name == s by {
        assert(names.contains(s));
        let i = names.index_of(s);
        assert(ids.contains(ids[i]));
        assert(lone.contains(ids[i]) && d.nodes[ids[i]].name == s);
    }
    let le = |a: Text, b: Text| <String as Sortable>::leq(a, b);
    assert forall|i: int, j: int| 0 <= i < j < l.len() implies text_le(#[trigger] l[i], #[trigger] l[j]) by {
        assert(le(l[i], l[j]));
    }
}

/// The dashboard names every edge between models that leads back in the flow,
/// and nothing else.
pub proof fn dashboard_names_violations(a: AppModel, s: (Text, Text))
    requires
        a.dag.valid(),
    ensures
        stats_view_of(a).layer_violations.contains(s) <==> exists|p: Text, c: Text| #[trigger]
            runs_back(a.dag, p, c) && s == (a.dag.nodes[p].name, a.dag.nodes[c].name),
{
    let d = a.dag;
    reveal(stats_view_of);
    let vs = violations_of(d);
    let named = vs.map_values(|e: (Text, Text)| (name_in(d, e.0), name_in(d, e.1)));
    in_order_sorted::<(String, String)>(named);
    let l = stats_view_of(a).layer_violations;
    if l.contains(s) {
        assert(named.contains(s));
        let i = named.index_of(s);
        let e = vs[i];
        assert(vs.contains((e.0, e.1)));
        violations_run_back(d, e.0, e.1);
        assert(linked(d.children, e.0, e.1));
        assert(d.children.dom().contains(e.0));
        assert(runs_back(d, e.0, e.1));
    }
    if exists|p: Text, c: Text| #[trigger] runs_back(d, p, c) && s == (d.nodes[p].name, d.nodes[c].name) {
        let (p, c) = choose|p: Text, c: Text| #[trigger] runs_back(d, p, c) && s == (d.nodes[p].name, d.nodes[c].name);
        violations_run_back(d, p, c);
        let i = vs.index_of((p, c));
        assert(linked(d.children, p, c));
        assert(d.children.dom().contains(p));
        assert(named[i] == s);
        assert(named.contains(s));
    }
}

proof fn all_are_listed(d: DagModel)
    requires
        d.nodes.dom().finite(),
    ensures
        forall|u: Text| #[trigger] passing(d, NodeTest::Any).contains(u) <==> d.nodes.contains_key(u),
        passing(d, NodeTest::Any).len() == d.nodes.dom().len(),
        passing(d, NodeTest::Any).no_duplicates(),
{
    let p = |u: Text| true;
    passing_where(d, NodeTest::Any, p);
    assert(nodes_where(d, p) =~= d.nodes.dom());
    listing_exists(d.nodes.dom());
}

/// The hubs of the dashboard: the five nodes with the most direct neighbours,
/// each with how many, and the numbers of the five that have the most
/// downstream.
pub proof fn dashboard_names_hubs(a: AppModel, u: Text, i: int)
    requires
        a.dag.valid(),
        a.dag.nodes.dom().len() <= usize::MAX,
        a.dag.nodes.contains_key(u),
        a.dag.nodes[u].direct_up + a.dag.nodes[u].direct_down <= usize::MAX,
        0 <= i < stats_view_of(a).top_hubs.len(),
    ensures
        ({
            let d = a.dag;
            let top = stats_view_of(a).top_hubs;
            let far = stats_view_of(a).transitive_hubs;
            let degree = d.nodes[u].direct_up + d.nodes[u].direct_down;
            let n = d.nodes.dom().len();
            &&& top.len() == if n < 5 { n } else { 5 }
            &&& far.len() == if n < 5 { n } else { 5 }
            &&& d.nodes.contains_key(top[i].0) && d.nodes[top[i].0].name == top[i].1
            &&& top[i].0 == u ==> top[i].2 == degree
            &&& degree > top[i].2 ==> top.contains((u, d.nodes[u].name, degree as usize))
            &&& exists|v: Text| #[trigger] d.nodes.contains_key(v) && far[i] == (d.nodes[v].name, blast(d, v) as usize)
            &&& blast(d, u) > far[i].1 ==> far.contains((d.nodes[u].name, blast(d, u) as usize))
        }),
{
    let d = a.dag;
    reveal(stats_view_of);
    let all = passing(d, NodeTest::Any);
    all_are_listed(d);
    let near = |w: Text| degree_hub(d, w);
    let wide = |w: Text| blast_hub(d, w);
    let raw = all.map_values(near);
    let rim = all.map_values(wide);
    let top = top_five(raw);
    let reach_top = top_five(rim);
    let cut = |h: (Text, Text, usize)| (h.1, h.2);
    let far = stats_view_of(a).transitive_hubs;
    assert(far == reach_top.map_values(cut));
    assert(stats_view_of(a).top_hubs == top);
    top_five_are_the_largest(raw);
    top_five_are_the_largest(rim);
    reach_stays(d.children, u, None, d.nodes.dom());
    lemma_len_subset(reach(d.children, u, None), d.nodes.dom());
    assert(all.contains(u));
    let j = all.index_of(u);
    assert(raw[j] == near(u) && rim[j] == wide(u));
    assert(raw.contains(near(u)) && rim.contains(wide(u)));
    assert(raw.contains(top[i]));
    let k = raw.index_of(top[i]);
    assert(all.contains(all[k]));
    assert(top[i] == near(all[k]));
    assert(rim.contains(reach_top[i]));
    let m = rim.index_of(reach_top[i]);
    assert(all.contains(all[m]));
    assert(reach_top[i] == wide(all[m]));
    assert(far[i] == cut(reach_top[i]));
    assert(d.nodes.contains_key(all[m]) && far[i] == (d.nodes[all[m]].name, blast(d, all[m]) as usize));
    if blast(d, u) > far[i].1 {
        assert(reach_top.contains(wide(u)));
        let q = reach_top.index_of(wide(u));
        assert(far[q] == cut(wide(u)));
    }
}

/// The title bar counts the nodes of each of five resource types.
pub proof fn title_counts_types(d: DagModel)
    requires
        d.nodes.dom().finite(),
    ensures
        ({
            let s = stats_of(d);
            &&& s.models == nodes_where(d, |u: Text| d.nodes[u].resource_type == "model"@).len()
            &&& s.sources == nodes_where(d, |u: Text| d.nodes[u].resource_type == "source"@).len()
            &&& s.seeds == nodes_where(d, |u: Text| d.nodes[u].resource_type == "seed"@).len()
            &&& s.snapshots == nodes_where(d, |u: Text| d.nodes[u].resource_type == "snapshot"@).len()
            &&& s.exposures == nodes_where(d, |u: Text| d.nodes[u].resource_type == "exposure"@).len()
        }),
{
    listed_where(d, |u: Text| d.nodes[u].resource_type == "model"@);
    listed_where(d, |u: Text| d.nodes[u].resource_type == "source"@);
    listed_where(d, |u: Text| d.nodes[u].resource_type == "seed"@);
    listed_where(d, |u: Text| d.nodes[u].resource_type == "snapshot"@);
    listed_where(d, |u: Text| d.nodes[u].resource_type == "exposure"@);
}

/// How many nodes have a resource type.
pub proof fn types_are_counted(d: DagModel, rt: Text)
    requires
        d.nodes.dom().finite(),
    ensures
        count_of(d, rt) == nodes_where(d, |u: Text| d.nodes[u].resource_type == rt).len(),
{
    listed_where(d, |u: Text| d.nodes[u].resource_type == rt);
}

/// The reach of a node: everything downstream of it is an exposure or not, and
/// both are counted, beside everything upstream.
pub proof fn impact_is_counted(d: DagModel, u: Text)
    requires
        d.valid(),
        d.nodes.contains_key(u),
    ensures
        ({
            let down = reach(d.children, u, None);
            let b = breakdown(d, u);
            &&& b.0 == down.filter(|w: Text| d.nodes[w].resource_type != "exposure"@).len()
            &&& b.1 == reach(d.parents, u, None).len()
            &&& b.2 == down.filter(|w: Text| d.nodes[w].resource_type == "exposure"@).len()
        }),
{
    let down = reach(d.children, u, None);
    reach_stays(d.children, u, None, d.nodes.dom());
    assert(down.subset_of(d.nodes.dom()));
    lemma_set_subset_finite(d.nodes.dom(), down);
    let p = |w: Text| d.nodes.contains_key(w) && d.nodes[w].resource_type == "exposure"@;
    listing_filtered(down, p);
    let exposed = down.filter(|w: Text| d.nodes[w].resource_type == "exposure"@);
    let others = down.filter(|w: Text| d.nodes[w].resource_type != "exposure"@);
    assert(Set::new(|w: Text| down.contains(w) && p(w)) =~= exposed) by {
        assert forall|w: Text| #[trigger] down.contains(w) implies d.nodes.contains_key(w) by {
            assert(d.nodes.dom().contains(w));
        }
    }
    listing_exists(exposed);
    assert(exposed.union(others) =~= down);
    assert(exposed.disjoint(others));
    lemma_set_disjoint_lens(exposed, others);
}

} // verus!
