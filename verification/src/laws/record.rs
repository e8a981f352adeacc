//! What the graph of a manifest records of each entry, field by field.

use vstd::prelude::*;

use super::texts::{blank, trimming_takes_the_ends};
use crate::dag::{
    at, cleaned, columns_of, dag_of, occurrences, test_info, test_le, test_targets, tests_added, tests_of,
    tests_recorded, ColumnModel, TestInfo, TestModel,
};
use crate::manifest::{RawColumnModel, RawManifestModel, RawNodeModel};
use crate::sorted::{in_order_sorted, listing, listing_exists, listing_filtered, Sortable};
use crate::text::{text_le, text_lt_irreflexive, trimmed, Text};

verus! {

/// Tests and operations are no part of a project's lineage.
pub open spec fn left_out(resource_type: Text) -> bool {
    resource_type == "test"@ || resource_type == "operation"@
}

/// An entry of `nodes` that no other table overrides.
pub open spec fn is_node(m: RawManifestModel, u: Text) -> bool {
    &&& m.nodes.contains_key(u)
    &&& !left_out(m.nodes[u].resource_type)
    &&& !(m.sources.contains_key(u) && !left_out(m.sources[u].resource_type))
    &&& !m.exposures.contains_key(u)
}

/// An entry of `sources` that no exposure overrides.
pub open spec fn is_source(m: RawManifestModel, u: Text) -> bool {
    m.sources.contains_key(u) && !left_out(m.sources[u].resource_type) && !m.exposures.contains_key(u)
}

/// The graph has a node for every entry of the three tables but the tests and
/// operations, and no other.
pub proof fn graph_has_every_entry(m: RawManifestModel, u: Text)
    ensures
        dag_of(m).nodes.contains_key(u) <==> is_node(m, u) || is_source(m, u) || m.exposures.contains_key(u),
        dag_of(m).details.contains_key(u) <==> dag_of(m).nodes.contains_key(u),
{
}

/// What is shown of a recorded description: the text between the white space at
/// its ends; nothing where there is no text.
pub open spec fn describes(raw: Option<Text>, shown: Option<Text>) -> bool {
    match (raw, shown) {
        (None, _) => shown is None,
        (Some(s), None) => blank(s),
        (Some(s), Some(t)) => t.len() > 0 && !blank(seq![t[0]]) && !blank(seq![t.last()]) && exists|a: Text, b: Text|
            blank(a) && blank(b) && s == #[trigger] (a + t + b),
    }
}

/// Every recorded column is shown, in the recorded order, by its name, else by
/// its key, with its type and with its description where that is not empty.
pub open spec fn lists_columns(raw: Seq<RawColumnModel>, shown: Seq<ColumnModel>) -> bool {
    &&& shown.len() == raw.len()
    &&& forall|i: int|
        0 <= i < raw.len() ==> {
            let c = #[trigger] shown[i];
            &&& c.name == (if raw[i].name is Some {
                raw[i].name->0
            } else {
                raw[i].key
            })
            &&& c.data_type == raw[i].data_type
            &&& c.description == (if raw[i].description is Some && raw[i].description->0.len() > 0 {
                raw[i].description
            } else {
                None
            })
        }
}

proof fn description_shown(raw: Option<Text>)
    ensures
        describes(raw, cleaned(raw)),
{
    if let Some(s) = raw {
        trimming_takes_the_ends(s);
        let t = trimmed(s);
        let (a, b) = choose|a: Text, b: Text| blank(a) && blank(b) && s == #[trigger] (a + t + b);
        if t.len() == 0 {
            assert(blank(s)) by {
                assert forall|i: int| 0 <= i < s.len() implies crate::text::is_white(#[trigger] s[i]) by {
                    if i < a.len() {
                        assert(s[i] == a[i]);
                    } else {
                        assert(s[i] == b[i - a.len()]);
                    }
                }
            }
        } else {
            assert(seq![t[0]][0] == t[0]);
            assert(seq![t.last()][0] == t.last());
        }
    }
}

proof fn columns_shown(raw: Seq<RawColumnModel>)
    ensures
        lists_columns(raw, columns_of(raw)),
{
}

/// What is recorded of a model, seed, snapshot or any other kept node.
pub proof fn nodes_keep_their_fields(m: RawManifestModel, u: Text)
    requires
        is_node(m, u),
    ensures
        ({
            let raw = m.nodes[u];
            let n = dag_of(m).nodes[u];
            let d = dag_of(m).details[u];
            &&& n.unique_id == u
            &&& n.name == raw.name
            &&& n.resource_type == raw.resource_type
            &&& n.path == raw.path
            &&& n.materialized == raw.materialized
            &&& d.materialized == raw.materialized
            &&& d.database == raw.database
            &&& d.schema == raw.schema
            &&& d.tags == raw.tags
            &&& d.original_file_path == raw.original_file_path
            &&& describes(raw.description, d.description)
            &&& lists_columns(raw.columns, d.columns)
        }),
{
    description_shown(m.nodes[u].description);
    columns_shown(m.nodes[u].columns);
}

/// What is recorded of a source; it has no materialization and no tags.
pub proof fn sources_keep_their_fields(m: RawManifestModel, u: Text)
    requires
        is_source(m, u),
    ensures
        ({
            let raw = m.sources[u];
            let n = dag_of(m).nodes[u];
            let d = dag_of(m).details[u];
            &&& n.unique_id == u
            &&& n.name == raw.name
            &&& n.resource_type == raw.resource_type
            &&& n.path == raw.path
            &&& n.materialized is None
            &&& d.materialized is None
            &&& d.database == raw.database
            &&& d.schema == raw.schema
            &&& d.tags.len() == 0
            &&& d.original_file_path == raw.original_file_path
            &&& describes(raw.description, d.description)
            &&& lists_columns(raw.columns, d.columns)
        }),
{
    description_shown(m.sources[u].description);
    columns_shown(m.sources[u].columns);
}

/// What is recorded of an exposure.
pub proof fn exposures_keep_their_fields(m: RawManifestModel, u: Text)
    requires
        m.exposures.contains_key(u),
    ensures
        ({
            let raw = m.exposures[u];
            let n = dag_of(m).nodes[u];
            let d = dag_of(m).details[u];
            let e = dag_of(m).exposures[u];
            &&& n.unique_id == u
            &&& n.name == raw.name
            &&& n.resource_type == "exposure"@
            &&& n.path == raw.path
            &&& n.materialized is None
            &&& d.materialized is None && d.database is None && d.schema is None
            &&& d.tags.len() == 0 && d.columns.len() == 0
            &&& d.original_file_path == raw.original_file_path
            &&& describes(raw.description, d.description)
            &&& dag_of(m).exposures.contains_key(u)
            &&& e.exposure_type == raw.exposure_type
            &&& e.owner_name == raw.owner_name
            &&& e.owner_email == raw.owner_email
            &&& e.url == raw.url
        }),
{
    description_shown(m.exposures[u].description);
}

/// Only exposures have what is recorded of exposures.
pub proof fn only_exposures_are_exposed(m: RawManifestModel, u: Text)
    ensures
        dag_of(m).exposures.contains_key(u) <==> m.exposures.contains_key(u),
{
}

/// The SQL of a node is what the manifest records, to the letter; nodes without
/// any, and all that is no kept entry of `nodes`, have none.
pub proof fn sql_is_recorded(m: RawManifestModel, u: Text)
    ensures
        dag_of(m).sql.contains_key(u) <==> m.nodes.contains_key(u) && !left_out(m.nodes[u].resource_type) && m.nodes[u].raw_code is Some,
        dag_of(m).sql.contains_key(u) ==> Some(dag_of(m).sql[u]) == m.nodes[u].raw_code,
{
}

// ---- tests ----

/// A test checks the node it is attached to, else all that it depends on.
pub open spec fn checks(n: RawNodeModel, u: Text) -> bool {
    &&& n.resource_type == "test"@
    &&& n.attached_node matches Some(t) ==> t == u
    &&& n.attached_node is None ==> n.depends_on.contains(u)
}

/// What is shown of a test: its name, its kind, `singular` for one that has
/// none, and its column.
pub open spec fn shows_test(n: RawNodeModel, t: TestModel) -> bool {
    &&& t.name == n.name
    &&& n.test_name matches Some(k) ==> t.kind == k
    &&& n.test_name is None ==> t.kind == "singular"@
    &&& t.column_name == n.column_name
}

/// `t` is what is shown of a test that checks `u`.
pub open spec fn shows_some_test(m: RawManifestModel, u: Text, t: TestModel) -> bool {
    exists|x: Text| #[trigger] m.nodes.contains_key(x) && checks(m.nodes[x], u) && shows_test(m.nodes[x], t)
}

proof fn occurs(s: Seq<Text>, x: Text)
    ensures
        occurrences(s, x) > 0 <==> s.contains(x),
        s.no_duplicates() && s.contains(x) ==> occurrences(s, x) == 1,
    decreases s.len(),
{
    if s.len() > 0 {
        let r = s.drop_last();
        occurs(r, x);
        assert(s[s.len() - 1] == s.last());
        if r.contains(x) {
            assert(s[r.index_of(x)] == x);
        }
        if s.contains(x) && x != s.last() {
            assert(r[s.index_of(x)] == x);
        }
        if s.no_duplicates() {
            assert(r.no_duplicates());
            if x == s.last() && r.contains(x) {
                assert(s[r.index_of(x)] == s[s.len() - 1]);
            }
        }
    }
}

proof fn added_tests(n: RawNodeModel, u: Text)
    ensures
        tests_added(n, u).len() > 0 <==> checks(n, u),
        forall|i: int| 0 <= i < tests_added(n, u).len() ==> #[trigger] tests_added(n, u)[i] == test_info(n),
        n.depends_on.no_duplicates() && checks(n, u) ==> tests_added(n, u).len() == 1,
{
    let ts = test_targets(n);
    occurs(ts, u);
    if let Some(t) = n.attached_node {
        assert(ts =~= seq![t]);
        assert(ts[0] == t);
    }
}

proof fn recorded_tests(nodes: Map<Text, RawNodeModel>, ids: Seq<Text>, u: Text)
    ensures
        forall|i: int|
            0 <= i < tests_recorded(nodes, ids, u).len() ==> exists|k: int|
                0 <= k < ids.len() && checks(nodes[#[trigger] ids[k]], u) && (#[trigger] tests_recorded(nodes, ids, u)[i]) == test_info(
                    nodes[ids[k]],
                ),
        forall|k: int|
            0 <= k < ids.len() && checks(nodes[#[trigger] ids[k]], u) ==> tests_recorded(nodes, ids, u).contains(
                test_info(nodes[ids[k]]),
            ),
        (forall|k: int| 0 <= k < ids.len() ==> nodes[#[trigger] ids[k]].depends_on.no_duplicates()) ==> tests_recorded(
            nodes,
            ids,
            u,
        ).len() == ids.filter(|t: Text| checks(nodes[t], u)).len(),
    decreases ids.len(),
{
    reveal(Seq::filter);
    if ids.len() > 0 {
        let rest = ids.drop_last();
        let x = ids.last();
        recorded_tests(nodes, rest, u);
        added_tests(nodes[x], u);
        let a = tests_recorded(nodes, rest, u);
        let b = tests_added(nodes[x], u);
        let all = tests_recorded(nodes, ids, u);
        assert(all == a + b);
        assert(ids[ids.len() - 1] == x);
        assert forall|i: int| 0 <= i < all.len() implies exists|k: int|
            0 <= k < ids.len() && checks(nodes[#[trigger] ids[k]], u) && (#[trigger] all[i]) == test_info(nodes[ids[k]]) by {
            if i < a.len() {
                assert(a[i] == all[i]);
                let k = choose|k: int| 0 <= k < rest.len() && checks(nodes[#[trigger] rest[k]], u) && a[i] == test_info(nodes[rest[k]]);
                assert(ids[k] == rest[k]);
            } else {
                assert(all[i] == b[i - a.len()]);
                assert(checks(nodes[ids[ids.len() - 1]], u));
            }
        }
        assert forall|k: int| 0 <= k < ids.len() && checks(nodes[#[trigger] ids[k]], u) implies all.contains(test_info(nodes[ids[k]])) by {
            if k < rest.len() {
                assert(rest[k] == ids[k]);
                let i = a.index_of(test_info(nodes[ids[k]]));
                assert(all[i] == a[i]);
            } else {
                assert(all[a.len() as int] == b[0]);
            }
        }
        if forall|k: int| 0 <= k < ids.len() ==> nodes[#[trigger] ids[k]].depends_on.no_duplicates() {
            assert forall|k: int| 0 <= k < rest.len() implies nodes[#[trigger] rest[k]].depends_on.no_duplicates() by {
                assert(rest[k] == ids[k]);
            }
        }
    }
}

/// The tests of a node are those of the manifest that check it, each with what
/// is shown of it, sorted by kind, then column, then name.
pub proof fn tests_are_those_that_check(m: RawManifestModel, u: Text)
    requires
        m.nodes.dom().finite(),
    ensures
        forall|t: Text| #[trigger] m.nodes.contains_key(t) && checks(m.nodes[t], u) ==> exists|i: int|
            0 <= i < at(dag_of(m).tests, u).len() && shows_test(m.nodes[t], #[trigger] at(dag_of(m).tests, u)[i]),
        forall|i: int| 0 <= i < at(dag_of(m).tests, u).len() ==> shows_some_test(m, u, #[trigger] at(dag_of(m).tests, u)[i]),
        forall|i: int, j: int|
            0 <= i < j < at(dag_of(m).tests, u).len() ==> test_le(
                #[trigger] at(dag_of(m).tests, u)[i],
                #[trigger] at(dag_of(m).tests, u)[j],
            ),
{
    let ids = listing(m.nodes.dom());
    listing_exists(m.nodes.dom());
    let raw = tests_recorded(m.nodes, ids, u);
    recorded_tests(m.nodes, ids, u);
    in_order_sorted::<TestInfo>(raw);
    let l = at(dag_of(m).tests, u);
    if raw.len() == 0 {
        assert(l.len() == 0);
    }
    assert forall|t: Text| #[trigger] m.nodes.contains_key(t) && checks(m.nodes[t], u) implies exists|i: int|
        0 <= i < l.len() && shows_test(m.nodes[t], #[trigger] l[i]) by {
        assert(ids.contains(t));
        let k = ids.index_of(t);
        assert(checks(m.nodes[ids[k]], u));
        assert(raw.contains(test_info(m.nodes[t])));
        assert(l.contains(test_info(m.nodes[t])));
        let i = l.index_of(test_info(m.nodes[t]));
        assert(shows_test(m.nodes[t], l[i]));
    }
    assert forall|i: int| 0 <= i < l.len() implies shows_some_test(m, u, #[trigger] l[i]) by {
        assert(l.contains(l[i]));
        assert(raw.contains(l[i]));
        let j = raw.index_of(l[i]);
        assert(raw[j] == l[i]);
        let k = choose|k: int| 0 <= k < ids.len() && checks(m.nodes[#[trigger] ids[k]], u) && raw[j] == test_info(m.nodes[ids[k]]);
        assert(ids.contains(ids[k]));
        assert(m.nodes.contains_key(ids[k]));
    }
    let le = |a: TestModel, b: TestModel| <TestInfo as Sortable>::leq(a, b);
    assert forall|i: int, j: int| 0 <= i < j < l.len() implies test_le(#[trigger] l[i], #[trigger] l[j]) by {
        assert(le(l[i], l[j]));
    }
}

/// A node counts one test for every test of the manifest that checks it, where
/// no test names a node twice.
pub proof fn tests_are_counted(m: RawManifestModel, u: Text)
    requires
        m.nodes.dom().finite(),
        forall|t: Text| #[trigger] m.nodes.contains_key(t) ==> m.nodes[t].depends_on.no_duplicates(),
    ensures
        dag_of(m).nodes.contains_key(u) ==> dag_of(m).nodes[u].test_count == Set::new(
            |t: Text| m.nodes.dom().contains(t) && checks(m.nodes[t], u),
        ).len(),
{
    let ids = listing(m.nodes.dom());
    listing_exists(m.nodes.dom());
    assert forall|k: int| 0 <= k < ids.len() implies m.nodes[#[trigger] ids[k]].depends_on.no_duplicates() by {
        assert(ids.contains(ids[k]));
        assert(m.nodes.contains_key(ids[k]));
    }
    recorded_tests(m.nodes, ids, u);
    let p = |t: Text| checks(m.nodes[t], u);
    listing_filtered(m.nodes.dom(), p);
    let s = Set::new(|t: Text| m.nodes.dom().contains(t) && p(t));
    vstd::set_lib::lemma_set_subset_finite(m.nodes.dom(), s);
    listing_exists(s);
    assert(s =~= Set::new(|t: Text| m.nodes.dom().contains(t) && checks(m.nodes[t], u)));
    let raw = tests_recorded(m.nodes, ids, u);
    in_order_sorted::<TestInfo>(raw);
    assert(at(tests_of(m), u).len() == raw.len());
}

/// The tests of a node go by kind, then by column, those of the whole node
/// first, then by name.
pub proof fn tests_are_in_order(m: RawManifestModel, u: Text, i: int, j: int)
    requires
        m.nodes.dom().finite(),
        0 <= i < j < at(dag_of(m).tests, u).len(),
    ensures
        ({
            let a = at(dag_of(m).tests, u)[i];
            let b = at(dag_of(m).tests, u)[j];
            &&& text_le(a.kind, b.kind)
            &&& a.kind == b.kind && b.column_name is None ==> a.column_name is None
            &&& a.kind == b.kind && a.column_name is Some && b.column_name is Some ==> text_le(a.column_name->0, b.column_name->0)
            &&& a.kind == b.kind && a.column_name == b.column_name ==> text_le(a.name, b.name)
        }),
{
    broadcast use text_lt_irreflexive;
    tests_are_those_that_check(m, u);
    let a = at(dag_of(m).tests, u)[i];
    let b = at(dag_of(m).tests, u)[j];
    assert(test_le(a, b));
}

} // verus!
