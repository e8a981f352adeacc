//! What a comparison finds, said of the two graphs.

use vstd::prelude::*;

use crate::dag::{at, edge_list_members, ColumnModel, DagModel, TestModel};
use crate::diff::{diff_of, edge_set, edges_only_in, name_in, reasons_of, status_of, DiffStatus};
use crate::graph::{linked, neighbours};
use crate::sorted::{
    distinct_in_order, distinct_in_order_exists, in_order_sorted, listing, listing_exists, listing_filtered,
};
use crate::text::{decimal, trimmed, Text};

verus! {

// ---- the surfaces of a node ----

/// The two graphs build a node in different ways.
pub open spec fn other_materialization(base: DagModel, d: DagModel, u: Text) -> bool {
    base.details[u].materialized != d.details[u].materialized
}

/// One of the graphs has a direct parent of the node that the other lacks.
pub open spec fn other_parents(base: DagModel, d: DagModel, u: Text) -> bool {
    exists|x: Text| #[trigger] linked(base.parents, u, x) != linked(d.parents, u, x)
}

/// The columns of a node that is no seed differ in a name or a type, or in
/// number; their order does not count.
pub open spec fn other_columns(base: DagModel, d: DagModel, u: Text) -> bool {
    d.nodes[u].resource_type != "seed"@ && base.details[u].columns.map_values(|c: ColumnModel| (c.name, c.data_type)).to_multiset()
        != d.details[u].columns.map_values(|c: ColumnModel| (c.name, c.data_type)).to_multiset()
}

/// The tests of a node differ in a kind or a column, or in number.
pub open spec fn other_tests(base: DagModel, d: DagModel, u: Text) -> bool {
    at(base.tests, u).map_values(|t: TestModel| (t.kind, t.column_name)).to_multiset() != at(d.tests, u).map_values(
        |t: TestModel| (t.kind, t.column_name),
    ).to_multiset()
}

/// Both graphs have SQL for a model, and it differs in more than white space at
/// its ends.
pub open spec fn other_sql(base: DagModel, d: DagModel, u: Text) -> bool {
    d.nodes[u].resource_type == "model"@ && base.sql.contains_key(u) && d.sql.contains_key(u) && trimmed(base.sql[u]) != trimmed(
        d.sql[u],
    )
}

/// Any of them.
pub open spec fn differs(base: DagModel, d: DagModel, u: Text) -> bool {
    other_materialization(base, d, u) || other_parents(base, d, u) || other_columns(base, d, u) || other_tests(base, d, u)
        || other_sql(base, d, u)
}

/// One where it holds.
pub open spec fn one(b: bool) -> nat {
    if b {
        1
    } else {
        0
    }
}

/// The reasons of a node under a comparison; none where it is not modified.
pub open spec fn reasons(base: DagModel, d: DagModel, u: Text) -> Seq<Text> {
    at(diff_of(base, d).modified, u)
}

/// What is said of another materialization.
pub open spec fn materialization_reason(base: DagModel, d: DagModel, u: Text) -> Text {
    let name = |m: Option<Text>|
        if m is Some {
            m->0
        } else {
            "(none)"@
        };
    "materialized: "@ + name(base.details[u].materialized) + " -> "@ + name(d.details[u].materialized)
}

/// What is said of another number of tests.
pub open spec fn test_count_reason(base: DagModel, d: DagModel, u: Text) -> Text {
    "tests: "@ + decimal(at(base.tests, u).len()) + " -> "@ + decimal(at(d.tests, u).len())
}

proof fn same_neighbours(a: Seq<Text>, b: Seq<Text>)
    ensures
        a.to_set() != b.to_set() <==> exists|x: Text| #[trigger] a.contains(x) != b.contains(x),
{
    if a.to_set() != b.to_set() {
        if forall|x: Text| #[trigger] a.contains(x) == b.contains(x) {
            assert forall|x: Text| a.to_set().contains(x) == b.to_set().contains(x) by {
                assert(a.contains(x) == b.contains(x));
            }
            assert(a.to_set() =~= b.to_set());
        }
    }
    if exists|x: Text| #[trigger] a.contains(x) != b.contains(x) {
        let x = choose|x: Text| #[trigger] a.contains(x) != b.contains(x);
        assert(a.to_set().contains(x) != b.to_set().contains(x));
    }
}

proof fn multiset_lengths(a: Seq<(Text, Option<Text>)>, b: Seq<(Text, Option<Text>)>)
    ensures
        a.len() != b.len() ==> a.to_multiset() != b.to_multiset(),
{
    broadcast use vstd::seq_lib::group_to_multiset_ensures;
    assert(a.to_multiset().len() == a.len());
    assert(b.to_multiset().len() == b.len());
}

proof fn reason_parts(base: DagModel, d: DagModel, u: Text)
    requires
        base.valid(),
        d.valid(),
        base.nodes.contains_key(u),
        d.nodes.contains_key(u),
    ensures
        ({
            let r = reasons(base, d, u);
            let m = materialization_reason(base, d, u);
            let parts = (if other_materialization(base, d, u) { seq![m] } else { Seq::empty() }) + (if other_parents(base, d, u) {
                seq!["upstream deps changed"@]
            } else {
                Seq::empty()
            }) + (if other_columns(base, d, u) { seq!["columns changed"@] } else { Seq::empty() }) + (if !other_tests(base, d, u) {
                Seq::empty()
            } else if at(base.tests, u).len() == at(d.tests, u).len() {
                seq!["tests changed"@]
            } else {
                seq![test_count_reason(base, d, u)]
            }) + (if other_sql(base, d, u) { seq!["SQL changed"@] } else { Seq::empty() });
            &&& r == parts
            &&& diff_of(base, d).modified.contains_key(u) <==> parts.len() > 0
        }),
{
    let a = neighbours(base.parents, u);
    let b = neighbours(d.parents, u);
    same_neighbours(a, b);
    if other_parents(base, d, u) {
        let x = choose|x: Text| #[trigger] linked(base.parents, u, x) != linked(d.parents, u, x);
        assert(a.contains(x) != b.contains(x));
    }
    if a.to_set() != b.to_set() {
        let x = choose|x: Text| #[trigger] a.contains(x) != b.contains(x);
        assert(linked(base.parents, u, x) != linked(d.parents, u, x));
    }
    let ts = |g: DagModel| at(g.tests, u).map_values(|t: TestModel| (t.kind, t.column_name));
    assert(base.details.contains_key(u));
    assert(d.details.contains_key(u));
    let r = reasons_of(base, d, u);
    if r.len() == 0 {
        assert(r =~= Seq::empty());
    }
}

/// Why a node of both graphs counts as modified: a reason is given for each
/// surface that differs, in a fixed order, and for no other. A node is
/// modified exactly where a surface differs.
pub proof fn reasons_are_the_changes(base: DagModel, d: DagModel, u: Text)
    requires
        base.valid(),
        d.valid(),
        base.nodes.contains_key(u),
        d.nodes.contains_key(u),
    ensures
        diff_of(base, d).modified.contains_key(u) <==> differs(base, d, u),
        reasons(base, d, u).len() == one(other_materialization(base, d, u)) + one(other_parents(base, d, u)) + one(
            other_columns(base, d, u),
        ) + one(other_tests(base, d, u)) + one(other_sql(base, d, u)),
        reasons(base, d, u).contains(materialization_reason(base, d, u)) <==> other_materialization(base, d, u),
        reasons(base, d, u).contains("upstream deps changed"@) <==> other_parents(base, d, u),
        reasons(base, d, u).contains("columns changed"@) <==> other_columns(base, d, u),
        reasons(base, d, u).contains("tests changed"@) <==> other_tests(base, d, u) && at(base.tests, u).len() == at(d.tests, u).len(),
        reasons(base, d, u).contains(test_count_reason(base, d, u)) <==> at(base.tests, u).len() != at(d.tests, u).len(),
        reasons(base, d, u).contains("SQL changed"@) <==> other_sql(base, d, u),
{
    reason_parts(base, d, u);
    let r = reasons(base, d, u);
    let m = materialization_reason(base, d, u);
    let t = test_count_reason(base, d, u);
    reveal_strlit("materialized: ");
    reveal_strlit("upstream deps changed");
    reveal_strlit("columns changed");
    reveal_strlit("tests changed");
    reveal_strlit("tests: ");
    reveal_strlit("SQL changed");
    assert(m[0] == 'm');
    assert("upstream deps changed"@[0] == 'u');
    assert("columns changed"@[0] == 'c');
    assert("tests changed"@[0] == 't' && "tests changed"@[5] == ' ');
    assert(t[0] == 't' && t[5] == ':');
    assert("SQL changed"@[0] == 'S');
    let ka = at(base.tests, u).map_values(|t: TestModel| (t.kind, t.column_name));
    let kb = at(d.tests, u).map_values(|t: TestModel| (t.kind, t.column_name));
    multiset_lengths(ka, kb);
    assert(ka.len() == at(base.tests, u).len() && kb.len() == at(d.tests, u).len());
    let p1 = if other_materialization(base, d, u) { seq![m] } else { Seq::empty() };
    let p2 = if other_parents(base, d, u) { seq!["upstream deps changed"@] } else { Seq::empty() };
    let p3 = if other_columns(base, d, u) { seq!["columns changed"@] } else { Seq::empty() };
    let p4 = if !other_tests(base, d, u) {
        Seq::empty()
    } else if at(base.tests, u).len() == at(d.tests, u).len() {
        seq!["tests changed"@]
    } else {
        seq![t]
    };
    let p5 = if other_sql(base, d, u) { seq!["SQL changed"@] } else { Seq::empty() };
    let n1 = p1.len() as int;
    let n2 = n1 + p2.len();
    let n3 = n2 + p3.len();
    let n4 = n3 + p4.len();
    assert(r == p1 + p2 + p3 + p4 + p5);
    if p1.len() > 0 {
        assert(r[0] == p1[0]);
    }
    if p2.len() > 0 {
        assert(r[n1] == p2[0]);
    }
    if p3.len() > 0 {
        assert(r[n2] == p3[0]);
    }
    if p4.len() > 0 {
        assert(r[n3] == p4[0]);
    }
    if p5.len() > 0 {
        assert(r[n4] == p5[0]);
    }
    assert forall|x: Text| #[trigger] r.contains(x) implies (p1.len() > 0 && x == m) || (p2.len() > 0 && x == "upstream deps changed"@) || (
    p3.len() > 0 && x == "columns changed"@) || (p4.len() > 0 && x == p4[0]) || (p5.len() > 0 && x == "SQL changed"@) by {
        let i = r.index_of(x);
        if i < n1 {
            assert(r[i] == p1[i]);
        } else if i < n2 {
            assert(r[i] == p2[i - n1]);
        } else if i < n3 {
            assert(r[i] == p3[i - n2]);
        } else if i < n4 {
            assert(r[i] == p4[i - n3]);
        } else {
            assert(r[i] == p5[i - n4]);
        }
    }
}

/// What each status says: added is what only the current graph has, modified
/// what both have and a surface of which differs; all else is unchanged.
pub proof fn statuses_say_what_changed(base: DagModel, d: DagModel, u: Text)
    requires
        base.valid(),
        d.valid(),
    ensures
        status_of(diff_of(base, d), u) == DiffStatus::Added <==> d.nodes.contains_key(u) && !base.nodes.contains_key(u),
        status_of(diff_of(base, d), u) == DiffStatus::Modified <==> d.nodes.contains_key(u) && base.nodes.contains_key(u) && differs(
            base,
            d,
            u,
        ),
        diff_of(base, d).added.contains(u) <==> d.nodes.contains_key(u) && !base.nodes.contains_key(u),
        diff_of(base, d).modified.contains_key(u) ==> d.nodes.contains_key(u) && base.nodes.contains_key(u),
{
    if d.nodes.contains_key(u) && base.nodes.contains_key(u) {
        reasons_are_the_changes(base, d, u);
    }
}

/// What is listed as removed are the names and kinds of the nodes that only the
/// baseline has, one entry for each of them.
pub proof fn removed_are_what_is_gone(base: DagModel, d: DagModel)
    requires
        base.valid(),
    ensures
        forall|u: Text| #[trigger] base.nodes.contains_key(u) && !d.nodes.contains_key(u) ==> diff_of(base, d).removed.contains(
            (base.nodes[u].name, base.nodes[u].resource_type),
        ),
        forall|e: (Text, Text)| #[trigger] diff_of(base, d).removed.contains(e) ==> exists|u: Text| #[trigger]
            base.nodes.contains_key(u) && !d.nodes.contains_key(u) && e == (base.nodes[u].name, base.nodes[u].resource_type),
        diff_of(base, d).removed.len() == base.nodes.dom().difference(d.nodes.dom()).len(),
{
    let gone = |u: Text| !d.nodes.contains_key(u);
    let pair = |u: Text| (base.nodes[u].name, base.nodes[u].resource_type);
    let ids = listing(base.nodes.dom());
    listing_exists(base.nodes.dom());
    listing_filtered(base.nodes.dom(), gone);
    let f = ids.filter(gone);
    let s = base.nodes.dom().difference(d.nodes.dom());
    assert(s =~= Set::new(|u: Text| base.nodes.dom().contains(u) && gone(u)));
    vstd::set_lib::lemma_set_subset_finite(base.nodes.dom(), s);
    listing_exists(s);
    in_order_sorted::<(String, String)>(f.map_values(pair));
    let r = diff_of(base, d).removed;
    let raw = f.map_values(pair);
    assert forall|u: Text| #[trigger] base.nodes.contains_key(u) && !d.nodes.contains_key(u) implies r.contains(
        (base.nodes[u].name, base.nodes[u].resource_type),
    ) by {
        assert(s.contains(u));
        assert(f.contains(u));
        let k = f.index_of(u);
        assert(raw[k] == pair(u));
        assert(raw.contains(pair(u)));
    }
    assert forall|e: (Text, Text)| #[trigger] r.contains(e) implies exists|u: Text| #[trigger]
        base.nodes.contains_key(u) && !d.nodes.contains_key(u) && e == (base.nodes[u].name, base.nodes[u].resource_type) by {
        assert(raw.contains(e));
        let k = raw.index_of(e);
        assert(f.contains(f[k]));
        assert(s.contains(f[k]));
        assert(base.nodes.contains_key(f[k]));
    }
}

proof fn edges_finite(d: DagModel)
    requires
        d.valid(),
    ensures
        edge_set(d).finite(),
{
    edge_list_members(d);
    let l = crate::dag::edge_list(d);
    vstd::seq_lib::seq_to_set_is_finite(l);
    assert(edge_set(d) =~= l.to_set()) by {
        assert forall|e: (Text, Text)| edge_set(d).contains(e) <==> l.to_set().contains(e) by {
            assert(l.contains(e) <==> linked(d.children, e.0, e.1));
        }
    }
}

/// An entry of a list of edges names an edge that `d` has and `other` lacks.
pub open spec fn names_new_edge(d: DagModel, other: DagModel, e: (Text, Text)) -> bool {
    exists|p: Text, c: Text| #[trigger]
        linked(d.children, p, c) && !linked(other.children, p, c) && e == (name_in(d, p), name_in(d, c))
}

proof fn only_edges(d: DagModel, other: DagModel)
    requires
        d.valid(),
    ensures
        forall|p: Text, c: Text| #[trigger] linked(d.children, p, c) && !linked(other.children, p, c) ==> edges_only_in(d, other).contains(
            (name_in(d, p), name_in(d, c)),
        ),
        forall|e: (Text, Text)| #[trigger] edges_only_in(d, other).contains(e) ==> names_new_edge(d, other, e),
{
    edges_finite(d);
    let s = edge_set(d).difference(edge_set(other));
    vstd::set_lib::lemma_set_subset_finite(edge_set(d), s);
    distinct_in_order_exists::<(String, String)>(s);
    let l = distinct_in_order::<(String, String)>(s);
    let name = |e: (Text, Text)| (name_in(d, e.0), name_in(d, e.1));
    let raw = l.map_values(name);
    in_order_sorted::<(String, String)>(raw);
    let r = edges_only_in(d, other);
    assert forall|p: Text, c: Text| #[trigger] linked(d.children, p, c) && !linked(other.children, p, c) implies r.contains(
        (name_in(d, p), name_in(d, c)),
    ) by {
        assert(s.contains((p, c)));
        assert(l.to_set().contains((p, c)));
        let k = l.index_of((p, c));
        assert(raw[k] == name((p, c)));
        assert(raw.contains(name((p, c))));
    }
    assert forall|e: (Text, Text)| #[trigger] r.contains(e) implies names_new_edge(d, other, e) by {
        assert(raw.contains(e));
        let k = raw.index_of(e);
        assert(l.contains(l[k]));
        assert(l.to_set().contains(l[k]));
        assert(s.contains(l[k]));
        assert(linked(d.children, l[k].0, l[k].1));
    }
}

/// The added edges are those that only the current graph has, the removed ones
/// those that only the baseline has, by the names of their ends.
pub proof fn edges_are_compared(base: DagModel, d: DagModel)
    requires
        base.valid(),
        d.valid(),
    ensures
        forall|p: Text, c: Text| #[trigger] linked(d.children, p, c) && !linked(base.children, p, c) ==> diff_of(base, d).edges_added.contains(
            (d.nodes[p].name, d.nodes[c].name),
        ),
        forall|p: Text, c: Text| #[trigger] linked(base.children, p, c) && !linked(d.children, p, c) ==> diff_of(base, d).edges_removed.contains(
            (base.nodes[p].name, base.nodes[c].name),
        ),
        forall|e: (Text, Text)| #[trigger] diff_of(base, d).edges_added.contains(e) ==> names_new_edge(d, base, e),
        forall|e: (Text, Text)| #[trigger] diff_of(base, d).edges_removed.contains(e) ==> names_new_edge(base, d, e),
{
    only_edges(d, base);
    only_edges(base, d);
    assert forall|p: Text, c: Text| #[trigger] linked(d.children, p, c) implies d.nodes.contains_key(p) && d.nodes.contains_key(c) by {
        assert(d.children.dom().contains(p));
    }
    assert forall|p: Text, c: Text| #[trigger] linked(base.children, p, c) implies base.nodes.contains_key(p) && base.nodes.contains_key(c) by {
        assert(base.children.dom().contains(p));
    }
}

} // verus!
