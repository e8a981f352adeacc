//! The difference between two graphs: a baseline and the current one. Every
//! node is added, removed, modified or unchanged, keyed by `unique_id`; a
//! renamed model reads as removed and added.

use vstd::prelude::*;

use crate::dag::{
    at, blank_detail, edge_list, edge_list_members, ColumnInfo, ColumnModel, Dag, DagModel, DetailModel, NodeDetail,
    TestInfo, TestModel,
};
use crate::graph::{linked, neighbours};
use crate::sorted::{
    distinct_in_order, holds, in_order, in_order_same, listing, same_list, sort, sort_distinct, StrMap, StrSet,
};
use crate::text::{clone_opt, decimal, push_decimal, str_eq, trim, trimmed, Text};

verus! {

/// How a node of the current graph relates to the baseline.
#[derive(Debug, Clone, Copy, PartialEq, Eq, Structural)]
pub enum DiffStatus {
    /// Present now, absent from the baseline.
    Added,
    /// Present in both, with a changed definition.
    Modified,
    /// Present in both and unchanged.
    Unchanged,
}

/// The difference between a baseline and the current graph.
#[derive(Debug, PartialEq, Eq)]
pub struct DagDiff {
    /// Ids present now but not in the baseline.
    pub added: StrSet,
    /// `(name, resource_type)` of the nodes only in the baseline, sorted.
    pub removed: Vec<(String, String)>,
    /// Ids present in both, with the reasons why they count as changed.
    pub modified: StrMap<Vec<String>>,
    /// `(parent name, child name)` of the edges only in the current graph, sorted.
    pub edges_added: Vec<(String, String)>,
    /// `(parent name, child name)` of the edges only in the baseline, sorted.
    pub edges_removed: Vec<(String, String)>,
}

/// Model of [`DagDiff`].
pub struct DiffModel {
    pub added: Set<Text>,
    pub removed: Seq<(Text, Text)>,
    pub modified: Map<Text, Seq<Text>>,
    pub edges_added: Seq<(Text, Text)>,
    pub edges_removed: Seq<(Text, Text)>,
}

impl DeepView for DagDiff {
    type V = DiffModel;

    open spec fn deep_view(&self) -> DiffModel {
        DiffModel {
            added: self.added@,
            removed: self.removed.deep_view(),
            modified: self.modified.deep_view(),
            edges_added: self.edges_added.deep_view(),
            edges_removed: self.edges_removed.deep_view(),
        }
    }
}

// ---- what a difference is ----

/// The details of a node; blank where none are recorded.
pub open spec fn detail_at(d: DagModel, uid: Text) -> DetailModel {
    if d.details.contains_key(uid) {
        d.details[uid]
    } else {
        blank_detail()
    }
}

/// How an optional materialization is shown.
pub open spec fn shown(m: Option<Text>) -> Text {
    match m {
        Some(s) => s,
        None => "(none)"@,
    }
}

/// What counts of a column list: names and types, in any order.
pub open spec fn column_keys(d: DetailModel) -> Seq<(Text, Option<Text>)> {
    d.columns.map_values(|c: ColumnModel| (c.name, c.data_type))
}

/// What counts of a test list: kinds and columns, in any order.
pub open spec fn test_keys(ts: Seq<TestModel>) -> Seq<(Text, Option<Text>)> {
    ts.map_values(|t: TestModel| (t.kind, t.column_name))
}

/// One reason where `p` holds, none else.
pub open spec fn one_if(p: bool, reason: Text) -> Seq<Text> {
    if p {
        seq![reason]
    } else {
        Seq::empty()
    }
}

/// The two graphs record different SQL for a model, white space at the ends
/// aside. A side without SQL makes no difference.
pub open spec fn sql_differs(base: DagModel, current: DagModel, uid: Text) -> bool {
    base.sql.contains_key(uid) && current.sql.contains_key(uid) && trimmed(base.sql[uid]) != trimmed(current.sql[uid])
}

/// The resource type of a node in the current graph.
pub open spec fn kind_of(d: DagModel, uid: Text) -> Text {
    if d.nodes.contains_key(uid) {
        d.nodes[uid].resource_type
    } else {
        ""@
    }
}

/// The reason that the tests give, if they changed.
pub open spec fn tests_reason(b: Seq<TestModel>, c: Seq<TestModel>) -> Seq<Text> {
    if test_keys(b).to_multiset() == test_keys(c).to_multiset() {
        Seq::empty()
    } else if b.len() == c.len() {
        seq!["tests changed"@]
    } else {
        seq!["tests: "@ + decimal(b.len()) + " -> "@ + decimal(c.len())]
    }
}

/// Why a node counts as modified, in a fixed order: materialization, direct
/// parents, columns (not of seeds), tests, SQL (of models only).
pub open spec fn reasons_of(base: DagModel, current: DagModel, uid: Text) -> Seq<Text> {
    let bd = detail_at(base, uid);
    let cd = detail_at(current, uid);
    let kind = kind_of(current, uid);
    one_if(
        bd.materialized != cd.materialized,
        "materialized: "@ + shown(bd.materialized) + " -> "@ + shown(cd.materialized),
    ) + one_if(
        neighbours(base.parents, uid).to_set() != neighbours(current.parents, uid).to_set(),
        "upstream deps changed"@,
    ) + one_if(
        kind != "seed"@ && column_keys(bd).to_multiset() != column_keys(cd).to_multiset(),
        "columns changed"@,
    ) + tests_reason(at(base.tests, uid), at(current.tests, uid)) + one_if(
        kind == "model"@ && sql_differs(base, current, uid),
        "SQL changed"@,
    )
}

/// The (parent, child) pairs of a graph.
pub open spec fn edge_set(d: DagModel) -> Set<(Text, Text)> {
    Set::new(|e: (Text, Text)| linked(d.children, e.0, e.1))
}

/// The display name of an id; the id itself where it is unknown.
pub open spec fn name_in(d: DagModel, uid: Text) -> Text {
    if d.nodes.contains_key(uid) {
        d.nodes[uid].name
    } else {
        uid
    }
}

/// The edges of `d` that `other` lacks, by display name, sorted.
pub open spec fn edges_only_in(d: DagModel, other: DagModel) -> Seq<(Text, Text)> {
    in_order::<(String, String)>(
        distinct_in_order::<(String, String)>(edge_set(d).difference(edge_set(other))).map_values(
            |e: (Text, Text)| (name_in(d, e.0), name_in(d, e.1)),
        ),
    )
}

/// The difference between two graphs.
pub open spec fn diff_of(base: DagModel, current: DagModel) -> DiffModel {
    DiffModel {
        added: current.nodes.dom().difference(base.nodes.dom()),
        removed: in_order::<(String, String)>(
            listing(base.nodes.dom()).filter(|u: Text| !current.nodes.contains_key(u)).map_values(
                |u: Text| (base.nodes[u].name, base.nodes[u].resource_type),
            ),
        ),
        modified: Map::new(
            |u: Text| current.nodes.contains_key(u) && base.nodes.contains_key(u) && reasons_of(base, current, u).len() > 0,
            |u: Text| reasons_of(base, current, u),
        ),
        edges_added: edges_only_in(current, base),
        edges_removed: edges_only_in(base, current),
    }
}

/// The status of a node under a difference.
pub open spec fn status_of(d: DiffModel, uid: Text) -> DiffStatus {
    if d.added.contains(uid) {
        DiffStatus::Added
    } else if d.modified.contains_key(uid) {
        DiffStatus::Modified
    } else {
        DiffStatus::Unchanged
    }
}

/// Nothing differs.
pub open spec fn no_difference(d: DiffModel) -> bool {
    d.added == Set::<Text>::empty() && d.removed.len() == 0 && d.modified.dom().len() == 0 && d.edges_added.len() == 0
        && d.edges_removed.len() == 0
}

// ---- computing it ----

impl DagDiff {
    /// The keyed parts keep their keys in order.
    pub open spec fn wf(&self) -> bool {
        self.added.wf() && self.modified.wf()
    }

    /// Whether the two graphs are the same under this comparison.
    pub fn is_empty(&self) -> (r: bool)
        requires
            self.wf(),
        ensures
            r == no_difference(self.deep_view()),
    {
        proof {
            assert(self.modified.deep_view().dom() =~= self.modified@.dom());
        }
        self.added.is_empty() && self.removed.len() == 0 && self.modified.is_empty() && self.edges_added.len() == 0
            && self.edges_removed.len() == 0
    }

    /// The status of a node of the current graph.
    pub fn status(&self, unique_id: &str) -> (r: DiffStatus)
        requires
            self.wf(),
        ensures
            r == status_of(self.deep_view(), unique_id@),
    {
        if self.added.contains(unique_id) {
            DiffStatus::Added
        } else if self.modified.contains_key(unique_id) {
            DiffStatus::Modified
        } else {
            DiffStatus::Unchanged
        }
    }

    /// The numbers of added, modified and removed nodes.
    pub fn counts(&self) -> (r: (usize, usize, usize))
        requires
            self.wf(),
        ensures
            r.0 == self.deep_view().added.len(),
            r.1 == self.deep_view().modified.dom().len(),
            r.2 == self.deep_view().removed.len(),
    {
        proof {
            assert(self.modified.deep_view().dom() =~= self.modified@.dom());
        }
        (self.added.len(), self.modified.len(), self.removed.len())
    }
}

fn same_opt(a: &Option<String>, b: &Option<String>) -> (r: bool)
    ensures
        r == (a.deep_view() == b.deep_view()),
{
    match (a, b) {
        (Some(x), Some(y)) => str_eq(x.as_str(), y.as_str()),
        (None, None) => true,
        _ => false,
    }
}

fn show(out: &mut String, m: &Option<String>)
    ensures
        final(out)@ == old(out)@ + shown(m.deep_view()),
{
    match m {
        Some(s) => out.append(s.as_str()),
        None => out.append("(none)"),
    }
}

fn sorted_columns(cs: &Vec<ColumnInfo>) -> (r: Vec<(String, Option<String>)>)
    ensures
        r.deep_view() == in_order::<(String, Option<String>)>(
            cs.deep_view().map_values(|c: ColumnModel| (c.name, c.data_type)),
        ),
{
    let mut out: Vec<(String, Option<String>)> = Vec::new();
    let mut i: usize = 0;
    while i < cs.len()
        invariant
            i <= cs@.len(),
            out@.len() == i,
            forall|j: int| 0 <= j < i ==> (#[trigger] out@[j]).deep_view() == (cs@[j].name@, cs@[j].data_type.deep_view()),
        decreases cs@.len() - i,
    {
        out.push((cs[i].name.clone(), clone_opt(&cs[i].data_type)));
        i = i + 1;
    }
    assert(out.deep_view() =~= cs.deep_view().map_values(|c: ColumnModel| (c.name, c.data_type)));
    sort(out)
}

fn sorted_tests(ts: &[TestInfo]) -> (r: Vec<(String, Option<String>)>)
    ensures
        r.deep_view() == in_order::<(String, Option<String>)>(test_keys(ts.deep_view())),
        r@.len() == ts@.len(),
{
    let mut out: Vec<(String, Option<String>)> = Vec::new();
    let mut i: usize = 0;
    while i < ts.len()
        invariant
            i <= ts@.len(),
            out@.len() == i,
            forall|j: int| 0 <= j < i ==> (#[trigger] out@[j]).deep_view() == (ts@[j].kind@, ts@[j].column_name.deep_view()),
        decreases ts@.len() - i,
    {
        out.push((ts[i].kind.clone(), clone_opt(&ts[i].column_name)));
        i = i + 1;
    }
    assert(out.deep_view() =~= test_keys(ts.deep_view()));
    sort(out)
}

/// Appends a reason.
fn give(reasons: &mut Vec<String>, reason: String)
    ensures
        final(reasons).deep_view() == old(reasons).deep_view().push(reason@),
{
    let ghost r0 = reasons.deep_view();
    let ghost x = reason@;
    reasons.push(reason);
    assert(reasons.deep_view() =~= r0.push(x));
}

/// Why a node that is in both graphs counts as modified; nothing where it does
/// not.
fn modified_reasons(base: &Dag, current: &Dag, uid: &str) -> (r: Vec<String>)
    requires
        base.wf(),
        current.wf(),
    ensures
        r.deep_view() == reasons_of(base.deep_view(), current.deep_view(), uid@),
{
    let ghost b = base.deep_view();
    let ghost c = current.deep_view();
    let mut reasons: Vec<String> = Vec::new();
    assert(reasons.deep_view() =~= Seq::empty());
    let kind = match current.get(uid) {
        Some(n) => n.resource_type.as_str(),
        None => "",
    };
    let blank = NodeDetail::default();
    let bd = match base.detail(uid) {
        Some(d) => d,
        None => &blank,
    };
    let cd = match current.detail(uid) {
        Some(d) => d,
        None => &blank,
    };
    let ghost bdv = detail_at(b, uid@);
    let ghost cdv = detail_at(c, uid@);
    let ghost p1 = one_if(
        bdv.materialized != cdv.materialized,
        "materialized: "@ + shown(bdv.materialized) + " -> "@ + shown(cdv.materialized),
    );
    if !same_opt(&bd.materialized, &cd.materialized) {
        let mut text = String::new();
        text.append("materialized: ");
        show(&mut text, &bd.materialized);
        text.append(" -> ");
        show(&mut text, &cd.materialized);
        assert(text@ =~= "materialized: "@ + shown(bdv.materialized) + " -> "@ + shown(cdv.materialized));
        give(&mut reasons, text);
    }
    assert(reasons.deep_view() =~= p1);

    let ghost p2 = one_if(neighbours(b.parents, uid@).to_set() != neighbours(c.parents, uid@).to_set(), "upstream deps changed"@);
    let bp = sort_distinct(base.parents_of(uid));
    let cp = sort_distinct(current.parents_of(uid));
    if !same_list(&bp, &cp) {
        give(&mut reasons, "upstream deps changed".to_owned());
    }
    assert(reasons.deep_view() =~= p1 + p2);

    let ghost p3 = one_if(
        kind@ != "seed"@ && column_keys(bdv).to_multiset() != column_keys(cdv).to_multiset(),
        "columns changed"@,
    );
    let bc = sorted_columns(&bd.columns);
    let cc = sorted_columns(&cd.columns);
    proof {
        in_order_same::<(String, Option<String>)>(column_keys(bdv), column_keys(cdv));
    }
    if !str_eq(kind, "seed") && !same_list(&bc, &cc) {
        give(&mut reasons, "columns changed".to_owned());
    }
    assert(reasons.deep_view() =~= p1 + p2 + p3);

    let ghost tb = at(b.tests, uid@);
    let ghost tc = at(c.tests, uid@);
    let ghost p4 = tests_reason(tb, tc);
    let bt = sorted_tests(base.tests(uid));
    let ct = sorted_tests(current.tests(uid));
    proof {
        in_order_same::<(String, Option<String>)>(test_keys(tb), test_keys(tc));
    }
    if !same_list(&bt, &ct) {
        if bt.len() == ct.len() {
            give(&mut reasons, "tests changed".to_owned());
        } else {
            let mut text = String::new();
            text.append("tests: ");
            push_decimal(&mut text, bt.len());
            text.append(" -> ");
            push_decimal(&mut text, ct.len());
            assert(text@ =~= "tests: "@ + decimal(tb.len()) + " -> "@ + decimal(tc.len()));
            give(&mut reasons, text);
        }
    }
    assert(reasons.deep_view() =~= p1 + p2 + p3 + p4);

    let ghost p5 = one_if(kind@ == "model"@ && sql_differs(b, c, uid@), "SQL changed"@);
    if str_eq(kind, "model") {
        match (base.raw_code(uid), current.raw_code(uid)) {
            (Some(x), Some(y)) => {
                let tx = trim(x);
                let ty = trim(y);
                if !str_eq(tx.as_str(), ty.as_str()) {
                    give(&mut reasons, "SQL changed".to_owned());
                }
            },
            _ => {},
        }
    }
    assert(reasons.deep_view() =~= p1 + p2 + p3 + p4 + p5);
    reasons
}

fn display_name(dag: &Dag, uid: &str) -> (r: String)
    requires
        dag.wf(),
    ensures
        r@ == name_in(dag.deep_view(), uid@),
{
    match dag.get(uid) {
        Some(n) => n.name.clone(),
        None => uid.to_owned(),
    }
}

/// The edges of `dag` that `other` lacks, by display name, sorted.
fn edges_missing_from(dag: &Dag, other: &Dag) -> (r: Vec<(String, String)>)
    requires
        dag.wf(),
        other.wf(),
    ensures
        r.deep_view() == edges_only_in(dag.deep_view(), other.deep_view()),
{
    broadcast use Dag::wf_valid;
    let ghost d = dag.deep_view();
    let ghost o = other.deep_view();
    let mine = dag.edges();
    let theirs = other.edges();
    proof {
        edge_list_members(d);
        edge_list_members(o);
    }
    let mut only: Vec<(String, String)> = Vec::new();
    let ghost all = mine.deep_view();
    let mut i: usize = 0;
    while i < mine.len()
        invariant
            i <= mine@.len(),
            all == mine.deep_view(),
            theirs.deep_view() == edge_list(o),
            forall|e: (Text, Text)| #[trigger] edge_list(o).contains(e) <==> linked(o.children, e.0, e.1),
            forall|e: (Text, Text)| #[trigger] only.deep_view().contains(e) <==> (exists|j: int| 0 <= j < i && all[j] == e)
                && !linked(o.children, e.0, e.1),
        decreases mine@.len() - i,
    {
        let ghost e0 = mine@[i as int].deep_view();
        assert(all[i as int] == e0);
        let ghost only0 = only.deep_view();
        if !holds(&theirs, &mine[i]) {
            let pair = (mine[i].0.clone(), mine[i].1.clone());
            only.push(pair);
            proof {
                assert(only.deep_view() =~= only0.push(e0));
                assert forall|e: (Text, Text)| #[trigger] only.deep_view().contains(e) <==> only0.contains(e) || e == e0 by {
                    if only0.contains(e) {
                        let k = only0.index_of(e);
                        assert(only.deep_view()[k] == e);
                    }
                    assert(only.deep_view()[only0.len() as int] == e0);
                }
            }
        }
        i = i + 1;
    }
    proof {
        assert forall|e: (Text, Text)| only.deep_view().to_set().contains(e) <==> edge_set(d).difference(edge_set(o)).contains(e) by {
            assert(all.contains(e) <==> linked(d.children, e.0, e.1));
            if all.contains(e) {
                let k = all.index_of(e);
                assert(all[k] == e);
            }
            assert(only.deep_view().contains(e) <==> only.deep_view().to_set().contains(e));
        }
        assert(only.deep_view().to_set() =~= edge_set(d).difference(edge_set(o)));
    }
    let ordered = sort_distinct(only);
    let mut named: Vec<(String, String)> = Vec::new();
    let mut k: usize = 0;
    while k < ordered.len()
        invariant
            dag.wf(),
            d == dag.deep_view(),
            k <= ordered@.len(),
            named@.len() == k,
            forall|j: int| 0 <= j < k ==> (#[trigger] named@[j]).deep_view() == (name_in(d, ordered@[j].0@), name_in(d, ordered@[j].1@)),
        decreases ordered@.len() - k,
    {
        named.push((display_name(dag, ordered[k].0.as_str()), display_name(dag, ordered[k].1.as_str())));
        k = k + 1;
    }
    assert(named.deep_view() =~= ordered.deep_view().map_values(|e: (Text, Text)| (name_in(d, e.0), name_in(d, e.1))));
    sort(named)
}

/// The nodes of `base` that `current` lacks, as sorted `(name, resource_type)`.
fn removed_nodes(base: &Dag, current: &Dag) -> (r: Vec<(String, String)>)
    requires
        base.wf(),
        current.wf(),
    ensures
        r.deep_view() == diff_of(base.deep_view(), current.deep_view()).removed,
{
    let ghost b = base.deep_view();
    let ghost c = current.deep_view();
    let nodes = base.nodes();
    let ghost ids = nodes.key_list();
    let ghost gone = |u: Text| !c.nodes.contains_key(u);
    let ghost pair = |u: Text| (b.nodes[u].name, b.nodes[u].resource_type);
    let mut out: Vec<(String, String)> = Vec::new();
    proof {
        nodes.keys_listed();
        assert(b.nodes.dom() =~= nodes@.dom());
        reveal(Seq::filter);
        assert(out.deep_view() =~= ids.take(0).filter(gone).map_values(pair));
    }
    let mut i: usize = 0;
    while i < nodes.len()
        invariant
            current.wf(),
            nodes.wf(),
            c == current.deep_view(),
            nodes.deep_view() == b.nodes,
            ids == nodes.key_list(),
            gone == (|u: Text| !c.nodes.contains_key(u)),
            pair == (|u: Text| (b.nodes[u].name, b.nodes[u].resource_type)),
            i <= ids.len(),
            out.deep_view() == ids.take(i as int).filter(gone).map_values(pair),
        decreases ids.len() - i,
    {
        let uid = nodes.key_at(i);
        let n = nodes.value_at(i);
        let ghost o = out.deep_view();
        let ghost f = ids.take(i as int).filter(gone);
        proof {
            reveal(Seq::filter);
            assert(ids.take(i + 1).drop_last() =~= ids.take(i as int));
            assert(b.nodes[uid@] == n.deep_view());
        }
        if !current.contains(uid.as_str()) {
            out.push((n.name.clone(), n.resource_type.clone()));
            proof {
                assert(out.deep_view() =~= o.push(pair(uid@)));
                assert(f.push(uid@).map_values(pair) =~= f.map_values(pair).push(pair(uid@)));
            }
        }
        i = i + 1;
    }
    proof {
        assert(ids.take(ids.len() as int) =~= ids);
    }
    sort(out)
}

/// Compares the baseline `base` with `current`. A node in both is modified
/// where there is a reason for it; edges are the direct edges of the graphs,
/// compared by id and listed by display name.
pub fn compute_diff(base: &Dag, current: &Dag) -> (r: DagDiff)
    requires
        base.wf(),
        current.wf(),
    ensures
        r.wf(),
        r.deep_view() == diff_of(base.deep_view(), current.deep_view()),
{
    let ghost b = base.deep_view();
    let ghost c = current.deep_view();
    let ghost diff = diff_of(b, c);
    let nodes = current.nodes();
    let ghost ids = nodes.key_list();
    let mut added = StrSet::new();
    let mut modified: StrMap<Vec<String>> = StrMap::new();
    proof {
        assert(added@ =~= diff.added.intersect(ids.take(0).to_set()));
        assert(modified.deep_view() =~= diff.modified.restrict(ids.take(0).to_set()));
    }
    let mut i: usize = 0;
    while i < nodes.len()
        invariant
            base.wf(),
            current.wf(),
            nodes.wf(),
            b == base.deep_view(),
            c == current.deep_view(),
            diff == diff_of(b, c),
            nodes.deep_view() == c.nodes,
            ids == nodes.key_list(),
            i <= ids.len(),
            added.wf(),
            modified.wf(),
            added@ == diff.added.intersect(ids.take(i as int).to_set()),
            modified.deep_view() == diff.modified.restrict(ids.take(i as int).to_set()),
        decreases ids.len() - i,
    {
        let uid = nodes.key_at(i);
        let ghost u = uid@;
        let ghost done = ids.take(i as int).to_set();
        let ghost next = ids.take(i + 1).to_set();
        proof {
            assert(ids.take(i + 1) =~= ids.take(i as int).push(u));
            assert forall|x: Text| next.contains(x) <==> done.contains(x) || x == u by {
                if ids.take(i as int).contains(x) {
                    let k = ids.take(i as int).index_of(x);
                    assert(ids.take(i + 1)[k] == x);
                }
                assert(ids.take(i + 1)[i as int] == u);
            }
            assert(c.nodes.contains_key(u));
        }
        if base.contains(uid.as_str()) {
            let reasons = modified_reasons(base, current, uid.as_str());
            if reasons.len() > 0 {
                proof {
                    StrMap::<Vec<String>>::deep_insert(modified@, modified@.insert(u, reasons), u, reasons);
                    assert(diff.modified.restrict(next) =~= diff.modified.restrict(done).insert(u, reasons.deep_view()));
                }
                modified.insert(uid.clone(), reasons);
            } else {
                assert(reasons.deep_view().len() == 0);
                assert(diff.modified.restrict(next) =~= diff.modified.restrict(done));
            }
            assert(diff.added.intersect(next) =~= diff.added.intersect(done));
        } else {
            added.insert(uid.clone());
            assert(added@ =~= diff.added.intersect(next));
            assert(diff.modified.restrict(next) =~= diff.modified.restrict(done));
        }
        i = i + 1;
    }
    proof {
        assert(ids.take(ids.len() as int) =~= ids);
        nodes.keys_listed();
        assert(c.nodes.dom() =~= nodes@.dom());
        assert(diff.added.intersect(ids.to_set()) =~= diff.added);
        assert(diff.modified.restrict(ids.to_set()) =~= diff.modified);
    }
    let removed = removed_nodes(base, current);
    let edges_added = edges_missing_from(current, base);
    let edges_removed = edges_missing_from(base, current);
    DagDiff { added, removed, modified, edges_added, edges_removed }
}

// ---- laws ----

/// A graph does not differ from itself.
pub proof fn diff_of_same_is_empty(d: DagModel)
    requires
        d.valid(),
    ensures
        no_difference(diff_of(d, d)),
{
    let r = diff_of(d, d);
    assert(r.added =~= Set::<Text>::empty());
    let gone = |u: Text| !d.nodes.contains_key(u);
    crate::sorted::listing_exists(d.nodes.dom());
    let ids = listing(d.nodes.dom());
    nothing_gone(ids, gone);
    crate::sorted::in_order_sorted::<(String, String)>(
        ids.filter(gone).map_values(|u: Text| (d.nodes[u].name, d.nodes[u].resource_type)),
    );
    assert forall|u: Text| #[trigger] reasons_of(d, d, u).len() == 0 by {}
    assert(r.modified.dom() =~= Set::<Text>::empty());
    assert(edge_set(d).difference(edge_set(d)) =~= Set::<(Text, Text)>::empty());
    let none = Seq::<(Text, Text)>::empty();
    assert(none.to_set() =~= Set::<(Text, Text)>::empty());
    crate::sorted::distinct_in_order_unique::<(String, String)>(none);
    crate::sorted::in_order_sorted::<(String, String)>(
        distinct_in_order::<(String, String)>(Set::<(Text, Text)>::empty()).map_values(
            |e: (Text, Text)| (name_in(d, e.0), name_in(d, e.1)),
        ),
    );
}

proof fn nothing_gone(ids: Seq<Text>, gone: spec_fn(Text) -> bool)
    requires
        forall|u: Text| ids.contains(u) ==> !gone(u),
    ensures
        ids.filter(gone).len() == 0,
    decreases ids.len(),
{
    reveal(Seq::filter);
    if ids.len() > 0 {
        assert(ids.contains(ids.last()));
        assert forall|u: Text| ids.drop_last().contains(u) implies !gone(u) by {
            let k = ids.drop_last().index_of(u);
            assert(ids[k] == u);
            assert(ids.contains(u));
        }
        nothing_gone(ids.drop_last(), gone);
    }
}

/// Swapping the two graphs swaps what was added and what was removed: the edge
/// lists trade places, and what is removed one way are the names and kinds of
/// the nodes that are added the other way.
pub proof fn diff_reversed(a: DagModel, b: DagModel)
    requires
        a.valid(),
        b.valid(),
    ensures
        diff_of(a, b).edges_added == diff_of(b, a).edges_removed,
        diff_of(a, b).edges_removed == diff_of(b, a).edges_added,
        diff_of(a, b).removed == in_order::<(String, String)>(
            listing(diff_of(b, a).added).map_values(|u: Text| (a.nodes[u].name, a.nodes[u].resource_type)),
        ),
        diff_of(b, a).removed == in_order::<(String, String)>(
            listing(diff_of(a, b).added).map_values(|u: Text| (b.nodes[u].name, b.nodes[u].resource_type)),
        ),
        diff_of(a, b).removed.len() == diff_of(b, a).added.len(),
        diff_of(b, a).removed.len() == diff_of(a, b).added.len(),
{
    removed_are_added_back(a, b);
    removed_are_added_back(b, a);
}

proof fn removed_are_added_back(a: DagModel, b: DagModel)
    requires
        a.valid(),
    ensures
        diff_of(a, b).removed == in_order::<(String, String)>(
            listing(diff_of(b, a).added).map_values(|u: Text| (a.nodes[u].name, a.nodes[u].resource_type)),
        ),
        diff_of(a, b).removed.len() == diff_of(b, a).added.len(),
{
    let gone = |u: Text| !b.nodes.contains_key(u);
    let added = diff_of(b, a).added;
    crate::sorted::listing_filtered(a.nodes.dom(), gone);
    assert(added =~= Set::new(|u: Text| a.nodes.dom().contains(u) && gone(u)));
    vstd::set_lib::lemma_set_subset_finite(a.nodes.dom(), added);
    crate::sorted::listing_exists(added);
    crate::sorted::in_order_sorted::<(String, String)>(
        listing(added).map_values(|u: Text| (a.nodes[u].name, a.nodes[u].resource_type)),
    );
}

} // verus!
