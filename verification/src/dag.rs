//! The pruned dependency graph and its value types: the manifest's `nodes`
//! (without `test` / `operation`), `sources` and `exposures` merged into one
//! map, adjacency pruned to the kept set, and the transitive closures over it.
//! The side maps (`details` / `tests` / `sql` / `exposures`) are data only:
//! they never touch the topology.

use vstd::prelude::*;
use vstd::relations::*;
use vstd::set_lib::*;

use crate::graph::{closure_depth, linked, neighbours, reach, reach_stays, stays_in, Adjacency};
use crate::manifest::{
    RawColumn, RawColumnModel, RawExposure, RawExposureModel, RawManifest, RawManifestModel, RawNode, RawNodeModel,
    RawSource, RawSourceModel,
};
use crate::sorted::{
    clone_strings, contains_str, distinct_in_order, distinct_in_order_exists, in_order, in_order_sorted, listing,
    listing_exists, pair_le, sort, sort_distinct, Sortable, StrMap, StrSet,
};
use crate::text::{
    clone_opt, group_text_order, split, split_at_char, str_eq, str_lt, text_le, text_lt, text_lt_connected,
    text_lt_irreflexive, trim, trimmed, Text,
};

verus! {

/// An entry of the unified node map.
///
/// `direct_up` / `direct_down` count the direct parents and children in the
/// pruned graph; `direct_down == 0` marks a leaf. `test_count` is the number of
/// tests attached to the node. `materialized` is `None` for sources and for
/// models with none recorded.
#[derive(Debug, PartialEq, Eq)]
pub struct NodeInfo {
    pub unique_id: String,
    pub name: String,
    pub resource_type: String,
    pub path: Option<String>,
    pub materialized: Option<String>,
    pub direct_up: usize,
    pub direct_down: usize,
    pub test_count: usize,
}

/// One column of a model or source, in definition order.
#[derive(Debug, PartialEq, Eq)]
pub struct ColumnInfo {
    pub name: String,
    pub data_type: Option<String>,
    pub description: Option<String>,
}

/// A test attached to a node. `kind` is the generic test name (`unique`,
/// `not_null`, ..) or `singular`.
#[derive(Debug, PartialEq, Eq)]
pub struct TestInfo {
    pub name: String,
    pub kind: String,
    pub column_name: Option<String>,
}

/// What only an exposure has: its kind, owner and url.
#[derive(Debug, PartialEq, Eq)]
pub struct ExposureInfo {
    pub exposure_type: Option<String>,
    pub owner_name: Option<String>,
    pub owner_email: Option<String>,
    pub url: Option<String>,
}

/// The details of a node, for the structure modal and the status line.
#[derive(Debug, PartialEq, Eq)]
pub struct NodeDetail {
    pub materialized: Option<String>,
    pub database: Option<String>,
    pub schema: Option<String>,
    pub tags: Vec<String>,
    pub description: Option<String>,
    pub columns: Vec<ColumnInfo>,
    pub original_file_path: Option<String>,
}

/// A dependency edge `parent -> child` inside a subgraph.
#[derive(Debug, PartialEq, Eq, Hash)]
pub struct Edge {
    pub parent: String,
    pub child: String,
}

/// The lineage subgraph of a selected node: nodes ascending by `unique_id`,
/// edges ascending by parent, then child.
#[derive(Debug, PartialEq, Eq)]
pub struct Subgraph {
    pub selected: String,
    pub nodes: Vec<NodeInfo>,
    pub edges: Vec<Edge>,
}

/// The pruned dependency graph of a project.
#[derive(Debug)]
pub struct Dag {
    nodes: StrMap<NodeInfo>,
    parents: StrMap<Vec<String>>,
    children: StrMap<Vec<String>>,
    details: StrMap<NodeDetail>,
    tests: StrMap<Vec<TestInfo>>,
    sql: StrMap<String>,
    exposures: StrMap<ExposureInfo>,
}

// ---- models ----

/// Model of [`NodeInfo`].
pub struct NodeModel {
    pub unique_id: Text,
    pub name: Text,
    pub resource_type: Text,
    pub path: Option<Text>,
    pub materialized: Option<Text>,
    pub direct_up: nat,
    pub direct_down: nat,
    pub test_count: nat,
}

/// Model of [`ColumnInfo`].
pub struct ColumnModel {
    pub name: Text,
    pub data_type: Option<Text>,
    pub description: Option<Text>,
}

/// Model of [`TestInfo`].
pub struct TestModel {
    pub name: Text,
    pub kind: Text,
    pub column_name: Option<Text>,
}

/// Model of [`ExposureInfo`].
pub struct ExposureModel {
    pub exposure_type: Option<Text>,
    pub owner_name: Option<Text>,
    pub owner_email: Option<Text>,
    pub url: Option<Text>,
}

/// Model of [`NodeDetail`].
pub struct DetailModel {
    pub materialized: Option<Text>,
    pub database: Option<Text>,
    pub schema: Option<Text>,
    pub tags: Seq<Text>,
    pub description: Option<Text>,
    pub columns: Seq<ColumnModel>,
    pub original_file_path: Option<Text>,
}

/// Model of [`Subgraph`]; an edge is its (parent, child) pair.
pub struct SubgraphModel {
    pub selected: Text,
    pub nodes: Seq<NodeModel>,
    pub edges: Seq<(Text, Text)>,
}

/// Model of [`Dag`].
pub struct DagModel {
    pub nodes: Map<Text, NodeModel>,
    pub parents: Adjacency,
    pub children: Adjacency,
    pub details: Map<Text, DetailModel>,
    pub tests: Map<Text, Seq<TestModel>>,
    pub sql: Map<Text, Text>,
    pub exposures: Map<Text, ExposureModel>,
}

impl DeepView for NodeInfo {
    type V = NodeModel;

    open spec fn deep_view(&self) -> NodeModel {
        NodeModel {
            unique_id: self.unique_id@,
            name: self.name@,
            resource_type: self.resource_type@,
            path: self.path.deep_view(),
            materialized: self.materialized.deep_view(),
            direct_up: self.direct_up as nat,
            direct_down: self.direct_down as nat,
            test_count: self.test_count as nat,
        }
    }
}

impl DeepView for ColumnInfo {
    type V = ColumnModel;

    open spec fn deep_view(&self) -> ColumnModel {
        ColumnModel {
            name: self.name@,
            data_type: self.data_type.deep_view(),
            description: self.description.deep_view(),
        }
    }
}

impl DeepView for TestInfo {
    type V = TestModel;

    open spec fn deep_view(&self) -> TestModel {
        TestModel { name: self.name@, kind: self.kind@, column_name: self.column_name.deep_view() }
    }
}

impl DeepView for ExposureInfo {
    type V = ExposureModel;

    open spec fn deep_view(&self) -> ExposureModel {
        ExposureModel {
            exposure_type: self.exposure_type.deep_view(),
            owner_name: self.owner_name.deep_view(),
            owner_email: self.owner_email.deep_view(),
            url: self.url.deep_view(),
        }
    }
}

impl DeepView for NodeDetail {
    type V = DetailModel;

    open spec fn deep_view(&self) -> DetailModel {
        DetailModel {
            materialized: self.materialized.deep_view(),
            database: self.database.deep_view(),
            schema: self.schema.deep_view(),
            tags: self.tags.deep_view(),
            description: self.description.deep_view(),
            columns: self.columns.deep_view(),
            original_file_path: self.original_file_path.deep_view(),
        }
    }
}

impl DeepView for Edge {
    type V = (Text, Text);

    open spec fn deep_view(&self) -> (Text, Text) {
        (self.parent@, self.child@)
    }
}

impl DeepView for Subgraph {
    type V = SubgraphModel;

    open spec fn deep_view(&self) -> SubgraphModel {
        SubgraphModel {
            selected: self.selected@,
            nodes: self.nodes.deep_view(),
            edges: self.edges.deep_view(),
        }
    }
}

impl DeepView for Dag {
    type V = DagModel;

    closed spec fn deep_view(&self) -> DagModel {
        DagModel {
            nodes: self.nodes.deep_view(),
            parents: self.parents.deep_view(),
            children: self.children.deep_view(),
            details: self.details.deep_view(),
            tests: self.tests.deep_view(),
            sql: self.sql.deep_view(),
            exposures: self.exposures.deep_view(),
        }
    }
}

// ---- copies and defaults ----

impl Clone for NodeInfo {
    fn clone(&self) -> (r: NodeInfo)
        ensures
            r.deep_view() == self.deep_view(),
    {
        NodeInfo {
            unique_id: self.unique_id.clone(),
            name: self.name.clone(),
            resource_type: self.resource_type.clone(),
            path: clone_opt(&self.path),
            materialized: clone_opt(&self.materialized),
            direct_up: self.direct_up,
            direct_down: self.direct_down,
            test_count: self.test_count,
        }
    }
}

impl Default for NodeInfo {
    fn default() -> (r: NodeInfo)
        ensures
            r.deep_view() == (NodeModel {
                unique_id: Seq::empty(),
                name: Seq::empty(),
                resource_type: Seq::empty(),
                path: None,
                materialized: None,
                direct_up: 0,
                direct_down: 0,
                test_count: 0,
            }),
    {
        NodeInfo {
            unique_id: String::new(),
            name: String::new(),
            resource_type: String::new(),
            path: None,
            materialized: None,
            direct_up: 0,
            direct_down: 0,
            test_count: 0,
        }
    }
}

impl Clone for ColumnInfo {
    fn clone(&self) -> (r: ColumnInfo)
        ensures
            r.deep_view() == self.deep_view(),
    {
        ColumnInfo {
            name: self.name.clone(),
            data_type: clone_opt(&self.data_type),
            description: clone_opt(&self.description),
        }
    }
}

impl Clone for TestInfo {
    fn clone(&self) -> (r: TestInfo)
        ensures
            r.deep_view() == self.deep_view(),
    {
        TestInfo { name: self.name.clone(), kind: self.kind.clone(), column_name: clone_opt(&self.column_name) }
    }
}

impl Clone for ExposureInfo {
    fn clone(&self) -> (r: ExposureInfo)
        ensures
            r.deep_view() == self.deep_view(),
    {
        ExposureInfo {
            exposure_type: clone_opt(&self.exposure_type),
            owner_name: clone_opt(&self.owner_name),
            owner_email: clone_opt(&self.owner_email),
            url: clone_opt(&self.url),
        }
    }
}

impl Clone for NodeDetail {
    fn clone(&self) -> (r: NodeDetail)
        ensures
            r.deep_view() == self.deep_view(),
    {
        let mut columns: Vec<ColumnInfo> = Vec::new();
        let mut i: usize = 0;
        while i < self.columns.len()
            invariant
                i <= self.columns@.len(),
                columns@.len() == i,
                forall|j: int| 0 <= j < i ==> columns@[j].deep_view() == self.columns@[j].deep_view(),
            decreases self.columns@.len() - i,
        {
            columns.push(self.columns[i].clone());
            i = i + 1;
        }
        assert(columns.deep_view() =~= self.columns.deep_view());
        NodeDetail {
            materialized: clone_opt(&self.materialized),
            database: clone_opt(&self.database),
            schema: clone_opt(&self.schema),
            tags: clone_strings(&self.tags),
            description: clone_opt(&self.description),
            columns,
            original_file_path: clone_opt(&self.original_file_path),
        }
    }
}

/// The details of a node of which nothing is recorded.
pub open spec fn blank_detail() -> DetailModel {
    DetailModel {
        materialized: None,
        database: None,
        schema: None,
        tags: Seq::empty(),
        description: None,
        columns: Seq::empty(),
        original_file_path: None,
    }
}

impl Default for NodeDetail {
    fn default() -> (r: NodeDetail)
        ensures
            r.deep_view() == blank_detail(),
    {
        let r = NodeDetail {
            materialized: None,
            database: None,
            schema: None,
            tags: Vec::new(),
            description: None,
            columns: Vec::new(),
            original_file_path: None,
        };
        assert(r.tags.deep_view() =~= Seq::empty());
        assert(r.columns.deep_view() =~= Seq::empty());
        r
    }
}

/// A copy of a list of tests.
pub fn clone_tests(v: &Vec<TestInfo>) -> (r: Vec<TestInfo>)
    ensures
        r.deep_view() == v.deep_view(),
{
    let mut out: Vec<TestInfo> = Vec::new();
    let mut i: usize = 0;
    while i < v.len()
        invariant
            i <= v@.len(),
            out@.len() == i,
            forall|j: int| 0 <= j < i ==> out@[j].deep_view() == v@[j].deep_view(),
        decreases v@.len() - i,
    {
        out.push(v[i].clone());
        i = i + 1;
    }
    assert(out.deep_view() =~= v.deep_view());
    out
}

// ---- predicates on nodes ----

/// A resource that dbt builds and that can carry tests.
pub open spec fn testable(resource_type: Text) -> bool {
    resource_type == "model"@ || resource_type == "snapshot"@ || resource_type == "seed"@
}

/// A testable node without tests.
pub open spec fn is_gap(n: NodeModel) -> bool {
    testable(n.resource_type) && n.test_count == 0
}

/// Whether a resource type is testable: model, snapshot or seed.
pub fn is_testable(resource_type: &str) -> (r: bool)
    ensures
        r == testable(resource_type@),
{
    str_eq(resource_type, "model") || str_eq(resource_type, "snapshot") || str_eq(resource_type, "seed")
}

/// A node that should have tests but has none: a model, snapshot or seed with
/// `test_count == 0`. Sources are not counted.
pub fn coverage_gap(n: &NodeInfo) -> (r: bool)
    ensures
        r == is_gap(n.deep_view()),
{
    is_testable(n.resource_type.as_str()) && n.test_count == 0
}

/// Whether a node is a declared downstream consumer.
pub fn is_exposure(n: &NodeInfo) -> (r: bool)
    ensures
        r == (n.resource_type@ == "exposure"@),
{
    str_eq(n.resource_type.as_str(), "exposure")
}

/// Resource types that never enter the graph.
pub open spec fn excluded(resource_type: Text) -> bool {
    resource_type == "test"@ || resource_type == "operation"@
}

fn is_excluded(resource_type: &str) -> (r: bool)
    ensures
        r == excluded(resource_type@),
{
    str_eq(resource_type, "test") || str_eq(resource_type, "operation")
}

// ---- what the graph of a manifest is ----

/// A description without surrounding white space; none where nothing is left.
pub open spec fn cleaned(desc: Option<Text>) -> Option<Text> {
    match desc {
        Some(d) => if trimmed(d).len() > 0 {
            Some(trimmed(d))
        } else {
            None
        },
        None => None,
    }
}

/// A column goes by its own name, else by its key; an empty description counts
/// as none.
pub open spec fn column_of(c: RawColumnModel) -> ColumnModel {
    ColumnModel {
        name: match c.name {
            Some(n) => n,
            None => c.key,
        },
        data_type: c.data_type,
        description: match c.description {
            Some(d) => if d.len() > 0 {
                Some(d)
            } else {
                None
            },
            None => None,
        },
    }
}

/// The columns in definition order.
pub open spec fn columns_of(cs: Seq<RawColumnModel>) -> Seq<ColumnModel> {
    cs.map_values(|c: RawColumnModel| column_of(c))
}

/// An entry of `nodes` that is kept.
pub open spec fn node_kept(m: RawManifestModel, uid: Text) -> bool {
    m.nodes.contains_key(uid) && !excluded(m.nodes[uid].resource_type)
}

/// An entry of `sources` that is kept.
pub open spec fn source_kept(m: RawManifestModel, uid: Text) -> bool {
    m.sources.contains_key(uid) && !excluded(m.sources[uid].resource_type)
}

/// The ids of the graph: every kept node and source, and every exposure.
pub open spec fn kept(m: RawManifestModel) -> Set<Text> {
    Set::new(|uid: Text| node_kept(m, uid) || source_kept(m, uid) || m.exposures.contains_key(uid))
}

/// A node entry whose counts are not yet known.
pub open spec fn bare(uid: Text, name: Text, resource_type: Text, path: Option<Text>, materialized: Option<Text>) -> NodeModel {
    NodeModel { unique_id: uid, name, resource_type, path, materialized, direct_up: 0, direct_down: 0, test_count: 0 }
}

pub open spec fn bare_node(uid: Text, n: RawNodeModel) -> NodeModel {
    bare(uid, n.name, n.resource_type, n.path, n.materialized)
}

pub open spec fn bare_source(uid: Text, s: RawSourceModel) -> NodeModel {
    bare(uid, s.name, s.resource_type, s.path, None)
}

pub open spec fn bare_exposure(uid: Text, e: RawExposureModel) -> NodeModel {
    bare(uid, e.name, "exposure"@, e.path, None)
}

/// The entry of `uid` without its counts. Where an id stands in several tables
/// an exposure wins over a source, and a source over a node.
pub open spec fn bare_of(m: RawManifestModel, uid: Text) -> NodeModel {
    if m.exposures.contains_key(uid) {
        bare_exposure(uid, m.exposures[uid])
    } else if source_kept(m, uid) {
        bare_source(uid, m.sources[uid])
    } else {
        bare_node(uid, m.nodes[uid])
    }
}

pub open spec fn node_detail(n: RawNodeModel) -> DetailModel {
    DetailModel {
        materialized: n.materialized,
        database: n.database,
        schema: n.schema,
        tags: n.tags,
        description: cleaned(n.description),
        columns: columns_of(n.columns),
        original_file_path: n.original_file_path,
    }
}

pub open spec fn source_detail(s: RawSourceModel) -> DetailModel {
    DetailModel {
        materialized: None,
        database: s.database,
        schema: s.schema,
        tags: Seq::empty(),
        description: cleaned(s.description),
        columns: columns_of(s.columns),
        original_file_path: s.original_file_path,
    }
}

pub open spec fn exposure_detail(e: RawExposureModel) -> DetailModel {
    DetailModel {
        description: cleaned(e.description),
        original_file_path: e.original_file_path,
        ..blank_detail()
    }
}

/// The details of `uid`, with the same precedence as `bare_of`.
pub open spec fn detail_of(m: RawManifestModel, uid: Text) -> DetailModel {
    if m.exposures.contains_key(uid) {
        exposure_detail(m.exposures[uid])
    } else if source_kept(m, uid) {
        source_detail(m.sources[uid])
    } else {
        node_detail(m.nodes[uid])
    }
}

pub open spec fn exposure_info(e: RawExposureModel) -> ExposureModel {
    ExposureModel { exposure_type: e.exposure_type, owner_name: e.owner_name, owner_email: e.owner_email, url: e.url }
}

/// What is recorded of a test node.
pub open spec fn test_info(n: RawNodeModel) -> TestModel {
    TestModel {
        name: n.name,
        kind: match n.test_name {
            Some(k) => k,
            None => "singular"@,
        },
        column_name: n.column_name,
    }
}

/// The ids a test is recorded under: the node it is attached to, else every
/// node it depends on.
pub open spec fn test_targets(n: RawNodeModel) -> Seq<Text> {
    match n.attached_node {
        Some(t) => seq![t],
        None => n.depends_on,
    }
}

/// How often `x` stands in `s`.
pub open spec fn occurrences(s: Seq<Text>, x: Text) -> nat
    decreases s.len(),
{
    if s.len() == 0 {
        0
    } else {
        occurrences(s.drop_last(), x) + if s.last() == x { 1nat } else { 0nat }
    }
}

/// What one raw node adds to the tests of `target`: a test is recorded once for
/// each time it names the target.
pub open spec fn tests_added(n: RawNodeModel, target: Text) -> Seq<TestModel> {
    if n.resource_type == "test"@ {
        Seq::new(occurrences(test_targets(n), target), |i: int| test_info(n))
    } else {
        Seq::empty()
    }
}

/// The tests that the raw nodes `ids` record for `target`.
pub open spec fn tests_recorded(nodes: Map<Text, RawNodeModel>, ids: Seq<Text>, target: Text) -> Seq<TestModel>
    decreases ids.len(),
{
    if ids.len() == 0 {
        Seq::empty()
    } else {
        tests_recorded(nodes, ids.drop_last(), target) + tests_added(nodes[ids.last()], target)
    }
}

/// The tests of each target, sorted by kind, column and name.
pub open spec fn tests_of(m: RawManifestModel) -> Map<Text, Seq<TestModel>> {
    Map::new(
        |t: Text| tests_recorded(m.nodes, listing(m.nodes.dom()), t).len() > 0,
        |t: Text| in_order::<TestInfo>(tests_recorded(m.nodes, listing(m.nodes.dom()), t)),
    )
}

/// `base` with each of `xs` that is kept and not yet there appended.
pub open spec fn appended_new(base: Seq<Text>, xs: Seq<Text>, keep: Set<Text>) -> Seq<Text>
    decreases xs.len(),
{
    if xs.len() == 0 {
        base
    } else {
        let r = appended_new(base, xs.drop_last(), keep);
        if keep.contains(xs.last()) && !r.contains(xs.last()) {
            r.push(xs.last())
        } else {
            r
        }
    }
}

/// An adjacency map cut down to `keep`, in its keys and in its lists. A list
/// names every neighbour once, where the map names it first.
pub open spec fn pruned(adj: Adjacency, keep: Set<Text>) -> Adjacency {
    Map::new(
        |k: Text| adj.contains_key(k) && keep.contains(k),
        |k: Text| appended_new(Seq::empty(), adj[k], keep),
    )
}

/// `base` with each of the exposures `es` that depends on `dep` and is not yet
/// there appended.
pub open spec fn appended_dependants(base: Seq<Text>, es: Seq<Text>, exposures: Map<Text, RawExposureModel>, dep: Text) -> Seq<Text>
    decreases es.len(),
{
    if es.len() == 0 {
        base
    } else {
        let r = appended_dependants(base, es.drop_last(), exposures, dep);
        if exposures[es.last()].depends_on.contains(dep) && !r.contains(es.last()) {
            r.push(es.last())
        } else {
            r
        }
    }
}

/// An exposure depends on a kept node.
pub open spec fn has_kept_dep(e: RawExposureModel, keep: Set<Text>) -> bool {
    exists|d: Text| #[trigger] e.depends_on.contains(d) && keep.contains(d)
}

/// The parents: the manifest's, pruned, and for each exposure also what it
/// depends on itself.
pub open spec fn parents_of(m: RawManifestModel) -> Adjacency {
    let base = pruned(m.parent_map, kept(m));
    Map::new(
        |u: Text| base.contains_key(u) || (m.exposures.contains_key(u) && has_kept_dep(m.exposures[u], kept(m))),
        |u: Text|
            if m.exposures.contains_key(u) {
                appended_new(neighbours(base, u), m.exposures[u].depends_on, kept(m))
            } else {
                neighbours(base, u)
            },
    )
}

/// The children: the manifest's, pruned, and for each kept node also the
/// exposures that depend on it.
pub open spec fn children_of(m: RawManifestModel) -> Adjacency {
    let base = pruned(m.child_map, kept(m));
    Map::new(
        |u: Text|
            base.contains_key(u) || (kept(m).contains(u) && exists|e: Text|
                m.exposures.contains_key(e) && #[trigger] m.exposures[e].depends_on.contains(u)),
        |u: Text| appended_dependants(neighbours(base, u), listing(m.exposures.dom()), m.exposures, u),
    )
}

/// The number of entries recorded under a key.
pub open spec fn count_at<A>(m: Map<Text, Seq<A>>, k: Text) -> nat {
    if m.contains_key(k) {
        m[k].len()
    } else {
        0
    }
}

/// A node entry with its counts.
pub open spec fn counted(n: NodeModel, parents: Adjacency, children: Adjacency, tests: Map<Text, Seq<TestModel>>) -> NodeModel {
    NodeModel {
        direct_up: count_at(parents, n.unique_id),
        direct_down: count_at(children, n.unique_id),
        test_count: count_at(tests, n.unique_id),
        ..n
    }
}

/// The graph of a manifest.
pub open spec fn dag_of(m: RawManifestModel) -> DagModel {
    DagModel {
        nodes: Map::new(
            |u: Text| kept(m).contains(u),
            |u: Text| counted(bare_of(m, u), parents_of(m), children_of(m), tests_of(m)),
        ),
        parents: parents_of(m),
        children: children_of(m),
        details: Map::new(|u: Text| kept(m).contains(u), |u: Text| detail_of(m, u)),
        tests: tests_of(m),
        sql: Map::new(
            |u: Text| node_kept(m, u) && m.nodes[u].raw_code is Some,
            |u: Text| m.nodes[u].raw_code->0,
        ),
        exposures: m.exposures.map_values(|e: RawExposureModel| exposure_info(e)),
    }
}

// ---- tests in order ----

/// Tests are ordered by kind, then column (none first), then name.
pub open spec fn test_le(a: TestModel, b: TestModel) -> bool {
    text_lt(a.kind, b.kind) || (a.kind == b.kind && (opt_lt(a.column_name, b.column_name) || (a.column_name
        == b.column_name && text_le(a.name, b.name))))
}

/// The order on optional texts: none before any text.
pub open spec fn opt_lt(a: Option<Text>, b: Option<Text>) -> bool {
    match (a, b) {
        (None, Some(_)) => true,
        (Some(x), Some(y)) => text_lt(x, y),
        _ => false,
    }
}

impl Sortable for TestInfo {
    open spec fn leq(a: TestModel, b: TestModel) -> bool {
        test_le(a, b)
    }

    proof fn leq_total() {
        broadcast use group_text_order;
        let r = |a: TestModel, b: TestModel| Self::leq(a, b);
        assert forall|x: TestModel, y: TestModel| #[trigger] r(x, y) && #[trigger] r(y, x) implies x == y by {
            text_lt_irreflexive(x.kind);
            text_lt_irreflexive(x.name);
            if x.column_name is Some {
                text_lt_irreflexive(x.column_name->0);
            }
        }
        assert forall|x: TestModel, y: TestModel, z: TestModel| #[trigger] r(x, y) && #[trigger] r(y, z) implies r(x, z) by {
        }
        assert forall|x: TestModel, y: TestModel| #[trigger] r(x, y) || #[trigger] r(y, x) by {
            text_lt_connected(x.kind, y.kind);
            text_lt_connected(x.name, y.name);
            if x.column_name is Some && y.column_name is Some {
                text_lt_connected(x.column_name->0, y.column_name->0);
            }
        }
    }

    fn at_most(&self, other: &Self) -> (r: bool) {
        proof {
            broadcast use group_text_order;
            text_lt_connected(self.kind@, other.kind@);
        }
        if str_lt(self.kind.as_str(), other.kind.as_str()) {
            return true;
        }
        if str_lt(other.kind.as_str(), self.kind.as_str()) {
            return false;
        }
        match (&self.column_name, &other.column_name) {
            (None, Some(_)) => true,
            (Some(_), None) => false,
            (None, None) => self.name.at_most(&other.name),
            (Some(a), Some(b)) => {
                proof {
                    text_lt_connected(a@, b@);
                }
                if str_lt(a.as_str(), b.as_str()) {
                    true
                } else if str_lt(b.as_str(), a.as_str()) {
                    false
                } else {
                    self.name.at_most(&other.name)
                }
            },
        }
    }
}

// ---- building ----

/// The entries recorded under a key; none where there is no entry.
pub open spec fn at<A>(m: Map<Text, Seq<A>>, k: Text) -> Seq<A> {
    if m.contains_key(k) {
        m[k]
    } else {
        Seq::empty()
    }
}

proof fn take_contains(s: Seq<Text>, i: int)
    requires
        0 <= i < s.len(),
    ensures
        forall|u: Text| #[trigger] s.take(i + 1).contains(u) <==> s.take(i).contains(u) || u == s[i],
        s.take(i + 1).drop_last() == s.take(i),
        s.take(i + 1).last() == s[i],
{
    assert(s.take(i + 1).drop_last() =~= s.take(i));
    assert(s.take(i + 1) =~= s.take(i).push(s[i]));
    assert forall|u: Text| #[trigger] s.take(i + 1).contains(u) <==> s.take(i).contains(u) || u == s[i] by {
        if s.take(i).contains(u) {
            let k = s.take(i).index_of(u);
            assert(s.take(i + 1)[k] == u);
        }
        assert(s.take(i + 1)[i] == s[i]);
        if s.take(i + 1).contains(u) {
            let k = s.take(i + 1).index_of(u);
            if k < i {
                assert(s.take(i)[k] == u);
            }
        }
    }
}

proof fn take_all(s: Seq<Text>)
    ensures
        s.take(s.len() as int) == s,
{
    assert(s.take(s.len() as int) =~= s);
}

fn clean_desc(desc: &Option<String>) -> (r: Option<String>)
    ensures
        r.deep_view() == cleaned(desc.deep_view()),
{
    match desc {
        Some(d) => {
            let t = trim(d.as_str());
            if t.as_str().is_empty() {
                None
            } else {
                Some(t)
            }
        },
        None => None,
    }
}

fn columns_from(cs: &Vec<RawColumn>) -> (r: Vec<ColumnInfo>)
    ensures
        r.deep_view() == columns_of(cs.deep_view()),
{
    let mut out: Vec<ColumnInfo> = Vec::new();
    let mut i: usize = 0;
    while i < cs.len()
        invariant
            i <= cs@.len(),
            out@.len() == i,
            forall|j: int| 0 <= j < i ==> out@[j].deep_view() == column_of(cs@[j].deep_view()),
        decreases cs@.len() - i,
    {
        let c = &cs[i];
        let name = match &c.name {
            Some(n) => n.clone(),
            None => c.key.clone(),
        };
        let description = match &c.description {
            Some(d) => if d.as_str().is_empty() {
                None
            } else {
                Some(d.clone())
            },
            None => None,
        };
        out.push(ColumnInfo { name, data_type: clone_opt(&c.data_type), description });
        i = i + 1;
    }
    assert(out.deep_view() =~= columns_of(cs.deep_view()));
    out
}

fn detail_from_node(node: &RawNode) -> (r: NodeDetail)
    ensures
        r.deep_view() == node_detail(node.deep_view()),
{
    NodeDetail {
        materialized: clone_opt(&node.config.materialized),
        database: clone_opt(&node.database),
        schema: clone_opt(&node.schema),
        tags: clone_strings(&node.tags),
        description: clean_desc(&node.description),
        columns: columns_from(&node.columns),
        original_file_path: clone_opt(&node.original_file_path),
    }
}

fn detail_from_exposure(exposure: &RawExposure) -> (r: NodeDetail)
    ensures
        r.deep_view() == exposure_detail(exposure.deep_view()),
{
    let mut r = NodeDetail::default();
    r.description = clean_desc(&exposure.description);
    r.original_file_path = clone_opt(&exposure.original_file_path);
    r
}

fn detail_from_source(source: &RawSource) -> (r: NodeDetail)
    ensures
        r.deep_view() == source_detail(source.deep_view()),
{
    let tags: Vec<String> = Vec::new();
    assert(tags.deep_view() =~= Seq::empty());
    NodeDetail {
        materialized: None,
        database: clone_opt(&source.database),
        schema: clone_opt(&source.schema),
        tags,
        description: clean_desc(&source.description),
        columns: columns_from(&source.columns),
        original_file_path: clone_opt(&source.original_file_path),
    }
}

/// Appends `x` to the list of `key`, starting one where there is none.
pub fn push_at<A: DeepView>(m: &mut StrMap<Vec<A>>, key: &str, x: A)
    requires
        old(m).wf(),
    ensures
        final(m).wf(),
        final(m).deep_view() == old(m).deep_view().insert(key@, at(old(m).deep_view(), key@).push(x.deep_view())),
{
    let ghost m0 = m@;
    let ghost xv = x.deep_view();
    match m.position(key) {
        Some(i) => {
            let list = m.value_mut(i);
            let ghost l0 = list.deep_view();
            list.push(x);
            proof {
                assert(list.deep_view() =~= l0.push(xv));
                StrMap::<Vec<A>>::deep_insert(m0, m0.insert(key@, *list), key@, *list);
            }
        },
        None => {
            let mut list: Vec<A> = Vec::new();
            list.push(x);
            proof {
                assert(list.deep_view() =~= Seq::empty().push(xv));
                StrMap::<Vec<A>>::deep_insert(m0, m0.insert(key@, list), key@, list);
            }
            m.insert(key.to_owned(), list);
        },
    }
}

/// `base` with one entry of `info` for each of `targets`.
spec fn with_targets(base: Map<Text, Seq<TestModel>>, targets: Seq<Text>, info: TestModel) -> Map<Text, Seq<TestModel>> {
    Map::new(
        |t: Text| base.contains_key(t) || targets.contains(t),
        |t: Text| at(base, t) + Seq::new(occurrences(targets, t), |i: int| info),
    )
}

proof fn with_targets_step(base: Map<Text, Seq<TestModel>>, targets: Seq<Text>, i: int, info: TestModel)
    requires
        0 <= i < targets.len(),
    ensures
        with_targets(base, targets.take(i + 1), info) == ({
            let m = with_targets(base, targets.take(i), info);
            m.insert(targets[i], at(m, targets[i]).push(info))
        }),
{
    take_contains(targets, i);
    let m = with_targets(base, targets.take(i), info);
    let t0 = targets[i];
    let n = with_targets(base, targets.take(i + 1), info);
    absent_zero(targets.take(i), t0);
    assert forall|t: Text| n.contains_key(t) implies n[t] == m.insert(t0, at(m, t0).push(info))[t] by {
        if t == t0 {
            assert(n[t] =~= at(m, t0).push(info));
        }
    }
    assert(n =~= m.insert(t0, at(m, t0).push(info)));
}

proof fn absent_zero(s: Seq<Text>, x: Text)
    ensures
        !s.contains(x) <==> occurrences(s, x) == 0,
    decreases s.len(),
{
    if s.len() > 0 {
        absent_zero(s.drop_last(), x);
        if s.last() == x {
            assert(s[s.len() - 1] == x);
        }
        if s.drop_last().contains(x) {
            let k = s.drop_last().index_of(x);
            assert(s[k] == x);
        }
        if s.contains(x) && s.last() != x {
            let k = s.index_of(x);
            assert(s.drop_last()[k] == x);
        }
    }
}

/// Records a test node under its target: the node it is attached to, else every
/// node it depends on.
fn register_test(tests: &mut StrMap<Vec<TestInfo>>, node: &RawNode)
    requires
        old(tests).wf(),
        node.resource_type@ == "test"@,
    ensures
        final(tests).wf(),
        final(tests).deep_view() == with_targets(
            old(tests).deep_view(),
            test_targets(node.deep_view()),
            test_info(node.deep_view()),
        ),
{
    let ghost base = tests.deep_view();
    let kind = match &node.test_metadata {
        Some(m) => match &m.name {
            Some(n) => n.clone(),
            None => "singular".to_owned(),
        },
        None => "singular".to_owned(),
    };
    let info = TestInfo { name: node.name.clone(), kind, column_name: clone_opt(&node.column_name) };
    let ghost iv = info.deep_view();
    let ghost targets = test_targets(node.deep_view());
    proof {
        assert(iv == test_info(node.deep_view()));
        assert(with_targets(base, targets.take(0), iv) =~= base) by {
            assert forall|t: Text| base.contains_key(t) implies with_targets(base, targets.take(0), iv)[t] == base[t] by {
                assert(with_targets(base, targets.take(0), iv)[t] =~= base[t]);
            }
        }
        take_all(targets);
    }
    match &node.attached_node {
        Some(target) => {
            proof {
                with_targets_step(base, targets, 0, iv);
            }
            push_at(tests, target.as_str(), info);
        },
        None => {
            let mut i: usize = 0;
            while i < node.depends_on.nodes.len()
                invariant
                    i <= node.depends_on.nodes@.len(),
                    tests.wf(),
                    iv == info.deep_view(),
                    targets == node.depends_on.nodes.deep_view(),
                    tests.deep_view() == with_targets(base, targets.take(i as int), iv),
                decreases node.depends_on.nodes@.len() - i,
            {
                proof {
                    with_targets_step(base, targets, i as int, iv);
                }
                push_at(tests, node.depends_on.nodes[i].as_str(), info.clone());
                i = i + 1;
            }
        },
    }
}

/// What the raw nodes contribute: kept entries, their details and SQL, and the
/// tests that were recorded on the way.
struct NodeTables {
    nodes: StrMap<NodeInfo>,
    details: StrMap<NodeDetail>,
    sql: StrMap<String>,
    tests: StrMap<Vec<TestInfo>>,
}

spec fn raw_tests(m: RawManifestModel, ids: Seq<Text>) -> Map<Text, Seq<TestModel>> {
    Map::new(
        |t: Text| tests_recorded(m.nodes, ids, t).len() > 0,
        |t: Text| tests_recorded(m.nodes, ids, t),
    )
}

proof fn raw_tests_step(m: RawManifestModel, ids: Seq<Text>, i: int)
    requires
        0 <= i < ids.len(),
    ensures
        m.nodes[ids[i]].resource_type == "test"@ ==> raw_tests(m, ids.take(i + 1)) == with_targets(
            raw_tests(m, ids.take(i)),
            test_targets(m.nodes[ids[i]]),
            test_info(m.nodes[ids[i]]),
        ),
        m.nodes[ids[i]].resource_type != "test"@ ==> raw_tests(m, ids.take(i + 1)) == raw_tests(m, ids.take(i)),
{
    take_contains(ids, i);
    let n = m.nodes[ids[i]];
    let a = raw_tests(m, ids.take(i));
    let b = raw_tests(m, ids.take(i + 1));
    if n.resource_type == "test"@ {
        let c = with_targets(a, test_targets(n), test_info(n));
        assert forall|t: Text| b.contains_key(t) <==> c.contains_key(t) by {
            absent_zero(test_targets(n), t);
        }
        assert forall|t: Text| b.contains_key(t) implies b[t] == c[t] by {
            assert(b[t] =~= c[t]);
        }
        assert(b =~= c);
    } else {
        assert forall|t: Text| tests_recorded(m.nodes, ids.take(i + 1), t) == tests_recorded(m.nodes, ids.take(i), t) by {
            assert(tests_recorded(m.nodes, ids.take(i + 1), t) =~= tests_recorded(m.nodes, ids.take(i), t));
        }
        assert(b =~= a);
    }
}

spec fn nodes_upto(m: RawManifestModel, ids: Seq<Text>) -> Map<Text, NodeModel> {
    Map::new(|u: Text| ids.contains(u) && node_kept(m, u), |u: Text| bare_node(u, m.nodes[u]))
}

spec fn node_details_upto(m: RawManifestModel, ids: Seq<Text>) -> Map<Text, DetailModel> {
    Map::new(|u: Text| ids.contains(u) && node_kept(m, u), |u: Text| node_detail(m.nodes[u]))
}

spec fn sql_upto(m: RawManifestModel, ids: Seq<Text>) -> Map<Text, Text> {
    Map::new(
        |u: Text| ids.contains(u) && node_kept(m, u) && m.nodes[u].raw_code is Some,
        |u: Text| m.nodes[u].raw_code->0,
    )
}

fn node_tables(manifest: &RawManifest) -> (r: NodeTables)
    requires
        manifest.wf(),
    ensures
        r.nodes.wf() && r.details.wf() && r.sql.wf() && r.tests.wf(),
        ({
            let m = manifest.deep_view();
            let ids = listing(m.nodes.dom());
            &&& r.nodes.deep_view() == nodes_upto(m, ids)
            &&& r.details.deep_view() == node_details_upto(m, ids)
            &&& r.sql.deep_view() == sql_upto(m, ids)
            &&& r.tests.deep_view() == raw_tests(m, ids)
            &&& forall|u: Text| ids.contains(u) <==> m.nodes.contains_key(u)
        }),
{
    let ghost m = manifest.deep_view();
    let ghost ids = manifest.nodes.key_list();
    let mut nodes: StrMap<NodeInfo> = StrMap::new();
    let mut details: StrMap<NodeDetail> = StrMap::new();
    let mut sql: StrMap<String> = StrMap::new();
    let mut tests: StrMap<Vec<TestInfo>> = StrMap::new();
    proof {
        manifest.nodes.keys_listed();
        assert(m.nodes.dom() =~= manifest.nodes@.dom());
        assert forall|u: Text| ids.contains(u) <==> m.nodes.contains_key(u) by {
            assert(ids.to_set().contains(u) <==> manifest.nodes@.dom().contains(u));
        }
        assert(nodes.deep_view() =~= nodes_upto(m, ids.take(0)));
        assert(details.deep_view() =~= node_details_upto(m, ids.take(0)));
        assert(sql.deep_view() =~= sql_upto(m, ids.take(0)));
        assert(tests.deep_view() =~= raw_tests(m, ids.take(0)));
    }
    let mut i: usize = 0;
    while i < manifest.nodes.len()
        invariant
            manifest.wf(),
            m == manifest.deep_view(),
            ids == manifest.nodes.key_list(),
            i <= ids.len(),
            nodes.wf(),
            details.wf(),
            sql.wf(),
            tests.wf(),
            nodes.deep_view() == nodes_upto(m, ids.take(i as int)),
            details.deep_view() == node_details_upto(m, ids.take(i as int)),
            sql.deep_view() == sql_upto(m, ids.take(i as int)),
            tests.deep_view() == raw_tests(m, ids.take(i as int)),
        decreases ids.len() - i,
    {
        let uid = manifest.nodes.key_at(i);
        let node = manifest.nodes.value_at(i);
        proof {
            take_contains(ids, i as int);
            raw_tests_step(m, ids, i as int);
            assert(m.nodes[uid@] == node.deep_view());
            assert(m.nodes.contains_key(uid@));
        }
        let ghost next = ids.take(i + 1);
        if str_eq(node.resource_type.as_str(), "test") {
            register_test(&mut tests, node);
            proof {
                assert(excluded(node.resource_type@));
                assert(nodes_upto(m, ids.take(i as int)) =~= nodes_upto(m, next));
                assert(node_details_upto(m, ids.take(i as int)) =~= node_details_upto(m, next));
                assert(sql_upto(m, ids.take(i as int)) =~= sql_upto(m, next));
            }
        } else if is_excluded(node.resource_type.as_str()) {
            proof {
                assert(nodes_upto(m, ids.take(i as int)) =~= nodes_upto(m, next));
                assert(node_details_upto(m, ids.take(i as int)) =~= node_details_upto(m, next));
                assert(sql_upto(m, ids.take(i as int)) =~= sql_upto(m, next));
            }
        } else {
            let info = NodeInfo {
                unique_id: uid.clone(),
                name: node.name.clone(),
                resource_type: node.resource_type.clone(),
                path: clone_opt(&node.path),
                materialized: clone_opt(&node.config.materialized),
                direct_up: 0,
                direct_down: 0,
                test_count: 0,
            };
            let detail = detail_from_node(node);
            proof {
                assert(node_kept(m, uid@));
                assert(info.deep_view() == bare_node(uid@, m.nodes[uid@]));
                StrMap::<NodeInfo>::deep_insert(nodes@, nodes@.insert(uid@, info), uid@, info);
                StrMap::<NodeDetail>::deep_insert(details@, details@.insert(uid@, detail), uid@, detail);
                assert(nodes_upto(m, next) =~= nodes_upto(m, ids.take(i as int)).insert(uid@, info.deep_view()));
                assert(node_details_upto(m, next) =~= node_details_upto(m, ids.take(i as int)).insert(uid@, detail.deep_view()));
            }
            nodes.insert(uid.clone(), info);
            details.insert(uid.clone(), detail);
            match &node.raw_code {
                Some(code) => {
                    let copy = code.clone();
                    proof {
                        assert(m.nodes[uid@].raw_code == Some(code@));
                        StrMap::<String>::deep_insert(sql@, sql@.insert(uid@, copy), uid@, copy);
                        assert(sql_upto(m, next) =~= sql_upto(m, ids.take(i as int)).insert(uid@, copy@));
                    }
                    sql.insert(uid.clone(), copy);
                },
                None => {
                    proof {
                        assert(m.nodes[uid@].raw_code is None);
                        assert(sql_upto(m, ids.take(i as int)) =~= sql_upto(m, next));
                    }
                },
            }
        }
        i = i + 1;
    }
    proof {
        take_all(ids);
    }
    NodeTables { nodes, details, sql, tests }
}

spec fn merged(m: RawManifestModel, sources: Seq<Text>, exposures: Seq<Text>) -> Map<Text, NodeModel> {
    Map::new(
        |u: Text| node_kept(m, u) || (sources.contains(u) && source_kept(m, u)) || exposures.contains(u),
        |u: Text|
            if exposures.contains(u) {
                bare_exposure(u, m.exposures[u])
            } else if sources.contains(u) && source_kept(m, u) {
                bare_source(u, m.sources[u])
            } else {
                bare_node(u, m.nodes[u])
            },
    )
}

spec fn merged_details(m: RawManifestModel, sources: Seq<Text>, exposures: Seq<Text>) -> Map<Text, DetailModel> {
    Map::new(
        |u: Text| node_kept(m, u) || (sources.contains(u) && source_kept(m, u)) || exposures.contains(u),
        |u: Text|
            if exposures.contains(u) {
                exposure_detail(m.exposures[u])
            } else if sources.contains(u) && source_kept(m, u) {
                source_detail(m.sources[u])
            } else {
                node_detail(m.nodes[u])
            },
    )
}

fn add_sources(manifest: &RawManifest, nodes: &mut StrMap<NodeInfo>, details: &mut StrMap<NodeDetail>)
    requires
        manifest.wf(),
        old(nodes).wf(),
        old(details).wf(),
        old(nodes).deep_view() == merged(manifest.deep_view(), Seq::empty(), Seq::empty()),
        old(details).deep_view() == merged_details(manifest.deep_view(), Seq::empty(), Seq::empty()),
    ensures
        final(nodes).wf(),
        final(details).wf(),
        final(nodes).deep_view() == merged(manifest.deep_view(), manifest.sources.key_list(), Seq::empty()),
        final(details).deep_view() == merged_details(manifest.deep_view(), manifest.sources.key_list(), Seq::empty()),
{
    let ghost m = manifest.deep_view();
    let ghost ids = manifest.sources.key_list();
    let ghost none = Seq::<Text>::empty();
    proof {
        assert(ids.take(0) =~= none);
    }
    let mut i: usize = 0;
    while i < manifest.sources.len()
        invariant
            manifest.wf(),
            m == manifest.deep_view(),
            ids == manifest.sources.key_list(),
            none == Seq::<Text>::empty(),
            i <= ids.len(),
            nodes.wf(),
            details.wf(),
            nodes.deep_view() == merged(m, ids.take(i as int), none),
            details.deep_view() == merged_details(m, ids.take(i as int), none),
        decreases ids.len() - i,
    {
        let uid = manifest.sources.key_at(i);
        let source = manifest.sources.value_at(i);
        let ghost done = ids.take(i as int);
        let ghost next = ids.take(i + 1);
        proof {
            take_contains(ids, i as int);
            assert(m.sources[uid@] == source.deep_view());
            assert(m.sources.contains_key(uid@));
        }
        if is_excluded(source.resource_type.as_str()) {
            proof {
                assert(merged(m, done, none) =~= merged(m, next, none));
                assert(merged_details(m, done, none) =~= merged_details(m, next, none));
            }
        } else {
            let info = NodeInfo {
                unique_id: uid.clone(),
                name: source.name.clone(),
                resource_type: source.resource_type.clone(),
                path: clone_opt(&source.path),
                materialized: None,
                direct_up: 0,
                direct_down: 0,
                test_count: 0,
            };
            let detail = detail_from_source(source);
            proof {
                assert(source_kept(m, uid@));
                assert(info.deep_view() == bare_source(uid@, m.sources[uid@]));
                StrMap::<NodeInfo>::deep_insert(nodes@, nodes@.insert(uid@, info), uid@, info);
                StrMap::<NodeDetail>::deep_insert(details@, details@.insert(uid@, detail), uid@, detail);
                assert(merged(m, next, none) =~= merged(m, done, none).insert(uid@, info.deep_view()));
                assert(merged_details(m, next, none) =~= merged_details(m, done, none).insert(uid@, detail.deep_view()));
            }
            nodes.insert(uid.clone(), info);
            details.insert(uid.clone(), detail);
        }
        i = i + 1;
    }
    proof {
        take_all(ids);
    }
}

fn add_exposures(manifest: &RawManifest, nodes: &mut StrMap<NodeInfo>, details: &mut StrMap<NodeDetail>) -> (exposures: StrMap<ExposureInfo>)
    requires
        manifest.wf(),
        old(nodes).wf(),
        old(details).wf(),
        old(nodes).deep_view() == merged(manifest.deep_view(), manifest.sources.key_list(), Seq::empty()),
        old(details).deep_view() == merged_details(manifest.deep_view(), manifest.sources.key_list(), Seq::empty()),
    ensures
        final(nodes).wf(),
        final(details).wf(),
        exposures.wf(),
        final(nodes).deep_view() == merged(manifest.deep_view(), manifest.sources.key_list(), manifest.exposures.key_list()),
        final(details).deep_view() == merged_details(manifest.deep_view(), manifest.sources.key_list(), manifest.exposures.key_list()),
        exposures.deep_view() == manifest.deep_view().exposures.map_values(|e: RawExposureModel| exposure_info(e)),
{
    let ghost m = manifest.deep_view();
    let ghost srcs = manifest.sources.key_list();
    let ghost ids = manifest.exposures.key_list();
    let ghost infos = m.exposures.map_values(|e: RawExposureModel| exposure_info(e));
    let mut exposures: StrMap<ExposureInfo> = StrMap::new();
    proof {
        assert(ids.take(0) =~= Seq::<Text>::empty());
        assert(exposures.deep_view() =~= infos.restrict(ids.take(0).to_set()));
    }
    let mut i: usize = 0;
    while i < manifest.exposures.len()
        invariant
            manifest.wf(),
            m == manifest.deep_view(),
            ids == manifest.exposures.key_list(),
            infos == m.exposures.map_values(|e: RawExposureModel| exposure_info(e)),
            i <= ids.len(),
            nodes.wf(),
            details.wf(),
            exposures.wf(),
            nodes.deep_view() == merged(m, srcs, ids.take(i as int)),
            details.deep_view() == merged_details(m, srcs, ids.take(i as int)),
            exposures.deep_view() == infos.restrict(ids.take(i as int).to_set()),
        decreases ids.len() - i,
    {
        let uid = manifest.exposures.key_at(i);
        let exposure = manifest.exposures.value_at(i);
        let ghost done = ids.take(i as int);
        let ghost next = ids.take(i + 1);
        proof {
            take_contains(ids, i as int);
            assert(m.exposures[uid@] == exposure.deep_view());
            assert(m.exposures.contains_key(uid@));
        }
        let info = NodeInfo {
            unique_id: uid.clone(),
            name: exposure.name.clone(),
            resource_type: "exposure".to_owned(),
            path: clone_opt(&exposure.path),
            materialized: None,
            direct_up: 0,
            direct_down: 0,
            test_count: 0,
        };
        let detail = detail_from_exposure(exposure);
        let payload = ExposureInfo {
            exposure_type: clone_opt(&exposure.exposure_type),
            owner_name: clone_opt(&exposure.owner.name),
            owner_email: clone_opt(&exposure.owner.email),
            url: clone_opt(&exposure.url),
        };
        proof {
            assert(info.deep_view() == bare_exposure(uid@, m.exposures[uid@]));
            StrMap::<NodeInfo>::deep_insert(nodes@, nodes@.insert(uid@, info), uid@, info);
            StrMap::<NodeDetail>::deep_insert(details@, details@.insert(uid@, detail), uid@, detail);
            StrMap::<ExposureInfo>::deep_insert(exposures@, exposures@.insert(uid@, payload), uid@, payload);
            assert(merged(m, srcs, next) =~= merged(m, srcs, done).insert(uid@, info.deep_view()));
            assert(merged_details(m, srcs, next) =~= merged_details(m, srcs, done).insert(uid@, detail.deep_view()));
            assert(infos.restrict(next.to_set()) =~= infos.restrict(done.to_set()).insert(uid@, payload.deep_view()));
        }
        nodes.insert(uid.clone(), info);
        details.insert(uid.clone(), detail);
        exposures.insert(uid.clone(), payload);
        i = i + 1;
    }
    proof {
        take_all(ids);
        manifest.exposures.keys_listed();
        assert(m.exposures.dom() =~= manifest.exposures@.dom());
        assert(infos.restrict(ids.to_set()) =~= infos);
    }
    exposures
}

/// Sorts the tests of every target.
fn sort_tests(tests: StrMap<Vec<TestInfo>>) -> (r: StrMap<Vec<TestInfo>>)
    requires
        tests.wf(),
    ensures
        r.wf(),
        r.deep_view() == tests.deep_view().map_values(|l: Seq<TestModel>| in_order::<TestInfo>(l)),
{
    let ghost ids = tests.key_list();
    let ghost all = tests.deep_view().map_values(|l: Seq<TestModel>| in_order::<TestInfo>(l));
    let mut out: StrMap<Vec<TestInfo>> = StrMap::new();
    proof {
        assert(out.deep_view() =~= all.restrict(ids.take(0).to_set()));
    }
    let mut i: usize = 0;
    while i < tests.len()
        invariant
            tests.wf(),
            out.wf(),
            ids == tests.key_list(),
            all == tests.deep_view().map_values(|l: Seq<TestModel>| in_order::<TestInfo>(l)),
            i <= ids.len(),
            out.deep_view() == all.restrict(ids.take(i as int).to_set()),
        decreases ids.len() - i,
    {
        let key = tests.key_at(i);
        let list = sort(clone_tests(tests.value_at(i)));
        proof {
            take_contains(ids, i as int);
            StrMap::<Vec<TestInfo>>::deep_insert(out@, out@.insert(key@, list), key@, list);
            assert(all.restrict(ids.take(i + 1).to_set()) =~= all.restrict(ids.take(i as int).to_set()).insert(key@, list.deep_view()));
        }
        out.insert(key.clone(), list);
        i = i + 1;
    }
    proof {
        take_all(ids);
        tests.keys_listed();
        assert(all.restrict(ids.to_set()) =~= all);
    }
    out
}

/// The members of `list` that have an entry in `nodes`, each once.
fn filter_kept(list: &Vec<String>, nodes: &StrMap<NodeInfo>) -> (r: Vec<String>)
    requires
        nodes.wf(),
    ensures
        r.deep_view() == appended_new(Seq::empty(), list.deep_view(), nodes@.dom()),
{
    let ghost all = list.deep_view();
    let ghost keep = nodes@.dom();
    let mut out: Vec<String> = Vec::new();
    let mut i: usize = 0;
    assert(out.deep_view() =~= appended_new(Seq::empty(), all.take(0), keep));
    while i < list.len()
        invariant
            nodes.wf(),
            i <= list@.len(),
            all == list.deep_view(),
            keep == nodes@.dom(),
            out.deep_view() == appended_new(Seq::empty(), all.take(i as int), keep),
        decreases list@.len() - i,
    {
        let ghost o = out.deep_view();
        assert(all.take(i + 1).drop_last() =~= all.take(i as int));
        if nodes.contains_key(list[i].as_str()) && !contains_str(&out, list[i].as_str()) {
            out.push(list[i].clone());
            assert(out.deep_view() =~= o.push(all[i as int]));
        }
        i = i + 1;
    }
    proof {
        take_all(all);
    }
    out
}

/// Cuts an adjacency map down to the kept nodes, keys and lists alike, so that
/// an excluded node is never an endpoint or a hop in between, and an edge that
/// is recorded twice counts once.
fn prune_adjacency(adjacency: &StrMap<Vec<String>>, nodes: &StrMap<NodeInfo>) -> (r: StrMap<Vec<String>>)
    requires
        adjacency.wf(),
        nodes.wf(),
    ensures
        r.wf(),
        r.deep_view() == pruned(adjacency.deep_view(), nodes@.dom()),
{
    let ghost ids = adjacency.key_list();
    let ghost all = pruned(adjacency.deep_view(), nodes@.dom());
    let mut out: StrMap<Vec<String>> = StrMap::new();
    proof {
        assert(out.deep_view() =~= all.restrict(ids.take(0).to_set()));
    }
    let mut i: usize = 0;
    while i < adjacency.len()
        invariant
            adjacency.wf(),
            nodes.wf(),
            out.wf(),
            ids == adjacency.key_list(),
            all == pruned(adjacency.deep_view(), nodes@.dom()),
            i <= ids.len(),
            out.deep_view() == all.restrict(ids.take(i as int).to_set()),
        decreases ids.len() - i,
    {
        let key = adjacency.key_at(i);
        proof {
            take_contains(ids, i as int);
        }
        if nodes.contains_key(key.as_str()) {
            let list = filter_kept(adjacency.value_at(i), nodes);
            proof {
                StrMap::<Vec<String>>::deep_insert(out@, out@.insert(key@, list), key@, list);
                assert(all[key@] == list.deep_view());
                assert(all.restrict(ids.take(i + 1).to_set()) =~= all.restrict(ids.take(i as int).to_set()).insert(key@, list.deep_view()));
            }
            out.insert(key.clone(), list);
        } else {
            assert(all.restrict(ids.take(i + 1).to_set()) =~= all.restrict(ids.take(i as int).to_set()));
        }
        i = i + 1;
    }
    proof {
        take_all(ids);
        adjacency.keys_listed();
        assert(all.restrict(ids.to_set()) =~= all);
    }
    out
}

/// `x` behind `list`, unless it is there already.
pub open spec fn pushed_new(list: Seq<Text>, x: Text) -> Seq<Text> {
    if list.contains(x) {
        list
    } else {
        list.push(x)
    }
}

/// Appends `x` to the list of `key` unless it is there, starting a list where
/// there is none.
fn push_new(m: &mut StrMap<Vec<String>>, key: &str, x: &str)
    requires
        old(m).wf(),
    ensures
        final(m).wf(),
        final(m).deep_view() == old(m).deep_view().insert(key@, pushed_new(neighbours(old(m).deep_view(), key@), x@)),
{
    let present = match m.get(key) {
        Some(list) => contains_str(list, x),
        None => false,
    };
    if present {
        proof {
            assert(m.deep_view() =~= m.deep_view().insert(key@, pushed_new(neighbours(m.deep_view(), key@), x@)));
        }
    } else {
        push_at(m, key, x.to_owned());
    }
}

spec fn parents_upto(base: Adjacency, m: RawManifestModel, es: Seq<Text>) -> Adjacency {
    Map::new(
        |u: Text| base.contains_key(u) || (es.contains(u) && has_kept_dep(m.exposures[u], kept(m))),
        |u: Text|
            if es.contains(u) {
                appended_new(neighbours(base, u), m.exposures[u].depends_on, kept(m))
            } else {
                neighbours(base, u)
            },
    )
}

spec fn parents_mid(pre: Adjacency, uid: Text, base: Seq<Text>, deps: Seq<Text>, keep: Set<Text>) -> Adjacency {
    if exists|d: Text| #[trigger] deps.contains(d) && keep.contains(d) {
        pre.insert(uid, appended_new(base, deps, keep))
    } else {
        pre
    }
}

proof fn parents_mid_step(pre: Adjacency, uid: Text, base: Seq<Text>, deps: Seq<Text>, keep: Set<Text>, j: int)
    requires
        0 <= j < deps.len(),
        neighbours(pre, uid) == base,
    ensures
        keep.contains(deps[j]) ==> parents_mid(pre, uid, base, deps.take(j + 1), keep) == ({
            let q = parents_mid(pre, uid, base, deps.take(j), keep);
            q.insert(uid, pushed_new(neighbours(q, uid), deps[j]))
        }),
        !keep.contains(deps[j]) ==> parents_mid(pre, uid, base, deps.take(j + 1), keep)
            == parents_mid(pre, uid, base, deps.take(j), keep),
{
    take_contains(deps, j);
    let q = parents_mid(pre, uid, base, deps.take(j), keep);
    let r = parents_mid(pre, uid, base, deps.take(j + 1), keep);
    let some0 = exists|d: Text| #[trigger] deps.take(j).contains(d) && keep.contains(d);
    if some0 {
        let d = choose|d: Text| #[trigger] deps.take(j).contains(d) && keep.contains(d);
        assert(deps.take(j + 1).contains(d));
    } else {
        none_kept_appends_nothing(base, deps.take(j), keep);
    }
    if keep.contains(deps[j]) {
        assert(deps.take(j + 1).contains(deps[j]));
        assert(neighbours(q, uid) == appended_new(base, deps.take(j), keep));
        assert(r =~= q.insert(uid, pushed_new(neighbours(q, uid), deps[j])));
    } else if !some0 {
        assert forall|d: Text| !(#[trigger] deps.take(j + 1).contains(d) && keep.contains(d)) by {
            if deps.take(j + 1).contains(d) && keep.contains(d) {
                assert(deps.take(j).contains(d));
            }
        }
    }
}

proof fn none_kept_appends_nothing(base: Seq<Text>, deps: Seq<Text>, keep: Set<Text>)
    requires
        !exists|d: Text| #[trigger] deps.contains(d) && keep.contains(d),
    ensures
        appended_new(base, deps, keep) == base,
    decreases deps.len(),
{
    if deps.len() > 0 {
        assert(deps.contains(deps.last()));
        assert forall|d: Text| !(#[trigger] deps.drop_last().contains(d) && keep.contains(d)) by {
            if deps.drop_last().contains(d) {
                let k = deps.drop_last().index_of(d);
                assert(deps[k] == d);
                assert(deps.contains(d));
            }
        }
        none_kept_appends_nothing(base, deps.drop_last(), keep);
    }
}

/// Gives each exposure the parents that its own `depends_on` names.
fn link_parents(manifest: &RawManifest, nodes: &StrMap<NodeInfo>, parents: &mut StrMap<Vec<String>>)
    requires
        manifest.wf(),
        nodes.wf(),
        nodes@.dom() == kept(manifest.deep_view()),
        old(parents).wf(),
        old(parents).deep_view() == pruned(manifest.deep_view().parent_map, kept(manifest.deep_view())),
    ensures
        final(parents).wf(),
        final(parents).deep_view() == parents_of(manifest.deep_view()),
{
    let ghost m = manifest.deep_view();
    let ghost keep = kept(m);
    let ghost base = parents.deep_view();
    let ghost ids = manifest.exposures.key_list();
    proof {
        manifest.exposures.keys_listed();
        assert(parents_upto(base, m, ids.take(0)) =~= base);
    }
    let mut i: usize = 0;
    while i < manifest.exposures.len()
        invariant
            manifest.wf(),
            nodes.wf(),
            m == manifest.deep_view(),
            keep == kept(m),
            nodes@.dom() == keep,
            ids == manifest.exposures.key_list(),
            ids.no_duplicates(),
            i <= ids.len(),
            parents.wf(),
            parents.deep_view() == parents_upto(base, m, ids.take(i as int)),
        decreases ids.len() - i,
    {
        let uid = manifest.exposures.key_at(i);
        let list = &manifest.exposures.value_at(i).depends_on.nodes;
        let ghost deps = list.deep_view();
        let ghost pre = parents.deep_view();
        let ghost start = neighbours(base, uid@);
        proof {
            assert(m.exposures[uid@].depends_on == deps);
            take_contains(ids, i as int);
            assert(!ids.take(i as int).contains(uid@)) by {
                if ids.take(i as int).contains(uid@) {
                    let k = ids.take(i as int).index_of(uid@);
                    assert(ids[k] == uid@);
                }
            }
            assert(neighbours(pre, uid@) == start);
            assert(parents_mid(pre, uid@, start, deps.take(0), keep) == pre);
        }
        let mut j: usize = 0;
        while j < list.len()
            invariant
                nodes.wf(),
                nodes@.dom() == keep,
                j <= list@.len(),
                deps == list.deep_view(),
                parents.wf(),
                neighbours(pre, uid@) == start,
                parents.deep_view() == parents_mid(pre, uid@, start, deps.take(j as int), keep),
            decreases list@.len() - j,
        {
            proof {
                parents_mid_step(pre, uid@, start, deps, keep, j as int);
            }
            if nodes.contains_key(list[j].as_str()) {
                push_new(parents, uid.as_str(), list[j].as_str());
            }
            j = j + 1;
        }
        proof {
            take_all(deps);
            let next = ids.take(i + 1);
            if !has_kept_dep(m.exposures[uid@], keep) {
                none_kept_appends_nothing(start, deps, keep);
            }
            assert(parents_mid(pre, uid@, start, deps, keep) =~= parents_upto(base, m, next));
        }
        i = i + 1;
    }
    proof {
        take_all(ids);
        assert(m.exposures.dom() =~= manifest.exposures@.dom());
        assert forall|u: Text| ids.contains(u) <==> m.exposures.contains_key(u) by {
            assert(ids.to_set().contains(u) <==> manifest.exposures@.dom().contains(u));
        }
        assert(parents_upto(base, m, ids) =~= parents_of(m));
    }
}

spec fn named_by(es: Seq<Text>, m: RawManifestModel, u: Text) -> bool {
    exists|e: Text| es.contains(e) && #[trigger] m.exposures[e].depends_on.contains(u)
}

spec fn children_upto(base: Adjacency, m: RawManifestModel, es: Seq<Text>) -> Adjacency {
    Map::new(
        |u: Text| base.contains_key(u) || (kept(m).contains(u) && named_by(es, m, u)),
        |u: Text| appended_dependants(neighbours(base, u), es, m.exposures, u),
    )
}

spec fn children_mid(pre: Adjacency, uid: Text, deps: Seq<Text>, keep: Set<Text>) -> Adjacency {
    Map::new(
        |u: Text| pre.contains_key(u) || (keep.contains(u) && deps.contains(u)),
        |u: Text|
            if keep.contains(u) && deps.contains(u) {
                pushed_new(neighbours(pre, u), uid)
            } else {
                neighbours(pre, u)
            },
    )
}

proof fn children_mid_step(pre: Adjacency, uid: Text, deps: Seq<Text>, keep: Set<Text>, j: int)
    requires
        0 <= j < deps.len(),
    ensures
        keep.contains(deps[j]) ==> children_mid(pre, uid, deps.take(j + 1), keep) == ({
            let q = children_mid(pre, uid, deps.take(j), keep);
            q.insert(deps[j], pushed_new(neighbours(q, deps[j]), uid))
        }),
        !keep.contains(deps[j]) ==> children_mid(pre, uid, deps.take(j + 1), keep) == children_mid(pre, uid, deps.take(j), keep),
{
    take_contains(deps, j);
    let q = children_mid(pre, uid, deps.take(j), keep);
    let r = children_mid(pre, uid, deps.take(j + 1), keep);
    let d = deps[j];
    if keep.contains(d) {
        let p = neighbours(pre, d);
        assert(p.push(uid)[p.len() as int] == uid);
        assert(pushed_new(p, uid).contains(uid));
        assert(pushed_new(pushed_new(p, uid), uid) == pushed_new(p, uid));
        assert(r =~= q.insert(d, pushed_new(neighbours(q, d), uid)));
    } else {
        assert(r =~= q);
    }
}

proof fn children_upto_step(base: Adjacency, m: RawManifestModel, ids: Seq<Text>, i: int)
    requires
        0 <= i < ids.len(),
        forall|u: Text| #[trigger] base.contains_key(u) ==> kept(m).contains(u),
    ensures
        children_mid(children_upto(base, m, ids.take(i)), ids[i], m.exposures[ids[i]].depends_on, kept(m))
            == children_upto(base, m, ids.take(i + 1)),
{
    take_contains(ids, i);
    let pre = children_upto(base, m, ids.take(i));
    let deps = m.exposures[ids[i]].depends_on;
    let a = children_mid(pre, ids[i], deps, kept(m));
    let b = children_upto(base, m, ids.take(i + 1));
    assert forall|u: Text| named_by(ids.take(i + 1), m, u) <==> named_by(ids.take(i), m, u) || deps.contains(u) by {
        if named_by(ids.take(i), m, u) {
            let e = choose|e: Text| ids.take(i).contains(e) && #[trigger] m.exposures[e].depends_on.contains(u);
            assert(ids.take(i + 1).contains(e));
        }
        if deps.contains(u) {
            assert(ids.take(i + 1).contains(ids[i]));
            assert(m.exposures[ids[i]].depends_on.contains(u));
        }
    }
    assert forall|u: Text| a.contains_key(u) implies a[u] == b[u] by {
        if !pre.contains_key(u) {
            unnamed_appends_nothing(neighbours(base, u), ids.take(i), m, u);
        }
        assert(neighbours(pre, u) == appended_dependants(neighbours(base, u), ids.take(i), m.exposures, u));
    }
    assert(a =~= b);
}

proof fn unnamed_appends_nothing(base: Seq<Text>, es: Seq<Text>, m: RawManifestModel, u: Text)
    requires
        !named_by(es, m, u),
    ensures
        appended_dependants(base, es, m.exposures, u) == base,
    decreases es.len(),
{
    if es.len() > 0 {
        assert(es.contains(es.last()));
        assert(!m.exposures[es.last()].depends_on.contains(u));
        assert(!named_by(es.drop_last(), m, u)) by {
            if named_by(es.drop_last(), m, u) {
                let e = choose|e: Text| es.drop_last().contains(e) && #[trigger] m.exposures[e].depends_on.contains(u);
                let k = es.drop_last().index_of(e);
                assert(es[k] == e);
                assert(es.contains(e));
            }
        }
        unnamed_appends_nothing(base, es.drop_last(), m, u);
    }
}

/// Gives each kept node the exposures that depend on it as children.
fn link_children(manifest: &RawManifest, nodes: &StrMap<NodeInfo>, children: &mut StrMap<Vec<String>>)
    requires
        manifest.wf(),
        nodes.wf(),
        nodes@.dom() == kept(manifest.deep_view()),
        old(children).wf(),
        old(children).deep_view() == pruned(manifest.deep_view().child_map, kept(manifest.deep_view())),
    ensures
        final(children).wf(),
        final(children).deep_view() == children_of(manifest.deep_view()),
{
    let ghost m = manifest.deep_view();
    let ghost keep = kept(m);
    let ghost base = children.deep_view();
    let ghost ids = manifest.exposures.key_list();
    proof {
        assert(children_upto(base, m, ids.take(0)) =~= base);
    }
    let mut i: usize = 0;
    while i < manifest.exposures.len()
        invariant
            manifest.wf(),
            nodes.wf(),
            m == manifest.deep_view(),
            keep == kept(m),
            nodes@.dom() == keep,
            ids == manifest.exposures.key_list(),
            forall|u: Text| #[trigger] base.contains_key(u) ==> keep.contains(u),
            i <= ids.len(),
            children.wf(),
            children.deep_view() == children_upto(base, m, ids.take(i as int)),
        decreases ids.len() - i,
    {
        let uid = manifest.exposures.key_at(i);
        let list = &manifest.exposures.value_at(i).depends_on.nodes;
        let ghost deps = list.deep_view();
        let ghost pre = children.deep_view();
        proof {
            assert(m.exposures[uid@].depends_on == deps);
            assert(children_mid(pre, uid@, deps.take(0), keep) =~= pre);
        }
        let mut j: usize = 0;
        while j < list.len()
            invariant
                nodes.wf(),
                nodes@.dom() == keep,
                j <= list@.len(),
                deps == list.deep_view(),
                children.wf(),
                children.deep_view() == children_mid(pre, uid@, deps.take(j as int), keep),
            decreases list@.len() - j,
        {
            proof {
                children_mid_step(pre, uid@, deps, keep, j as int);
            }
            if nodes.contains_key(list[j].as_str()) {
                push_new(children, list[j].as_str(), uid.as_str());
            }
            j = j + 1;
        }
        proof {
            take_all(deps);
            children_upto_step(base, m, ids, i as int);
        }
        i = i + 1;
    }
    proof {
        take_all(ids);
        manifest.exposures.keys_listed();
        assert(m.exposures.dom() =~= manifest.exposures@.dom());
        assert forall|u: Text| ids.contains(u) <==> m.exposures.contains_key(u) by {
            assert(ids.to_set().contains(u) <==> manifest.exposures@.dom().contains(u));
        }
        assert forall|u: Text| named_by(ids, m, u) <==> exists|e: Text|
            m.exposures.contains_key(e) && #[trigger] m.exposures[e].depends_on.contains(u) by {
            if named_by(ids, m, u) {
                let e = choose|e: Text| ids.contains(e) && #[trigger] m.exposures[e].depends_on.contains(u);
                assert(m.exposures.contains_key(e));
            }
            if exists|e: Text| m.exposures.contains_key(e) && #[trigger] m.exposures[e].depends_on.contains(u) {
                let e = choose|e: Text| m.exposures.contains_key(e) && #[trigger] m.exposures[e].depends_on.contains(u);
                assert(ids.contains(e));
            }
        }
        assert(children_upto(base, m, ids) =~= children_of(m));
    }
}

/// Fills in the counts of every node.
fn stamp(nodes: StrMap<NodeInfo>, parents: &StrMap<Vec<String>>, children: &StrMap<Vec<String>>, tests: &StrMap<Vec<TestInfo>>) -> (r: StrMap<NodeInfo>)
    requires
        nodes.wf(),
        parents.wf(),
        children.wf(),
        tests.wf(),
        forall|u: Text| nodes@.contains_key(u) ==> (#[trigger] nodes@[u]).unique_id@ == u,
    ensures
        r.wf(),
        r.deep_view() == nodes.deep_view().map_values(
            |n: NodeModel| counted(n, parents.deep_view(), children.deep_view(), tests.deep_view()),
        ),
{
    let ghost ids = nodes.key_list();
    let ghost all = nodes.deep_view().map_values(
        |n: NodeModel| counted(n, parents.deep_view(), children.deep_view(), tests.deep_view()),
    );
    let mut out: StrMap<NodeInfo> = StrMap::new();
    proof {
        assert(out.deep_view() =~= all.restrict(ids.take(0).to_set()));
    }
    let mut i: usize = 0;
    while i < nodes.len()
        invariant
            nodes.wf(),
            parents.wf(),
            children.wf(),
            tests.wf(),
            forall|u: Text| nodes@.contains_key(u) ==> (#[trigger] nodes@[u]).unique_id@ == u,
            out.wf(),
            ids == nodes.key_list(),
            all == nodes.deep_view().map_values(
                |n: NodeModel| counted(n, parents.deep_view(), children.deep_view(), tests.deep_view()),
            ),
            i <= ids.len(),
            out.deep_view() == all.restrict(ids.take(i as int).to_set()),
        decreases ids.len() - i,
    {
        let key = nodes.key_at(i);
        let mut info = nodes.value_at(i).clone();
        info.direct_up = match parents.get(key.as_str()) {
            Some(l) => l.len(),
            None => 0,
        };
        info.direct_down = match children.get(key.as_str()) {
            Some(l) => l.len(),
            None => 0,
        };
        info.test_count = match tests.get(key.as_str()) {
            Some(l) => l.len(),
            None => 0,
        };
        proof {
            take_contains(ids, i as int);
            assert(nodes@[key@].unique_id@ == key@);
            assert(info.deep_view() == all[key@]);
            StrMap::<NodeInfo>::deep_insert(out@, out@.insert(key@, info), key@, info);
            assert(all.restrict(ids.take(i + 1).to_set()) =~= all.restrict(ids.take(i as int).to_set()).insert(key@, info.deep_view()));
        }
        out.insert(key.clone(), info);
        i = i + 1;
    }
    proof {
        take_all(ids);
        nodes.keys_listed();
        assert(all.restrict(ids.to_set()) =~= all);
    }
    out
}

impl DagModel {
    /// The invariant of every graph: entries go by their own id, adjacency
    /// lists only kept nodes and each of them once, and counts agree with the
    /// lists.
    pub open spec fn valid(self) -> bool {
        &&& self.nodes.dom().finite()
        &&& forall|u: Text| #[trigger] self.nodes.contains_key(u) ==> self.nodes[u].unique_id == u
        &&& forall|u: Text| #[trigger] self.nodes.contains_key(u) ==> self.nodes[u].direct_up == count_at(self.parents, u)
        &&& forall|u: Text| #[trigger] self.nodes.contains_key(u) ==> self.nodes[u].direct_down == count_at(self.children, u)
        &&& forall|u: Text| #[trigger] self.nodes.contains_key(u) ==> self.nodes[u].test_count == count_at(self.tests, u)
        &&& self.details.dom() == self.nodes.dom()
        &&& self.parents.dom().subset_of(self.nodes.dom())
        &&& self.children.dom().subset_of(self.nodes.dom())
        &&& stays_in(self.parents, self.nodes.dom())
        &&& stays_in(self.children, self.nodes.dom())
        &&& names_once(self.parents)
        &&& names_once(self.children)
    }
}

/// No list names a node twice.
pub open spec fn names_once(adj: Adjacency) -> bool {
    forall|u: Text| (#[trigger] neighbours(adj, u)).no_duplicates()
}

proof fn appended_new_members(base: Seq<Text>, xs: Seq<Text>, keep: Set<Text>)
    requires
        forall|x: Text| base.contains(x) ==> keep.contains(x),
    ensures
        forall|x: Text| appended_new(base, xs, keep).contains(x) ==> keep.contains(x),
    decreases xs.len(),
{
    if xs.len() > 0 {
        appended_new_members(base, xs.drop_last(), keep);
        let r = appended_new(base, xs.drop_last(), keep);
        assert forall|x: Text| appended_new(base, xs, keep).contains(x) implies keep.contains(x) by {
            let k = appended_new(base, xs, keep).index_of(x);
            if k < r.len() {
                assert(r[k] == x);
            }
        }
    }
}

proof fn appended_dependants_members(base: Seq<Text>, es: Seq<Text>, exposures: Map<Text, RawExposureModel>, dep: Text, keep: Set<Text>)
    requires
        forall|x: Text| base.contains(x) ==> keep.contains(x),
        forall|x: Text| es.contains(x) ==> keep.contains(x),
    ensures
        forall|x: Text| appended_dependants(base, es, exposures, dep).contains(x) ==> keep.contains(x),
    decreases es.len(),
{
    if es.len() > 0 {
        assert forall|x: Text| es.drop_last().contains(x) implies keep.contains(x) by {
            let k = es.drop_last().index_of(x);
            assert(es[k] == x);
        }
        assert(es.contains(es.last()));
        appended_dependants_members(base, es.drop_last(), exposures, dep, keep);
        let r = appended_dependants(base, es.drop_last(), exposures, dep);
        assert forall|x: Text| appended_dependants(base, es, exposures, dep).contains(x) implies keep.contains(x) by {
            let k = appended_dependants(base, es, exposures, dep).index_of(x);
            if k < r.len() {
                assert(r[k] == x);
            }
        }
    }
}

proof fn appended_new_once(base: Seq<Text>, xs: Seq<Text>, keep: Set<Text>)
    requires
        base.no_duplicates(),
    ensures
        appended_new(base, xs, keep).no_duplicates(),
    decreases xs.len(),
{
    if xs.len() > 0 {
        appended_new_once(base, xs.drop_last(), keep);
    }
}

proof fn appended_dependants_once(base: Seq<Text>, es: Seq<Text>, exposures: Map<Text, RawExposureModel>, dep: Text)
    requires
        base.no_duplicates(),
    ensures
        appended_dependants(base, es, exposures, dep).no_duplicates(),
    decreases es.len(),
{
    if es.len() > 0 {
        appended_dependants_once(base, es.drop_last(), exposures, dep);
    }
}

proof fn pruned_once(adj: Adjacency, keep: Set<Text>, u: Text)
    ensures
        neighbours(pruned(adj, keep), u).no_duplicates(),
        forall|x: Text| neighbours(pruned(adj, keep), u).contains(x) ==> keep.contains(x),
{
    if pruned(adj, keep).contains_key(u) {
        appended_new_once(Seq::empty(), adj[u], keep);
        appended_new_members(Seq::empty(), adj[u], keep);
    }
}

/// The graph of any finite manifest is valid: among other things no list names
/// a node that is not kept, nor one twice.
pub proof fn dag_of_valid(m: RawManifestModel)
    requires
        m.nodes.dom().finite(),
        m.sources.dom().finite(),
        m.exposures.dom().finite(),
    ensures
        dag_of(m).valid(),
{
    let all = m.nodes.dom().union(m.sources.dom()).union(m.exposures.dom());
    lemma_set_subset_finite(all, kept(m));
    listing_exists(m.exposures.dom());
    let d = dag_of(m);
    let keep = kept(m);
    assert(d.nodes.dom() =~= keep);
    assert(d.details.dom() =~= keep);
    assert forall|a: Text, b: Text| #[trigger] linked(d.parents, a, b) implies keep.contains(b) by {
        let base = pruned(m.parent_map, keep);
        pruned_once(m.parent_map, keep, a);
        if m.exposures.contains_key(a) {
            appended_new_members(neighbours(base, a), m.exposures[a].depends_on, keep);
        }
    }
    assert forall|a: Text, b: Text| #[trigger] linked(d.children, a, b) implies keep.contains(b) by {
        let base = pruned(m.child_map, keep);
        pruned_once(m.child_map, keep, a);
        appended_dependants_members(neighbours(base, a), listing(m.exposures.dom()), m.exposures, a, keep);
    }
    assert forall|u: Text| (#[trigger] neighbours(d.parents, u)).no_duplicates() by {
        pruned_once(m.parent_map, keep, u);
        if m.exposures.contains_key(u) {
            appended_new_once(neighbours(pruned(m.parent_map, keep), u), m.exposures[u].depends_on, keep);
        }
    }
    assert forall|u: Text| (#[trigger] neighbours(d.children, u)).no_duplicates() by {
        pruned_once(m.child_map, keep, u);
        appended_dependants_once(neighbours(pruned(m.child_map, keep), u), listing(m.exposures.dom()), m.exposures, u);
    }
}

impl Dag {
    /// The graph is valid and its tables keep their keys in order.
    pub closed spec fn wf(&self) -> bool {
        &&& self.nodes.wf()
        &&& self.parents.wf()
        &&& self.children.wf()
        &&& self.details.wf()
        &&& self.tests.wf()
        &&& self.sql.wf()
        &&& self.exposures.wf()
        &&& self.deep_view().valid()
    }

    /// A well-formed graph is valid.
    pub broadcast proof fn wf_valid(&self)
        requires
            #[trigger] self.wf(),
        ensures
            self.deep_view().valid(),
    {
    }

    /// Builds the graph of a manifest: `test` and `operation` nodes are left
    /// out, `nodes`, `sources` and `exposures` are merged into one map, and the
    /// adjacency is pruned to the kept set. Tests are recorded under their
    /// targets and never become part of the topology.
    pub fn build(manifest: &RawManifest) -> (r: Dag)
        requires
            manifest.wf(),
        ensures
            r.wf(),
            r.deep_view() == dag_of(manifest.deep_view()),
    {
        let ghost m = manifest.deep_view();
        let tables = node_tables(manifest);
        let mut nodes = tables.nodes;
        let mut details = tables.details;
        let ghost ids = listing(m.nodes.dom());
        let ghost none = Seq::<Text>::empty();
        proof {
            assert(nodes_upto(m, ids) =~= merged(m, none, none));
            assert(node_details_upto(m, ids) =~= merged_details(m, none, none));
        }
        add_sources(manifest, &mut nodes, &mut details);
        let exposures = add_exposures(manifest, &mut nodes, &mut details);
        proof {
            manifest.sources.keys_listed();
            manifest.exposures.keys_listed();
            nodes.keys_listed();
            let srcs = manifest.sources.key_list();
            let exps = manifest.exposures.key_list();
            assert(m.exposures.dom() =~= manifest.exposures@.dom());
            assert forall|u: Text| srcs.contains(u) <==> m.sources.contains_key(u) by {
                assert(srcs.to_set().contains(u) <==> manifest.sources@.dom().contains(u));
            }
            assert forall|u: Text| exps.contains(u) <==> m.exposures.contains_key(u) by {
                assert(exps.to_set().contains(u) <==> manifest.exposures@.dom().contains(u));
            }
            assert(nodes.deep_view() =~= Map::new(|u: Text| kept(m).contains(u), |u: Text| bare_of(m, u)));
            assert(details.deep_view() =~= Map::new(|u: Text| kept(m).contains(u), |u: Text| detail_of(m, u)));
            assert(nodes.deep_view().dom() =~= nodes@.dom());
            assert(nodes@.dom() =~= kept(m));
            assert forall|u: Text| nodes@.contains_key(u) implies (#[trigger] nodes@[u]).unique_id@ == u by {
                assert(nodes.deep_view()[u] == nodes@[u].deep_view());
            }
            manifest.nodes.keys_listed();
            assert(m.nodes.dom() =~= manifest.nodes@.dom());
            assert(m.sources.dom() =~= manifest.sources@.dom());
            dag_of_valid(m);
        }
        let tests = sort_tests(tables.tests);
        let mut parents = prune_adjacency(&manifest.parent_map, &nodes);
        let mut children = prune_adjacency(&manifest.child_map, &nodes);
        link_parents(manifest, &nodes, &mut parents);
        link_children(manifest, &nodes, &mut children);
        let stamped = stamp(nodes, &parents, &children, &tests);
        let r = Dag { nodes: stamped, parents, children, details, tests, sql: tables.sql, exposures };
        proof {
            let d = dag_of(m);
            assert(tests.deep_view() =~= tests_of(m)) by {
                assert forall|t: Text| tests_of(m).contains_key(t) implies tests.deep_view()[t] == tests_of(m)[t] by {}
            }
            assert(stamped.deep_view() =~= d.nodes);
            assert(tables.sql.deep_view() =~= d.sql);
            assert(r.deep_view() == d);
        }
        r
    }
}

// ---- reading ----

/// The second `.`-separated segment of an id, where it has one.
pub open spec fn project_segment(uid: Text) -> Option<Text> {
    let pieces = split(uid, '.');
    if pieces.len() > 1 && pieces[1].len() > 0 {
        Some(pieces[1])
    } else {
        None
    }
}

/// `p` is the smallest project segment among the ids of a graph.
pub open spec fn is_project(d: DagModel, p: Option<Text>) -> bool {
    match p {
        Some(name) => {
            &&& exists|u: Text| #[trigger] d.nodes.contains_key(u) && project_segment(u) == Some(name)
            &&& forall|u: Text| #[trigger] d.nodes.contains_key(u) && project_segment(u) is Some
                ==> text_le(name, project_segment(u)->0)
        },
        None => forall|u: Text| #[trigger] d.nodes.contains_key(u) ==> project_segment(u) is None,
    }
}

/// The project of a graph: its smallest project segment.
pub open spec fn project_of(d: DagModel) -> Option<Text> {
    choose|p: Option<Text>| is_project(d, p)
}

/// There is only one smallest segment.
pub proof fn project_unique(d: DagModel, p: Option<Text>)
    requires
        is_project(d, p),
    ensures
        project_of(d) == p,
{
    broadcast use group_text_order;
    let q = project_of(d);
    assert(is_project(d, q));
    match (p, q) {
        (Some(a), Some(b)) => {
            let u = choose|u: Text| #[trigger] d.nodes.contains_key(u) && project_segment(u) == Some(a);
            let v = choose|v: Text| #[trigger] d.nodes.contains_key(v) && project_segment(v) == Some(b);
            assert(text_le(a, b) && text_le(b, a));
            text_lt_irreflexive(a);
        },
        _ => {},
    }
}

/// The (parent, child) pairs of the children lists of `ids`, in list order.
pub open spec fn edges_from(children: Adjacency, ids: Seq<Text>) -> Seq<(Text, Text)>
    decreases ids.len(),
{
    if ids.len() == 0 {
        Seq::empty()
    } else {
        edges_from(children, ids.drop_last()) + children[ids.last()].map_values(|c: Text| (ids.last(), c))
    }
}

/// Every direct edge of the graph once, ascending.
pub open spec fn edge_list(d: DagModel) -> Seq<(Text, Text)> {
    in_order::<(String, String)>(edges_from(d.children, listing(d.children.dom())))
}

/// A pair stands in `edges_from` where one of the ids lists it.
proof fn edges_from_members(children: Adjacency, ids: Seq<Text>)
    ensures
        forall|e: (Text, Text)| #[trigger] edges_from(children, ids).contains(e) <==> ids.contains(e.0)
            && children[e.0].contains(e.1),
    decreases ids.len(),
{
    if ids.len() > 0 {
        let k = ids.last();
        let a = edges_from(children, ids.drop_last());
        let b = children[k].map_values(|c: Text| (k, c));
        edges_from_members(children, ids.drop_last());
        take_contains(ids, ids.len() - 1);
        assert(ids.take(ids.len() - 1 + 1) =~= ids);
        assert(ids.take(ids.len() - 1) =~= ids.drop_last());
        assert forall|e: (Text, Text)| #[trigger] edges_from(children, ids).contains(e) <==> ids.contains(e.0)
            && children[e.0].contains(e.1) by {
            assert((a + b).contains(e) <==> a.contains(e) || b.contains(e)) by {
                if a.contains(e) {
                    let i = a.index_of(e);
                    assert((a + b)[i] == e);
                }
                if b.contains(e) {
                    let i = b.index_of(e);
                    assert((a + b)[a.len() + i] == e);
                }
            }
            assert(b.contains(e) <==> e.0 == k && children[k].contains(e.1)) by {
                if b.contains(e) {
                    let i = b.index_of(e);
                    assert(children[k][i] == e.1);
                }
                if e.0 == k && children[k].contains(e.1) {
                    let i = children[k].index_of(e.1);
                    assert(b[i] == e);
                }
            }
        }
    }
}

proof fn edges_from_once(children: Adjacency, ids: Seq<Text>)
    requires
        ids.no_duplicates(),
        forall|i: int| 0 <= i < ids.len() ==> children[#[trigger] ids[i]].no_duplicates(),
    ensures
        edges_from(children, ids).no_duplicates(),
    decreases ids.len(),
{
    if ids.len() > 0 {
        let rest = ids.drop_last();
        let k = ids.last();
        let a = edges_from(children, rest);
        let b = children[k].map_values(|c: Text| (k, c));
        edges_from_once(children, rest);
        edges_from_members(children, rest);
        assert(ids[ids.len() - 1] == k);
        let e = a + b;
        assert forall|i: int, j: int| 0 <= i < e.len() && 0 <= j < e.len() && i != j implies e[i] != e[j] by {
            if i < a.len() {
                assert(a.contains(a[i]));
                assert(rest.contains(e[i].0));
                let n = rest.index_of(e[i].0);
                assert(ids[n] == e[i].0);
            }
            if j < a.len() {
                assert(a.contains(a[j]));
                assert(rest.contains(e[j].0));
                let n = rest.index_of(e[j].0);
                assert(ids[n] == e[j].0);
            }
            if i >= a.len() && j >= a.len() {
                assert(children[k][i - a.len()] != children[k][j - a.len()]);
            }
        }
    }
}

/// The strict order on pairs of texts: by the first, then by the second.
pub open spec fn pair_lt(a: (Text, Text), b: (Text, Text)) -> bool {
    text_lt(a.0, b.0) || (a.0 == b.0 && text_lt(a.1, b.1))
}

/// The edge list holds exactly the (parent, child) pairs of the graph, each
/// once, in strictly ascending order.
pub proof fn edge_list_members(d: DagModel)
    requires
        d.valid(),
    ensures
        forall|e: (Text, Text)| #[trigger] edge_list(d).contains(e) <==> linked(d.children, e.0, e.1),
        forall|i: int, j: int| 0 <= i < j < edge_list(d).len() ==> pair_lt(#[trigger] edge_list(d)[i], #[trigger] edge_list(d)[j]),
        forall|i: int, j: int| 0 <= i < j < edge_list(d).len() ==> #[trigger] edge_list(d)[i] != #[trigger] edge_list(d)[j],
        edge_list(d).no_duplicates(),
        sorted_by(edge_list(d), |a: (Text, Text), b: (Text, Text)| <(String, String) as Sortable>::leq(a, b)),
{
    let ids = listing(d.children.dom());
    lemma_set_subset_finite(d.nodes.dom(), d.children.dom());
    listing_exists(d.children.dom());
    edges_from_members(d.children, ids);
    in_order_sorted::<(String, String)>(edges_from(d.children, ids));
    assert forall|i: int| 0 <= i < ids.len() implies d.children[#[trigger] ids[i]].no_duplicates() by {
        assert(ids.contains(ids[i]));
        assert(neighbours(d.children, ids[i]).no_duplicates());
    }
    edges_from_once(d.children, ids);
    let l = edge_list(d);
    edges_from(d.children, ids).lemma_multiset_has_no_duplicates();
    l.lemma_multiset_has_no_duplicates_conv();
    let le = |a: (Text, Text), b: (Text, Text)| <(String, String) as Sortable>::leq(a, b);
    assert forall|i: int, j: int| 0 <= i < j < l.len() implies pair_lt(#[trigger] l[i], #[trigger] l[j]) by {
        assert(le(l[i], l[j]));
        assert(pair_le(l[i], l[j]));
        assert(l[i] != l[j]);
    }
}

/// The ids of a lineage view: the chosen sides within `depth` hops, and the
/// selected node itself.
pub open spec fn view_ids(d: DagModel, selected: Text, upstream: bool, downstream: bool, depth: Option<usize>) -> Set<Text> {
    let up = if upstream {
        reach(d.parents, selected, depth)
    } else {
        Set::empty()
    };
    let down = if downstream {
        reach(d.children, selected, depth)
    } else {
        Set::empty()
    };
    up.union(down).insert(selected)
}

/// `c` depends on `p`: as its recorded parent, or `p` has it as a recorded
/// child.
pub open spec fn depends(d: DagModel, p: Text, c: Text) -> bool {
    linked(d.parents, c, p) || linked(d.children, p, c)
}

/// The dependencies among a set of ids.
pub open spec fn edges_within(d: DagModel, ids: Set<Text>) -> Set<(Text, Text)> {
    Set::new(|e: (Text, Text)| ids.contains(e.0) && ids.contains(e.1) && depends(d, e.0, e.1))
}

/// The subgraph of a lineage view; without nodes where `selected` is unknown.
pub open spec fn subgraph_of(d: DagModel, selected: Text, upstream: bool, downstream: bool, depth: Option<usize>) -> SubgraphModel {
    if d.nodes.contains_key(selected) {
        let ids = view_ids(d, selected, upstream, downstream, depth);
        SubgraphModel {
            selected,
            nodes: listing(ids).map_values(|u: Text| d.nodes[u]),
            edges: distinct_in_order::<(String, String)>(edges_within(d, ids)),
        }
    } else {
        SubgraphModel { selected, nodes: Seq::empty(), edges: Seq::empty() }
    }
}

impl SubgraphModel {
    /// A node with this id is part of the subgraph.
    pub open spec fn has(self, uid: Text) -> bool {
        exists|i: int| 0 <= i < self.nodes.len() && (#[trigger] self.nodes[i]).unique_id == uid
    }
}

impl SubgraphModel {
    /// Both ends of every edge are nodes of the subgraph.
    pub open spec fn closed(self) -> bool {
        forall|i: int| 0 <= i < self.edges.len() ==> self.has((#[trigger] self.edges[i]).0) && self.has(self.edges[i].1)
    }
}


/// What is in a subgraph: its nodes are exactly the ids of the view, ascending,
/// the selected node among them; its edges are all dependencies between them,
/// sorted and without repetition, with both ends inside.
pub proof fn subgraph_members(d: DagModel, selected: Text, upstream: bool, downstream: bool, depth: Option<usize>)
    requires
        d.valid(),
        d.nodes.contains_key(selected),
    ensures
        ({
            let sg = subgraph_of(d, selected, upstream, downstream, depth);
            let ids = view_ids(d, selected, upstream, downstream, depth);
            &&& forall|u: Text| #[trigger] sg.has(u) <==> ids.contains(u)
            &&& sg.has(selected)
            &&& sg.nodes.len() == ids.len()
            &&& forall|i: int, j: int| 0 <= i < j < sg.nodes.len() ==> text_lt(
                (#[trigger] sg.nodes[i]).unique_id,
                (#[trigger] sg.nodes[j]).unique_id,
            )
            &&& forall|i: int| 0 <= i < sg.nodes.len() ==> #[trigger] sg.nodes[i] == d.nodes[sg.nodes[i].unique_id]
            &&& forall|e: (Text, Text)| #[trigger] sg.edges.contains(e) <==> ids.contains(e.0) && ids.contains(e.1)
                && depends(d, e.0, e.1)
            &&& sg.edges.no_duplicates()
            &&& sorted_by(sg.edges, |a: (Text, Text), b: (Text, Text)| pair_le(a, b))
            &&& sg.closed()
        }),
{
    let sg = subgraph_of(d, selected, upstream, downstream, depth);
    let ids = view_ids(d, selected, upstream, downstream, depth);
    reach_stays(d.parents, selected, depth, d.nodes.dom());
    reach_stays(d.children, selected, depth, d.nodes.dom());
    assert(ids.subset_of(d.nodes.dom()));
    lemma_set_subset_finite(d.nodes.dom(), ids);
    listing_exists(ids);
    let l = listing(ids);
    assert forall|i: int| 0 <= i < sg.nodes.len() implies (#[trigger] sg.nodes[i]).unique_id == l[i] && ids.contains(l[i]) by {
        assert(l.contains(l[i]));
        assert(ids.contains(l[i]));
        assert(d.nodes.contains_key(l[i]));
    }
    assert forall|u: Text| #[trigger] sg.has(u) <==> ids.contains(u) by {
        if ids.contains(u) {
            assert(l.contains(u));
            let k = l.index_of(u);
            assert(sg.nodes[k].unique_id == u);
        }
    }
    edges_within_finite(d, ids);
    distinct_in_order_exists::<(String, String)>(edges_within(d, ids));
    assert((|a: (Text, Text), b: (Text, Text)| <(String, String) as Sortable>::leq(a, b)) =~= (|a: (Text, Text), b: (Text, Text)|
        pair_le(a, b)));
    assert forall|e: (Text, Text)| #[trigger] sg.edges.contains(e) <==> edges_within(d, ids).contains(e) by {
        assert(sg.edges.to_set().contains(e) <==> sg.edges.contains(e));
    }
    assert forall|i: int| 0 <= i < sg.edges.len() implies sg.has((#[trigger] sg.edges[i]).0) && sg.has(sg.edges[i].1) by {
        assert(sg.edges.contains(sg.edges[i]));
    }
}

proof fn edges_within_finite(d: DagModel, ids: Set<Text>)
    requires
        d.valid(),
    ensures
        edges_within(d, ids).finite(),
{
    let keys = listing(d.parents.dom());
    let heads = listing(d.children.dom());
    lemma_set_subset_finite(d.nodes.dom(), d.parents.dom());
    lemma_set_subset_finite(d.nodes.dom(), d.children.dom());
    listing_exists(d.parents.dom());
    listing_exists(d.children.dom());
    edges_from_members(d.parents, keys);
    edges_from_members(d.children, heads);
    let back = edges_from(d.parents, keys);
    let there = edges_from(d.children, heads);
    let s = back.map_values(|e: (Text, Text)| (e.1, e.0));
    vstd::seq_lib::seq_to_set_is_finite(s);
    vstd::seq_lib::seq_to_set_is_finite(there);
    let all = s.to_set().union(there.to_set());
    assert(edges_within(d, ids).subset_of(all)) by {
        assert forall|e: (Text, Text)| edges_within(d, ids).contains(e) implies all.contains(e) by {
            if linked(d.parents, e.1, e.0) {
                let r = (e.1, e.0);
                assert(keys.contains(e.1));
                assert(back.contains(r));
                let k = back.index_of(r);
                assert(s[k] == e);
            } else {
                assert(heads.contains(e.0));
                assert(there.contains(e));
            }
        }
    }
    lemma_set_subset_finite(all, edges_within(d, ids));
}

/// A subgraph is closed, also that of an unknown node.
pub proof fn subgraph_closed(d: DagModel, selected: Text, upstream: bool, downstream: bool, depth: Option<usize>)
    requires
        d.valid(),
    ensures
        subgraph_of(d, selected, upstream, downstream, depth).closed(),
{
    if d.nodes.contains_key(selected) {
        subgraph_members(d, selected, upstream, downstream, depth);
    }
}

impl Subgraph {
    /// Whether the subgraph has a node with this id.
    pub fn contains(&self, unique_id: &str) -> (r: bool)
        ensures
            r == self.deep_view().has(unique_id@),
    {
        let mut i: usize = 0;
        while i < self.nodes.len()
            invariant
                i <= self.nodes@.len(),
                forall|j: int| 0 <= j < i ==> (#[trigger] self.deep_view().nodes[j]).unique_id != unique_id@,
            decreases self.nodes@.len() - i,
        {
            assert(self.deep_view().nodes[i as int] == self.nodes@[i as int].deep_view());
            if str_eq(self.nodes[i].unique_id.as_str(), unique_id) {
                return true;
            }
            i = i + 1;
        }
        false
    }
}

impl Clone for Subgraph {
    fn clone(&self) -> (r: Subgraph)
        ensures
            r.deep_view() == self.deep_view(),
    {
        let mut nodes: Vec<NodeInfo> = Vec::new();
        let mut i: usize = 0;
        while i < self.nodes.len()
            invariant
                i <= self.nodes@.len(),
                nodes@.len() == i,
                forall|j: int| 0 <= j < i ==> nodes@[j].deep_view() == self.nodes@[j].deep_view(),
            decreases self.nodes@.len() - i,
        {
            nodes.push(self.nodes[i].clone());
            i = i + 1;
        }
        let mut edges: Vec<Edge> = Vec::new();
        let mut k: usize = 0;
        while k < self.edges.len()
            invariant
                k <= self.edges@.len(),
                edges@.len() == k,
                forall|j: int| 0 <= j < k ==> edges@[j].deep_view() == self.edges@[j].deep_view(),
            decreases self.edges@.len() - k,
        {
            edges.push(Edge { parent: self.edges[k].parent.clone(), child: self.edges[k].child.clone() });
            k = k + 1;
        }
        assert(nodes.deep_view() =~= self.nodes.deep_view());
        assert(edges.deep_view() =~= self.edges.deep_view());
        Subgraph { selected: self.selected.clone(), nodes, edges }
    }
}

/// A link of an adjacency map as a (parent, child) pair; a map of parents has
/// them the other way round.
spec fn as_edge(key: Text, neighbour: Text, flip: bool) -> (Text, Text) {
    if flip {
        (neighbour, key)
    } else {
        (key, neighbour)
    }
}

spec fn link_of(adj: Adjacency, e: (Text, Text), flip: bool) -> bool {
    if flip {
        linked(adj, e.1, e.0)
    } else {
        linked(adj, e.0, e.1)
    }
}

spec fn key_of(e: (Text, Text), flip: bool) -> Text {
    if flip {
        e.1
    } else {
        e.0
    }
}

/// Appends the links of an adjacency map among `ids` as (parent, child) pairs.
fn push_links(pairs: &mut Vec<(String, String)>, adj: &StrMap<Vec<String>>, ids: &StrSet, flip: bool)
    requires
        adj.wf(),
        ids.wf(),
    ensures
        forall|e: (Text, Text)| #[trigger] final(pairs).deep_view().contains(e) <==> old(pairs).deep_view().contains(e) || (
        ids@.contains(e.0) && ids@.contains(e.1) && link_of(adj.deep_view(), e, flip)),
{
    let ghost before = pairs.deep_view();
    let ghost am = adj.deep_view();
    let ghost items = ids.items();
    let mut i: usize = 0;
    while i < ids.len()
        invariant
            adj.wf(),
            ids.wf(),
            am == adj.deep_view(),
            items == ids.items(),
            i <= items.len(),
            forall|e: (Text, Text)| #[trigger] pairs.deep_view().contains(e) <==> before.contains(e) || (items.take(
                i as int,
            ).contains(key_of(e, flip)) && ids@.contains(key_of(e, !flip)) && link_of(am, e, flip)),
        decreases items.len() - i,
    {
        let key = ids.at(i);
        let ghost c = key@;
        proof {
            take_contains(items, i as int);
        }
        match adj.get(key.as_str()) {
            Some(list) => {
                let ghost ps = list.deep_view();
                assert(am[c] == ps);
                let mut j: usize = 0;
                while j < list.len()
                    invariant
                        ids.wf(),
                        c == key@,
                        ps == list.deep_view(),
                        j <= list@.len(),
                        am.contains_key(c) && am[c] == ps,
                        forall|e: (Text, Text)| #[trigger] pairs.deep_view().contains(e) <==> before.contains(e) || (items.take(
                            i as int,
                        ).contains(key_of(e, flip)) && ids@.contains(key_of(e, !flip)) && link_of(am, e, flip)) || (key_of(
                            e,
                            flip,
                        ) == c && ids@.contains(key_of(e, !flip)) && ps.take(j as int).contains(key_of(e, !flip))),
                    decreases list@.len() - j,
                {
                    proof {
                        take_contains(ps, j as int);
                    }
                    if ids.contains(list[j].as_str()) {
                        let ghost o = pairs.deep_view();
                        let pair = if flip {
                            (list[j].clone(), key.clone())
                        } else {
                            (key.clone(), list[j].clone())
                        };
                        let ghost pv = pair.deep_view();
                        pairs.push(pair);
                        proof {
                            assert(pairs.deep_view() =~= o.push(pv));
                            assert forall|e: (Text, Text)| #[trigger] pairs.deep_view().contains(e) <==> o.contains(e) || e == pv by {
                                if o.contains(e) {
                                    let k = o.index_of(e);
                                    assert(pairs.deep_view()[k] == e);
                                }
                                assert(pairs.deep_view()[o.len() as int] == pv);
                            }
                            assert(pv == as_edge(c, ps[j as int], flip));
                        }
                    }
                    j = j + 1;
                }
                proof {
                    take_all(ps);
                }
            },
            None => {},
        }
        i = i + 1;
    }
    proof {
        take_all(items);
        ids.items_listed();
        assert forall|x: Text| items.contains(x) <==> ids@.contains(x) by {
            assert(items.to_set().contains(x) <==> ids@.contains(x));
        }
    }
}

/// Adds every element of `b` to `a`.
pub(crate) fn add_all(a: &mut StrSet, b: &StrSet)
    requires
        old(a).wf(),
        b.wf(),
    ensures
        final(a).wf(),
        final(a)@ == old(a)@.union(b@),
{
    let ghost a0 = a@;
    let ghost items = b.items();
    let mut i: usize = 0;
    proof {
        assert(a@ =~= a0.union(items.take(0).to_set()));
    }
    while i < b.len()
        invariant
            a.wf(),
            b.wf(),
            items == b.items(),
            i <= items.len(),
            a@ == a0.union(items.take(i as int).to_set()),
        decreases items.len() - i,
    {
        a.insert(b.at(i).clone());
        proof {
            take_contains(items, i as int);
            assert(a@ =~= a0.union(items.take(i + 1).to_set()));
        }
        i = i + 1;
    }
    proof {
        take_all(items);
        b.items_listed();
    }
}

/// The second segment of an id, where it has one that is not empty.
pub fn second_segment(uid: &str) -> (r: Option<String>)
    ensures
        r.deep_view() == project_segment(uid@),
{
    let pieces = split_at_char(uid, '.');
    if pieces.len() > 1 && !pieces[1].as_str().is_empty() {
        Some(pieces[1].clone())
    } else {
        None
    }
}

impl Dag {
    /// The unified map from `unique_id` to node.
    pub fn nodes(&self) -> (r: &StrMap<NodeInfo>)
        requires
            self.wf(),
        ensures
            r.wf(),
            r.deep_view() == self.deep_view().nodes,
    {
        &self.nodes
    }

    /// Number of nodes.
    pub fn len(&self) -> (r: usize)
        requires
            self.wf(),
        ensures
            r == self.deep_view().nodes.dom().len(),
    {
        proof {
            assert(self.deep_view().nodes.dom() =~= self.nodes@.dom());
        }
        self.nodes.len()
    }

    /// Whether there is no node.
    pub fn is_empty(&self) -> (r: bool)
        requires
            self.wf(),
        ensures
            r == (self.deep_view().nodes.dom().len() == 0),
    {
        proof {
            assert(self.deep_view().nodes.dom() =~= self.nodes@.dom());
        }
        self.nodes.is_empty()
    }

    /// Whether a node has this id.
    pub fn contains(&self, unique_id: &str) -> (r: bool)
        requires
            self.wf(),
        ensures
            r == self.deep_view().nodes.contains_key(unique_id@),
    {
        self.nodes.contains_key(unique_id)
    }

    /// The node with this id.
    pub fn get(&self, unique_id: &str) -> (r: Option<&NodeInfo>)
        requires
            self.wf(),
        ensures
            r is Some == self.deep_view().nodes.contains_key(unique_id@),
            r matches Some(n) ==> n.deep_view() == self.deep_view().nodes[unique_id@],
    {
        self.nodes.get(unique_id)
    }

    /// How many nodes have this resource type.
    pub fn count_by_resource_type(&self, resource_type: &str) -> (r: usize)
        requires
            self.wf(),
        ensures
            r == listing(self.deep_view().nodes.dom()).filter(
                |u: Text| self.deep_view().nodes[u].resource_type == resource_type@,
            ).len(),
    {
        let ghost d = self.deep_view();
        let ghost ids = self.nodes.key_list();
        let ghost pred = |u: Text| d.nodes[u].resource_type == resource_type@;
        proof {
            self.nodes.keys_listed();
            assert(d.nodes.dom() =~= self.nodes@.dom());
            reveal(Seq::filter);
        }
        let mut n: usize = 0;
        let mut i: usize = 0;
        while i < self.nodes.len()
            invariant
                self.wf(),
                d == self.deep_view(),
                ids == self.nodes.key_list(),
                pred == (|u: Text| d.nodes[u].resource_type == resource_type@),
                i <= ids.len(),
                n <= i,
                n == ids.take(i as int).filter(pred).len(),
            decreases ids.len() - i,
        {
            proof {
                take_contains(ids, i as int);
                reveal(Seq::filter);
            }
            if str_eq(self.nodes.value_at(i).resource_type.as_str(), resource_type) {
                n = n + 1;
            }
            i = i + 1;
        }
        proof {
            take_all(ids);
        }
        n
    }

    /// The dbt project name: the smallest non-empty `<project>` segment of the
    /// ids `<resource_type>.<project>.<name>`; `None` where no id has one.
    pub fn project_name(&self) -> (r: Option<String>)
        requires
            self.wf(),
        ensures
            is_project(self.deep_view(), r.deep_view()),
            r.deep_view() == project_of(self.deep_view()),
    {
        broadcast use group_text_order;
        let ghost d = self.deep_view();
        let ghost ids = self.nodes.key_list();
        let mut best: Option<String> = None;
        let mut i: usize = 0;
        while i < self.nodes.len()
            invariant
                self.wf(),
                d == self.deep_view(),
                ids == self.nodes.key_list(),
                i <= ids.len(),
                best is None ==> forall|j: int| 0 <= j < i ==> project_segment(#[trigger] ids[j]) is None,
                best matches Some(b) ==> exists|u: Text| #[trigger] d.nodes.contains_key(u) && project_segment(u) == Some(b@),
                best matches Some(b) ==> forall|j: int| 0 <= j < i && project_segment(#[trigger] ids[j]) is Some
                    ==> text_le(b@, project_segment(ids[j])->0),
            decreases ids.len() - i,
        {
            let uid = self.nodes.key_at(i);
            let ghost k = uid@;
            let seg = second_segment(uid.as_str());
            proof {
                assert(d.nodes.contains_key(k));
            }
            match seg {
                Some(s) => {
                    let better = match &best {
                        Some(b) => str_lt(s.as_str(), b.as_str()),
                        None => true,
                    };
                    proof {
                        assert(project_segment(k) == Some(s@));
                        assert forall|j: int| better && best is Some && 0 <= j < i && project_segment(#[trigger] ids[j]) is Some
                            implies text_le(s@, project_segment(ids[j])->0) by {
                            broadcast use group_text_order;
                            assert(text_le(best->0@, project_segment(ids[j])->0));
                        }
                        if best is Some {
                            text_lt_connected(s@, best->0@);
                        }
                    }
                    if better {
                        best = Some(s);
                    }
                },
                None => {},
            }
            i = i + 1;
        }
        proof {
            self.nodes.keys_listed();
            assert forall|u: Text| #[trigger] d.nodes.contains_key(u) implies exists|j: int| 0 <= j < ids.len() && ids[j] == u by {
                assert(ids.to_set().contains(u));
            }
            project_unique(d, best.deep_view());
        }
        best
    }

    /// The details of a node.
    pub fn detail(&self, unique_id: &str) -> (r: Option<&NodeDetail>)
        requires
            self.wf(),
        ensures
            r is Some == self.deep_view().details.contains_key(unique_id@),
            r matches Some(n) ==> n.deep_view() == self.deep_view().details[unique_id@],
    {
        self.details.get(unique_id)
    }

    /// The tests attached to a node, sorted by kind, column and name.
    pub fn tests(&self, unique_id: &str) -> (r: &[TestInfo])
        requires
            self.wf(),
        ensures
            r.deep_view() == at(self.deep_view().tests, unique_id@),
    {
        match self.tests.get(unique_id) {
            Some(v) => {
                let r = v.as_slice();
                assert(r.deep_view() =~= v.deep_view());
                r
            },
            None => {
                let r: &[TestInfo] = &[];
                assert(r.deep_view() =~= Seq::empty());
                r
            },
        }
    }

    /// The raw SQL of a node, where it was recorded.
    pub fn raw_code(&self, unique_id: &str) -> (r: Option<&str>)
        requires
            self.wf(),
        ensures
            r is Some == self.deep_view().sql.contains_key(unique_id@),
            r matches Some(c) ==> c@ == self.deep_view().sql[unique_id@],
    {
        match self.sql.get(unique_id) {
            Some(code) => Some(code.as_str()),
            None => None,
        }
    }

    /// What is recorded of an exposure; `None` for any other node.
    pub fn exposure(&self, unique_id: &str) -> (r: Option<&ExposureInfo>)
        requires
            self.wf(),
        ensures
            r is Some == self.deep_view().exposures.contains_key(unique_id@),
            r matches Some(e) ==> e.deep_view() == self.deep_view().exposures[unique_id@],
    {
        self.exposures.get(unique_id)
    }

    /// The direct parents of a node, in recorded order.
    pub fn parents_of(&self, unique_id: &str) -> (r: Vec<String>)
        requires
            self.wf(),
        ensures
            r.deep_view() == neighbours(self.deep_view().parents, unique_id@),
    {
        match self.parents.get(unique_id) {
            Some(v) => clone_strings(v),
            None => {
                let v: Vec<String> = Vec::new();
                assert(v.deep_view() =~= Seq::empty());
                v
            },
        }
    }

    /// The direct children of a node, in recorded order.
    pub fn children_of(&self, unique_id: &str) -> (r: Vec<String>)
        requires
            self.wf(),
        ensures
            r.deep_view() == neighbours(self.deep_view().children, unique_id@),
    {
        match self.children.get(unique_id) {
            Some(v) => clone_strings(v),
            None => {
                let v: Vec<String> = Vec::new();
                assert(v.deep_view() =~= Seq::empty());
                v
            },
        }
    }

    /// All ancestors of `start`, over any number of hops, without `start`.
    pub fn upstream(&self, start: &str) -> (r: StrSet)
        requires
            self.wf(),
        ensures
            r.wf(),
            r@ == reach(self.deep_view().parents, start@, None),
    {
        closure_depth(&self.parents, start, None, Ghost(self.deep_view().nodes.dom()))
    }

    /// All descendants of `start`, over any number of hops, without `start`.
    pub fn downstream(&self, start: &str) -> (r: StrSet)
        requires
            self.wf(),
        ensures
            r.wf(),
            r@ == reach(self.deep_view().children, start@, None),
    {
        closure_depth(&self.children, start, None, Ghost(self.deep_view().nodes.dom()))
    }

    /// Every direct `(parent, child)` edge, in strictly ascending order: each
    /// is listed once.
    pub fn edges(&self) -> (r: Vec<(String, String)>)
        requires
            self.wf(),
        ensures
            r.deep_view() == edge_list(self.deep_view()),
            forall|e: (Text, Text)| #[trigger] r.deep_view().contains(e) <==> linked(self.deep_view().children, e.0, e.1),
            forall|i: int, j: int| 0 <= i < j < r@.len() ==> pair_lt(#[trigger] r.deep_view()[i], #[trigger] r.deep_view()[j]),
    {
        let ghost d = self.deep_view();
        let ghost ids = self.children.key_list();
        let mut out: Vec<(String, String)> = Vec::new();
        proof {
            self.children.keys_listed();
            assert(d.children.dom() =~= self.children@.dom());
            assert(out.deep_view() =~= edges_from(d.children, ids.take(0)));
        }
        let mut i: usize = 0;
        while i < self.children.len()
            invariant
                self.wf(),
                d == self.deep_view(),
                ids == self.children.key_list(),
                i <= ids.len(),
                out.deep_view() == edges_from(d.children, ids.take(i as int)),
            decreases ids.len() - i,
        {
            let parent = self.children.key_at(i);
            let kids = self.children.value_at(i);
            let ghost before = out.deep_view();
            let ghost mine = kids.deep_view().map_values(|c: Text| (parent@, c));
            proof {
                take_contains(ids, i as int);
                assert(d.children[parent@] == kids.deep_view());
                assert(out.deep_view() =~= before + mine.take(0));
            }
            let mut j: usize = 0;
            while j < kids.len()
                invariant
                    j <= kids@.len(),
                    mine == kids.deep_view().map_values(|c: Text| (parent@, c)),
                    out.deep_view() == before + mine.take(j as int),
                decreases kids@.len() - j,
            {
                let ghost o = out.deep_view();
                let pair = (parent.clone(), kids[j].clone());
                let ghost pv = pair.deep_view();
                out.push(pair);
                proof {
                    assert(out.deep_view() =~= o.push(pv));
                    assert(pv == mine[j as int]);
                    assert(before + mine.take(j + 1) =~= (before + mine.take(j as int)).push(mine[j as int]));
                }
                j = j + 1;
            }
            proof {
                assert(mine.take(mine.len() as int) =~= mine);
                assert(mine =~= d.children[ids.take(i + 1).last()].map_values(|c: Text| (ids.take(i + 1).last(), c)));
            }
            i = i + 1;
        }
        proof {
            take_all(ids);
            edge_list_members(d);
        }
        sort(out)
    }

    /// The lineage subgraph of `selected`: ancestors, the node itself and
    /// descendants, with every edge among them. Without nodes where `selected`
    /// is unknown.
    pub fn subgraph(&self, selected: &str) -> (r: Subgraph)
        requires
            self.wf(),
        ensures
            r.deep_view() == subgraph_of(self.deep_view(), selected@, true, true, None),
    {
        self.subgraph_view(selected, true, true, None)
    }

    /// Like [`subgraph`](Dag::subgraph), limited to the chosen sides and to
    /// `depth` hops (`None`: no limit). A known `selected` is always present.
    pub fn subgraph_view(&self, selected: &str, upstream: bool, downstream: bool, depth: Option<usize>) -> (r: Subgraph)
        requires
            self.wf(),
        ensures
            r.deep_view() == subgraph_of(self.deep_view(), selected@, upstream, downstream, depth),
    {
        let ghost d = self.deep_view();
        if !self.nodes.contains_key(selected) {
            let r = Subgraph { selected: selected.to_owned(), nodes: Vec::new(), edges: Vec::new() };
            assert(r.nodes.deep_view() =~= Seq::empty());
            assert(r.edges.deep_view() =~= Seq::empty());
            return r;
        }
        let mut ids = StrSet::new();
        let ghost known = d.nodes.dom();
        if upstream {
            let side = closure_depth(&self.parents, selected, depth, Ghost(known));
            add_all(&mut ids, &side);
        }
        if downstream {
            let side = closure_depth(&self.children, selected, depth, Ghost(known));
            add_all(&mut ids, &side);
        }
        ids.insert(selected.to_owned());
        let ghost idset = view_ids(d, selected@, upstream, downstream, depth);
        proof {
            assert(ids@ =~= idset);
            reach_stays(d.parents, selected@, depth, known);
            reach_stays(d.children, selected@, depth, known);
            assert(idset.subset_of(known));
            ids.items_listed();
        }
        let nodes = self.node_list(&ids);
        let edges = self.edges_among(&ids);
        Subgraph { selected: selected.to_owned(), nodes, edges }
    }

    /// The nodes of `ids` in ascending order.
    fn node_list(&self, ids: &StrSet) -> (r: Vec<NodeInfo>)
        requires
            self.wf(),
            ids.wf(),
            ids@.subset_of(self.deep_view().nodes.dom()),
        ensures
            r.deep_view() == listing(ids@).map_values(|u: Text| self.deep_view().nodes[u]),
    {
        let ghost d = self.deep_view();
        let ghost items = ids.items();
        proof {
            ids.items_listed();
        }
        let mut nodes: Vec<NodeInfo> = Vec::new();
        let mut i: usize = 0;
        while i < ids.len()
            invariant
                self.wf(),
                ids.wf(),
                d == self.deep_view(),
                items == ids.items(),
                ids@.subset_of(d.nodes.dom()),
                i <= items.len(),
                nodes@.len() == i,
                forall|j: int| 0 <= j < i ==> nodes@[j].deep_view() == d.nodes[items[j]],
            decreases items.len() - i,
        {
            match self.nodes.get(ids.at(i).as_str()) {
                Some(n) => {
                    nodes.push(n.clone());
                },
                None => {},
            }
            i = i + 1;
        }
        assert(nodes.deep_view() =~= items.map_values(|u: Text| d.nodes[u]));
        nodes
    }

    /// The dependencies among `ids`, ascending and without repetition.
    fn edges_among(&self, ids: &StrSet) -> (r: Vec<Edge>)
        requires
            self.wf(),
            ids.wf(),
        ensures
            r.deep_view() == distinct_in_order::<(String, String)>(edges_within(self.deep_view(), ids@)),
    {
        let ghost d = self.deep_view();
        let mut pairs: Vec<(String, String)> = Vec::new();
        push_links(&mut pairs, &self.parents, ids, true);
        push_links(&mut pairs, &self.children, ids, false);
        proof {
            assert forall|e: (Text, Text)| pairs.deep_view().to_set().contains(e) <==> edges_within(d, ids@).contains(e) by {
                assert(pairs.deep_view().to_set().contains(e) <==> pairs.deep_view().contains(e));
            }
            assert(pairs.deep_view().to_set() =~= edges_within(d, ids@));
        }
        let ordered = sort_distinct(pairs);
        let mut edges: Vec<Edge> = Vec::new();
        let mut k: usize = 0;
        while k < ordered.len()
            invariant
                k <= ordered@.len(),
                edges@.len() == k,
                forall|j: int| 0 <= j < k ==> edges@[j].deep_view() == ordered@[j].deep_view(),
            decreases ordered@.len() - k,
        {
            edges.push(Edge { parent: ordered[k].0.clone(), child: ordered[k].1.clone() });
            k = k + 1;
        }
        assert(edges.deep_view() =~= ordered.deep_view());
        edges
    }
}

} // verus!
