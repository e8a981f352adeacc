//! The left pane's list: the models of a graph grouped by layer, and the ways
//! of narrowing it.

use vstd::prelude::*;
use vstd::relations::*;

use crate::dag::{coverage_gap, is_gap, Dag, DagModel, NodeInfo, NodeModel};
use crate::sorted::{in_order, in_order_sorted, listing, sort, Sortable, StrSet};
use crate::text::{
    chars_of, group_text_order, split, split_at_char, str_eq, str_lt, text_le, text_lt, text_lt_connected,
    text_lt_irreflexive, Text,
};

verus! {

/// How the models of a layer group are ordered.
#[derive(Debug, Clone, Copy, PartialEq, Eq, Structural)]
pub enum SortMode {
    /// By name.
    Layer,
    /// By the number of direct children, most first.
    Downstream,
    /// By the number of tests, most first.
    Tests,
}

impl Default for SortMode {
    fn default() -> (r: SortMode)
        ensures
            r == SortMode::Layer,
    {
        SortMode::Layer
    }
}

/// The order of the sort modes under the cycle key.
pub open spec fn next_sort(s: SortMode) -> SortMode {
    match s {
        SortMode::Layer => SortMode::Downstream,
        SortMode::Downstream => SortMode::Tests,
        SortMode::Tests => SortMode::Layer,
    }
}

impl SortMode {
    /// The next mode in the cycle.
    pub fn next(self) -> (r: SortMode)
        ensures
            r == next_sort(self),
    {
        match self {
            SortMode::Layer => SortMode::Downstream,
            SortMode::Downstream => SortMode::Tests,
            SortMode::Tests => SortMode::Layer,
        }
    }
}

/// An ordered list of models.
#[derive(Debug, PartialEq, Eq)]
pub struct ModelList {
    pub models: Vec<NodeInfo>,
}

impl DeepView for ModelList {
    type V = Seq<NodeModel>;

    open spec fn deep_view(&self) -> Seq<NodeModel> {
        self.models.deep_view()
    }
}

impl ModelList {
    /// Number of models.
    pub fn len(&self) -> (r: usize)
        ensures
            r == self.deep_view().len(),
    {
        self.models.len()
    }

    /// Whether the list has no model.
    pub fn is_empty(&self) -> (r: bool)
        ensures
            r == (self.deep_view().len() == 0),
    {
        self.models.len() == 0
    }

    /// The model at a position.
    pub fn model_at(&self, i: usize) -> (r: Option<&NodeInfo>)
        ensures
            r is Some == (i < self.deep_view().len()),
            r matches Some(n) ==> n.deep_view() == self.deep_view()[i as int],
    {
        if i < self.models.len() {
            Some(&self.models[i])
        } else {
            None
        }
    }
}

// ---- layers ----

/// The first directory of a node's path; none for a path without one.
pub open spec fn layer_of(n: NodeModel) -> Option<Text> {
    match n.path {
        Some(p) => if split(p, '/').len() > 1 {
            Some(split(p, '/')[0])
        } else {
            None
        },
        None => None,
    }
}

/// The first directory of a node's path: its layer.
pub fn first_dir(n: &NodeInfo) -> (r: Option<String>)
    ensures
        r.deep_view() == layer_of(n.deep_view()),
{
    match &n.path {
        Some(p) => {
            let pieces = split_at_char(p.as_str(), '/');
            if pieces.len() > 1 {
                Some(pieces[0].clone())
            } else {
                None
            }
        },
        None => None,
    }
}

/// The layer of a node, `default` where it has none.
pub open spec fn layer_or(n: NodeModel, default: Text) -> Text {
    match layer_of(n) {
        Some(l) => l,
        None => default,
    }
}

/// The layer of a node, `default` where it has none.
pub fn first_dir_or(n: &NodeInfo, default: &str) -> (r: String)
    ensures
        r@ == layer_or(n.deep_view(), default@),
{
    match first_dir(n) {
        Some(l) => l,
        None => default.to_owned(),
    }
}

/// Staging, intermediate, marts, utilities; any other layer last.
pub open spec fn rank_of(layer: Text) -> nat {
    if layer == "staging"@ {
        0
    } else if layer == "intermediate"@ {
        1
    } else if layer == "marts"@ {
        2
    } else if layer == "utilities"@ {
        3
    } else {
        4
    }
}

/// The place of a layer in the flow of a project.
pub fn layer_rank(layer: &str) -> (r: usize)
    ensures
        r == rank_of(layer@),
{
    if str_eq(layer, "staging") {
        0
    } else if str_eq(layer, "intermediate") {
        1
    } else if str_eq(layer, "marts") {
        2
    } else if str_eq(layer, "utilities") {
        3
    } else {
        4
    }
}

// ---- building the list ----

/// What a model is ordered by.
#[derive(Debug)]
pub struct Row {
    pub rank: usize,
    pub layer: String,
    pub weight: usize,
    pub name: String,
    pub uid: String,
}

/// Model of the sort key: layer rank, layer, weight, name and id.
pub struct RowModel {
    pub rank: nat,
    pub layer: Text,
    pub weight: nat,
    pub name: Text,
    pub uid: Text,
}

impl DeepView for Row {
    type V = RowModel;

    open spec fn deep_view(&self) -> RowModel {
        RowModel {
            rank: self.rank as nat,
            layer: self.layer@,
            weight: self.weight as nat,
            name: self.name@,
            uid: self.uid@,
        }
    }
}

/// Rows go by layer rank, then layer, then weight (most first), then name,
/// then id.
pub open spec fn row_le(a: RowModel, b: RowModel) -> bool {
    a.rank < b.rank || (a.rank == b.rank && (text_lt(a.layer, b.layer) || (a.layer == b.layer && (a.weight > b.weight
        || (a.weight == b.weight && (text_lt(a.name, b.name) || (a.name == b.name && text_le(a.uid, b.uid))))))))
}

impl Sortable for Row {
    open spec fn leq(a: RowModel, b: RowModel) -> bool {
        row_le(a, b)
    }

    proof fn leq_total() {
        broadcast use group_text_order;
        let r = |a: RowModel, b: RowModel| Self::leq(a, b);
        assert forall|x: RowModel, y: RowModel| #[trigger] r(x, y) && #[trigger] r(y, x) implies x == y by {
            text_lt_irreflexive(x.layer);
            text_lt_irreflexive(x.name);
            text_lt_irreflexive(x.uid);
        }
        assert forall|x: RowModel, y: RowModel, z: RowModel| #[trigger] r(x, y) && #[trigger] r(y, z) implies r(x, z) by {}
        assert forall|x: RowModel, y: RowModel| #[trigger] r(x, y) || #[trigger] r(y, x) by {
            text_lt_connected(x.layer, y.layer);
            text_lt_connected(x.name, y.name);
            text_lt_connected(x.uid, y.uid);
        }
    }

    fn at_most(&self, other: &Self) -> (r: bool) {
        proof {
            broadcast use group_text_order;
            text_lt_connected(self.layer@, other.layer@);
            text_lt_connected(self.name@, other.name@);
        }
        if self.rank != other.rank {
            return self.rank < other.rank;
        }
        if str_lt(self.layer.as_str(), other.layer.as_str()) {
            return true;
        }
        if str_lt(other.layer.as_str(), self.layer.as_str()) {
            return false;
        }
        if self.weight != other.weight {
            return self.weight > other.weight;
        }
        if str_lt(self.name.as_str(), other.name.as_str()) {
            return true;
        }
        if str_lt(other.name.as_str(), self.name.as_str()) {
            return false;
        }
        self.uid.at_most(&other.uid)
    }
}

/// The sort key of a node.
pub open spec fn row_of(n: NodeModel, mode: SortMode) -> RowModel {
    RowModel {
        rank: rank_of(layer_or(n, ""@)),
        layer: layer_or(n, ""@),
        weight: match mode {
            SortMode::Layer => 0,
            SortMode::Downstream => n.direct_down,
            SortMode::Tests => n.test_count,
        },
        name: n.name,
        uid: n.unique_id,
    }
}

/// The sort keys of the models of a graph, in id order.
pub open spec fn model_rows(d: DagModel, ids: Seq<Text>, mode: SortMode) -> Seq<RowModel> {
    ids.filter(|u: Text| d.nodes[u].resource_type == "model"@).map_values(|u: Text| row_of(d.nodes[u], mode))
}

/// The models of a graph in list order.
pub open spec fn models_of(d: DagModel, mode: SortMode) -> Seq<NodeModel> {
    in_order_rows(model_rows(d, listing(d.nodes.dom()), mode)).map_values(|r: RowModel| d.nodes[r.uid])
}

/// Sort keys in ascending order.
pub open spec fn in_order_rows(rows: Seq<RowModel>) -> Seq<RowModel> {
    in_order::<Row>(rows)
}

/// `in_order_rows` rearranges the keys into the order of `row_le`.
pub proof fn in_order_rows_sorted(rows: Seq<RowModel>)
    ensures
        sorted_by(in_order_rows(rows), |a: RowModel, b: RowModel| row_le(a, b)),
        in_order_rows(rows).to_multiset() == rows.to_multiset(),
        in_order_rows(rows).len() == rows.len(),
        forall|x: RowModel| #[trigger] in_order_rows(rows).contains(x) <==> rows.contains(x),
{
    in_order_sorted::<Row>(rows);
    assert((|a: RowModel, b: RowModel| Row::leq(a, b)) =~= (|a: RowModel, b: RowModel| row_le(a, b)));
}

proof fn model_rows_members(d: DagModel, ids: Seq<Text>, mode: SortMode)
    requires
        d.valid(),
        forall|i: int| 0 <= i < ids.len() ==> d.nodes.contains_key(#[trigger] ids[i]),
    ensures
        forall|r: RowModel| #[trigger] model_rows(d, ids, mode).contains(r) ==> d.nodes.contains_key(r.uid),
    decreases ids.len(),
{
    reveal(Seq::filter);
    let p = |u: Text| d.nodes[u].resource_type == "model"@;
    if ids.len() > 0 {
        model_rows_members(d, ids.drop_last(), mode);
        let u = ids.last();
        let f = ids.drop_last().filter(p);
        assert forall|r: RowModel| #[trigger] model_rows(d, ids, mode).contains(r) implies d.nodes.contains_key(r.uid) by {
            let k = model_rows(d, ids, mode).index_of(r);
            if k < f.len() {
                assert(model_rows(d, ids.drop_last(), mode)[k] == r);
                assert(model_rows(d, ids.drop_last(), mode).contains(r));
            } else {
                assert(d.nodes.contains_key(ids[ids.len() - 1]));
                assert(r.uid == d.nodes[u].unique_id);
            }
        }
    }
}

/// The models of a graph in list order: grouped by layer, within a group by
/// `mode`.
pub fn build_model_list(dag: &Dag, mode: SortMode) -> (r: ModelList)
    requires
        dag.wf(),
    ensures
        r.deep_view() == models_of(dag.deep_view(), mode),
{
    broadcast use Dag::wf_valid;
    let ghost d = dag.deep_view();
    let nodes = dag.nodes();
    let ghost ids = nodes.key_list();
    let ghost p = |u: Text| d.nodes[u].resource_type == "model"@;
    let ghost key = |u: Text| row_of(d.nodes[u], mode);
    let mut rows: Vec<Row> = Vec::new();
    proof {
        nodes.keys_listed();
        assert(d.nodes.dom() =~= nodes@.dom());
        reveal(Seq::filter);
        assert(rows.deep_view() =~= model_rows(d, ids.take(0), mode));
    }
    let mut i: usize = 0;
    while i < nodes.len()
        invariant
            nodes.wf(),
            nodes.deep_view() == d.nodes,
            d.valid(),
            ids == nodes.key_list(),
            p == (|u: Text| d.nodes[u].resource_type == "model"@),
            key == (|u: Text| row_of(d.nodes[u], mode)),
            i <= ids.len(),
            rows.deep_view() == ids.take(i as int).filter(p).map_values(key),
        decreases ids.len() - i,
    {
        let n = nodes.value_at(i);
        let ghost u = ids[i as int];
        let ghost f = ids.take(i as int).filter(p);
        proof {
            reveal(Seq::filter);
            assert(ids.take(i + 1).drop_last() =~= ids.take(i as int));
            assert(d.nodes[u] == n.deep_view());
        }
        if str_eq(n.resource_type.as_str(), "model") {
            let layer = first_dir_or(n, "");
            let weight: usize = match mode {
                SortMode::Layer => 0,
                SortMode::Downstream => n.direct_down,
                SortMode::Tests => n.test_count,
            };
            let row = Row {
                rank: layer_rank(layer.as_str()),
                layer,
                weight,
                name: n.name.clone(),
                uid: n.unique_id.clone(),
            };
            let ghost before = rows.deep_view();
            let ghost rv = row.deep_view();
            rows.push(row);
            proof {
                assert(rv == key(u));
                assert(rows.deep_view() =~= before.push(rv));
                assert(f.push(u).map_values(key) =~= f.map_values(key).push(key(u)));
            }
        }
        i = i + 1;
    }
    proof {
        assert(ids.take(ids.len() as int) =~= ids);
        assert forall|i: int| 0 <= i < ids.len() implies d.nodes.contains_key(#[trigger] ids[i]) by {
            assert(ids.to_set().contains(ids[i]));
        }
        model_rows_members(d, ids, mode);
        in_order_rows_sorted(model_rows(d, ids, mode));
    }
    let ordered = sort(rows);
    let ghost want = models_of(d, mode);
    let mut models: Vec<NodeInfo> = Vec::new();
    let mut k: usize = 0;
    while k < ordered.len()
        invariant
            dag.wf(),
            d == dag.deep_view(),
            k <= ordered@.len(),
            ordered.deep_view() == in_order_rows(model_rows(d, ids, mode)),
            forall|r: RowModel| #[trigger] in_order_rows(model_rows(d, ids, mode)).contains(r) ==> d.nodes.contains_key(r.uid),
            models@.len() == k,
            forall|j: int| 0 <= j < k ==> (#[trigger] models@[j]).deep_view() == d.nodes[ordered@[j].uid@],
        decreases ordered@.len() - k,
    {
        proof {
            let r = ordered.deep_view()[k as int];
            assert(in_order_rows(model_rows(d, ids, mode)).contains(r));
        }
        match dag.get(ordered[k].uid.as_str()) {
            Some(n) => {
                models.push(n.clone());
            },
            None => {},
        }
        k = k + 1;
    }
    assert(models.deep_view() =~= want);
    ModelList { models }
}

// ---- narrowing ----

/// `q` occurs in `s` in order, with gaps allowed.
pub open spec fn subsequence(q: Text, s: Text) -> bool
    decreases s.len(),
{
    if q.len() == 0 {
        true
    } else if s.len() == 0 {
        false
    } else if q[0] == s[0] {
        subsequence(q.drop_first(), s.drop_first())
    } else {
        subsequence(q, s.drop_first())
    }
}

/// Whether the characters of `query` occur in `name` in order.
pub fn name_matches_query(name: &str, query: &str) -> (r: bool)
    ensures
        r == subsequence(query@, name@),
{
    let s = chars_of(name);
    let q = chars_of(query);
    let mut i: usize = 0;
    let mut j: usize = 0;
    proof {
        assert(s@.skip(0) =~= s@);
        assert(q@.skip(0) =~= q@);
    }
    while i < s.len() && j < q.len()
        invariant
            i <= s@.len(),
            j <= q@.len(),
            s@ == name@,
            q@ == query@,
            subsequence(query@, name@) == subsequence(q@.skip(j as int), s@.skip(i as int)),
        decreases s@.len() - i,
    {
        proof {
            assert(s@.skip(i as int).drop_first() =~= s@.skip(i + 1));
            assert(q@.skip(j as int).drop_first() =~= q@.skip(j + 1));
        }
        if s[i] == q[j] {
            j = j + 1;
        }
        i = i + 1;
    }
    j == q.len()
}

/// The positions at which the characters of `q` are first found in order,
/// counted from `at`.
pub open spec fn match_positions(q: Text, s: Text, at: nat) -> Seq<nat>
    decreases s.len(),
{
    if q.len() == 0 || s.len() == 0 {
        Seq::empty()
    } else if q[0] == s[0] {
        seq![at] + match_positions(q.drop_first(), s.drop_first(), at + 1)
    } else {
        match_positions(q, s.drop_first(), at + 1)
    }
}

/// The character positions of `name` that match `query`; none for an empty
/// query and none where it does not match.
pub fn match_indices(name: &str, query: &str) -> (r: Vec<usize>)
    ensures
        r@.map_values(|i: usize| i as nat) == (if subsequence(query@, name@) {
            match_positions(query@, name@, 0)
        } else {
            Seq::empty()
        }),
        r@.len() > 0 <==> query@.len() > 0 && subsequence(query@, name@),
{
    let s = chars_of(name);
    let q = chars_of(query);
    let mut hits: Vec<usize> = Vec::new();
    let ghost cast = |i: usize| i as nat;
    let mut i: usize = 0;
    let mut j: usize = 0;
    proof {
        assert(s@.skip(0) =~= s@);
        assert(q@.skip(0) =~= q@);
        assert(hits@.map_values(cast) + match_positions(q@, s@, 0) =~= match_positions(q@, s@, 0));
    }
    while i < s.len() && j < q.len()
        invariant
            i <= s@.len(),
            j <= q@.len(),
            s@ == name@,
            q@ == query@,
            hits@.len() == j,
            cast == (|i: usize| i as nat),
            subsequence(query@, name@) == subsequence(q@.skip(j as int), s@.skip(i as int)),
            match_positions(query@, name@, 0) == hits@.map_values(cast) + match_positions(
                q@.skip(j as int),
                s@.skip(i as int),
                i as nat,
            ),
        decreases s@.len() - i,
    {
        proof {
            assert(s@.skip(i as int).drop_first() =~= s@.skip(i + 1));
            assert(q@.skip(j as int).drop_first() =~= q@.skip(j + 1));
        }
        if s[i] == q[j] {
            let ghost h = hits@;
            hits.push(i);
            proof {
                let rest = match_positions(q@.skip(j + 1), s@.skip(i + 1), (i + 1) as nat);
                assert(h.map_values(cast) + (seq![i as nat] + rest) =~= h.push(i).map_values(cast) + rest);
            }
            j = j + 1;
        }
        i = i + 1;
    }
    if j == q.len() {
        proof {
            assert(hits@.map_values(cast) + Seq::<nat>::empty() =~= hits@.map_values(cast));
        }
        hits
    } else {
        let none: Vec<usize> = Vec::new();
        assert(none@.map_values(cast) =~= Seq::<nat>::empty());
        none
    }
}

/// Which models of a list are kept.
pub enum Keep<'a> {
    /// Those without tests that should have some.
    Untested,
    /// Those with a bookmark.
    Bookmarked(&'a StrSet),
    /// Those whose name matches a query.
    Named(&'a str),
}

/// Model of [`Keep`].
pub enum KeepModel {
    Untested,
    Bookmarked(Set<Text>),
    Named(Text),
}

impl<'a> DeepView for Keep<'a> {
    type V = KeepModel;

    open spec fn deep_view(&self) -> KeepModel {
        match self {
            Keep::Untested => KeepModel::Untested,
            Keep::Bookmarked(s) => KeepModel::Bookmarked(s@),
            Keep::Named(q) => KeepModel::Named(q@),
        }
    }
}

impl KeepModel {
    /// Whether a node is kept.
    pub open spec fn keeps(self, n: NodeModel) -> bool {
        match self {
            KeepModel::Untested => is_gap(n),
            KeepModel::Bookmarked(s) => s.contains(n.unique_id),
            KeepModel::Named(q) => subsequence(q, n.name),
        }
    }
}

impl<'a> Keep<'a> {
    /// The bookmarks keep their order.
    pub open spec fn wf(&self) -> bool {
        match self {
            Keep::Bookmarked(s) => s.wf(),
            _ => true,
        }
    }

    /// Whether a node is kept.
    pub fn keeps(&self, n: &NodeInfo) -> (r: bool)
        requires
            self.wf(),
        ensures
            r == self.deep_view().keeps(n.deep_view()),
    {
        match self {
            Keep::Untested => coverage_gap(n),
            Keep::Bookmarked(s) => s.contains(n.unique_id.as_str()),
            Keep::Named(q) => name_matches_query(n.name.as_str(), q),
        }
    }
}

/// The models of a list that `keep` keeps, in the same order.
pub fn filter_model_list(list: &ModelList, keep: &Keep) -> (r: ModelList)
    requires
        keep.wf(),
    ensures
        r.deep_view() == list.deep_view().filter(|n: NodeModel| keep.deep_view().keeps(n)),
{
    let ghost all = list.deep_view();
    let ghost p = |n: NodeModel| keep.deep_view().keeps(n);
    let mut models: Vec<NodeInfo> = Vec::new();
    proof {
        reveal(Seq::filter);
        assert(models.deep_view() =~= all.take(0).filter(p));
    }
    let mut i: usize = 0;
    while i < list.models.len()
        invariant
            keep.wf(),
            i <= list.models@.len(),
            all == list.deep_view(),
            p == (|n: NodeModel| keep.deep_view().keeps(n)),
            models.deep_view() == all.take(i as int).filter(p),
        decreases list.models@.len() - i,
    {
        let ghost before = models.deep_view();
        let ghost nv = list.models@[i as int].deep_view();
        proof {
            reveal(Seq::filter);
            assert(all[i as int] == nv);
            assert(all.take(i + 1).drop_last() =~= all.take(i as int));
        }
        if keep.keeps(&list.models[i]) {
            models.push(list.models[i].clone());
            assert(models.deep_view() =~= before.push(nv));
        }
        i = i + 1;
    }
    assert(all.take(all.len() as int) =~= all);
    ModelList { models }
}

/// The models of `base` whose name matches `query`.
pub fn build_filtered_model_list(base: &ModelList, query: &str) -> (r: ModelList)
    ensures
        r.deep_view() == base.deep_view().filter(|n: NodeModel| subsequence(query@, n.name)),
{
    let keep = Keep::Named(query);
    assert((|n: NodeModel| keep.deep_view().keeps(n)) =~= (|n: NodeModel| subsequence(query@, n.name)));
    filter_model_list(base, &keep)
}

/// The position after `off` steps from `start` around a list of `n`.
pub open spec fn around(start: int, off: int, n: int, forward: bool) -> int {
    if forward {
        (start + off) % n
    } else {
        (start + n - off % n) % n
    }
}

/// The first position that `keep` keeps, walking from behind `start` around the
/// list and back to `start` itself.
pub open spec fn cycled(list: Seq<NodeModel>, start: int, forward: bool, keep: KeepModel, off: int) -> Option<int>
    decreases list.len() + 1 - off,
{
    let n = list.len() as int;
    if off > n || off < 1 {
        None
    } else if keep.keeps(list[around(start, off, n, forward)]) {
        Some(around(start, off, n, forward))
    } else {
        cycled(list, start, forward, keep, off + 1)
    }
}

/// The next position whose model `keep` keeps, wrapping around; `start` is
/// tried last. `None` where no model is kept.
pub fn cycle_to(list: &ModelList, start: usize, forward: bool, keep: &Keep) -> (r: Option<usize>)
    requires
        keep.wf(),
    ensures
        match r {
            Some(i) => cycled(list.deep_view(), start as int, forward, keep.deep_view(), 1) == Some(i as int)
                && i < list.deep_view().len(),
            None => cycled(list.deep_view(), start as int, forward, keep.deep_view(), 1) is None,
        },
{
    let n: usize = list.len();
    if n == 0 {
        return None;
    }
    let ghost all = list.deep_view();
    let s: usize = start % n;
    let mut off: usize = 1;
    while off <= n
        invariant
            keep.wf(),
            n == all.len(),
            n == list.models@.len(),
            all == list.deep_view(),
            1 <= off <= n + 1,
            s < n,
            s == start % n,
            cycled(all, start as int, forward, keep.deep_view(), 1) == cycled(all, start as int, forward, keep.deep_view(), off as int),
        decreases n + 1 - off,
    {
        let i: usize = if forward {
            if off < n - s {
                s + off
            } else {
                off - (n - s)
            }
        } else {
            let back: usize = if off == n {
                0
            } else {
                off
            };
            if back <= s {
                s - back
            } else {
                n - (back - s)
            }
        };
        proof {
            around_from(start as int, off as int, n as int, forward);
            around_is(s as int, off as int, n as int, forward, i as int);
            assert(all[i as int] == list.models@[i as int].deep_view());
        }
        if keep.keeps(&list.models[i]) {
            return Some(i);
        }
        if off == n {
            assert(cycled(all, start as int, forward, keep.deep_view(), off + 1) is None);
            return None;
        }
        off = off + 1;
    }
    None
}

proof fn around_from(start: int, off: int, n: int, forward: bool)
    requires
        0 <= start,
        1 <= off <= n,
    ensures
        around(start, off, n, forward) == around(start % n, off, n, forward),
{
    if forward {
        vstd::arithmetic::div_mod::lemma_add_mod_noop(start, off, n);
        vstd::arithmetic::div_mod::lemma_add_mod_noop(start % n, off, n);
        vstd::arithmetic::div_mod::lemma_mod_twice(start, n);
    } else {
        let k = n - off % n;
        vstd::arithmetic::div_mod::lemma_add_mod_noop(start, k, n);
        vstd::arithmetic::div_mod::lemma_add_mod_noop(start % n, k, n);
        vstd::arithmetic::div_mod::lemma_mod_twice(start, n);
    }
}

proof fn around_is(start: int, off: int, n: int, forward: bool, i: int)
    requires
        0 <= start < n,
        1 <= off <= n,
        forward ==> i == (if start + off < n { start + off } else { start + off - n }),
        !forward ==> ({
            let back = if off == n { 0 } else { off };
            i == (if back <= start { start - back } else { n + start - back })
        }),
    ensures
        around(start, off, n, forward) == i,
        0 <= i < n,
{
    if forward {
        if start + off < n {
            assert((start + off) % n == start + off) by (nonlinear_arith)
                requires
                    0 <= start + off < n,
            ;
        } else {
            assert((start + off) % n == start + off - n) by (nonlinear_arith)
                requires
                    n <= start + off < 2 * n,
            ;
        }
    } else {
        let back = if off == n { 0 } else { off };
        assert(off % n == back) by (nonlinear_arith)
            requires
                1 <= off <= n,
                back == (if off == n { 0 } else { off }),
        ;
        if back <= start {
            assert((start + n - back) % n == start - back) by (nonlinear_arith)
                requires
                    n <= start + n - back < 2 * n,
            ;
        } else {
            assert((start + n - back) % n == start + n - back) by (nonlinear_arith)
                requires
                    0 <= start + n - back < n,
            ;
        }
    }
}

} // verus!
