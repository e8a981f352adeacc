//! What the graph says about a project: the blast radius of a node, test
//! coverage, the stats dashboard, layer violations and the longest chain.

use vstd::prelude::*;
use vstd::relations::*;

use crate::action::{DiffView, DiffViewModel, StatsView, StatsViewModel};
use crate::dag::{
    edge_list, is_exposure, is_testable, occurrences, testable, Dag, DagModel, ExposureInfo, ExposureModel, NodeInfo,
    NodeModel,
};
use crate::diff::{name_in, shown};
use crate::graph::{neighbours, reach};
use crate::layout::{capped, plus};
use crate::model_list::{first_dir_or, layer_or, layer_rank, rank_of};
use crate::sorted::{in_order, in_order_sorted, listing, sort, Sortable, StrMap, StrSet};
use crate::text::{
    decimal, group_text_order, join_from, joined, push_decimal, str_eq, str_lt, text_le, text_lt, text_lt_connected,
    text_lt_irreflexive, Text,
};
use crate::ui::{chrome, down_badge, up_badge};
use super::impact::{impact_of, pr_impact_data};
use super::{App, AppModel};

verus! {

// ---- picking nodes ----

/// A question about a node that the dashboard counts or lists.
#[derive(Debug, Clone, Copy, PartialEq, Eq, Structural)]
pub enum NodeTest {
    /// Any node.
    Any,
    Model,
    /// Model, snapshot or seed.
    Testable,
    /// Testable, with tests.
    Tested,
    /// A model without children.
    Leaf,
    /// A model without parents and without children.
    Orphan,
    /// A model without a description.
    Undescribed,
}

/// Whether a node of a graph passes a test.
pub open spec fn passes(d: DagModel, t: NodeTest, u: Text) -> bool {
    let n = d.nodes[u];
    let model = n.resource_type == "model"@;
    match t {
        NodeTest::Any => true,
        NodeTest::Model => model,
        NodeTest::Testable => testable(n.resource_type),
        NodeTest::Tested => testable(n.resource_type) && n.test_count > 0,
        NodeTest::Leaf => model && n.direct_down == 0,
        NodeTest::Orphan => model && n.direct_up == 0 && n.direct_down == 0,
        NodeTest::Undescribed => model && !(d.details.contains_key(u) && d.details[u].description is Some),
    }
}

/// The ids of the nodes that pass a test, ascending.
pub open spec fn passing(d: DagModel, t: NodeTest) -> Seq<Text> {
    listing(d.nodes.dom()).filter(|u: Text| passes(d, t, u))
}

fn does_pass(dag: &Dag, t: NodeTest, u: &str, n: &NodeInfo) -> (r: bool)
    requires
        dag.wf(),
        dag.deep_view().nodes.contains_key(u@),
        dag.deep_view().nodes[u@] == n.deep_view(),
    ensures
        r == passes(dag.deep_view(), t, u@),
{
    let rt = n.resource_type.as_str();
    match t {
        NodeTest::Any => true,
        NodeTest::Model => str_eq(rt, "model"),
        NodeTest::Testable => is_testable(rt),
        NodeTest::Tested => is_testable(rt) && n.test_count > 0,
        NodeTest::Leaf => str_eq(rt, "model") && n.direct_down == 0,
        NodeTest::Orphan => str_eq(rt, "model") && n.direct_up == 0 && n.direct_down == 0,
        NodeTest::Undescribed => str_eq(rt, "model") && match dag.detail(u) {
            Some(d) => d.description.is_none(),
            None => true,
        },
    }
}

/// The ids of the nodes that pass a test, ascending.
pub fn ids_passing(dag: &Dag, t: NodeTest) -> (r: Vec<String>)
    requires
        dag.wf(),
    ensures
        r.deep_view() == passing(dag.deep_view(), t),
        forall|i: int| 0 <= i < r@.len() ==> dag.deep_view().nodes.contains_key((#[trigger] r@[i])@),
{
    let ghost d = dag.deep_view();
    let nodes = dag.nodes();
    let ghost ids = nodes.key_list();
    let ghost p = |u: Text| passes(d, t, u);
    let mut out: Vec<String> = Vec::new();
    let mut i: usize = 0;
    proof {
        nodes.keys_listed();
        assert(d.nodes.dom() =~= nodes@.dom());
        reveal(Seq::filter);
        assert(out.deep_view() =~= ids.take(0).filter(p));
    }
    while i < nodes.len()
        invariant
            dag.wf(),
            nodes.wf(),
            d == dag.deep_view(),
            nodes.deep_view() == d.nodes,
            ids == nodes.key_list(),
            p == (|u: Text| passes(d, t, u)),
            i <= ids.len(),
            out.deep_view() == ids.take(i as int).filter(p),
            forall|j: int| 0 <= j < out@.len() ==> d.nodes.contains_key((#[trigger] out@[j])@),
        decreases ids.len() - i,
    {
        let uid = nodes.key_at(i);
        let n = nodes.value_at(i);
        let ghost o = out.deep_view();
        proof {
            reveal(Seq::filter);
            assert(ids.take(i + 1).drop_last() =~= ids.take(i as int));
            assert(d.nodes[uid@] == n.deep_view());
            assert(d.nodes.contains_key(uid@));
        }
        if does_pass(dag, t, uid.as_str(), n) {
            out.push(uid.clone());
            assert(out.deep_view() =~= o.push(uid@));
        }
        i = i + 1;
    }
    assert(ids.take(ids.len() as int) =~= ids);
    out
}

// ---- tallies and hubs ----

/// Each text of a sequence with how often it occurs, ascending.
pub open spec fn tally_of(keys: Seq<Text>) -> Seq<(Text, usize)> {
    listing(keys.to_set()).map_values(|k: Text| (k, occurrences(keys, k) as usize))
}

fn count_in(keys: &Vec<String>, k: &str) -> (r: usize)
    ensures
        r == occurrences(keys.deep_view(), k@),
        r <= keys@.len(),
{
    let ghost all = keys.deep_view();
    let mut n: usize = 0;
    let mut i: usize = 0;
    while i < keys.len()
        invariant
            i <= keys@.len(),
            all == keys.deep_view(),
            n <= i,
            n == occurrences(all.take(i as int), k@),
        decreases keys@.len() - i,
    {
        assert(all.take(i + 1).drop_last() =~= all.take(i as int));
        assert(all[i as int] == keys@[i as int]@);
        if str_eq(keys[i].as_str(), k) {
            n = n + 1;
        }
        i = i + 1;
    }
    assert(all.take(all.len() as int) =~= all);
    n
}

/// Each string with how often it occurs, ascending.
pub fn tally(keys: &Vec<String>) -> (r: Vec<(String, usize)>)
    ensures
        r.deep_view() == tally_of(keys.deep_view()),
{
    let ghost all = keys.deep_view();
    let mut set = StrSet::new();
    let mut i: usize = 0;
    assert(set@ =~= all.take(0).to_set());
    while i < keys.len()
        invariant
            i <= keys@.len(),
            all == keys.deep_view(),
            set.wf(),
            set@ == all.take(i as int).to_set(),
        decreases keys@.len() - i,
    {
        proof {
            assert(all[i as int] == keys@[i as int]@);
            assert(all.take(i + 1) =~= all.take(i as int).push(all[i as int]));
            all.take(i as int).lemma_push_to_set_commute(all[i as int]);
        }
        set.insert(keys[i].clone());
        i = i + 1;
    }
    assert(all.take(all.len() as int) =~= all);
    let ghost items = set.items();
    proof {
        set.items_listed();
    }
    let mut out: Vec<(String, usize)> = Vec::new();
    let mut k: usize = 0;
    while k < set.len()
        invariant
            set.wf(),
            all == keys.deep_view(),
            items == set.items(),
            k <= items.len(),
            out@.len() == k,
            forall|j: int| 0 <= j < k ==> (#[trigger] out@[j]).deep_view() == (items[j], occurrences(all, items[j]) as usize),
        decreases items.len() - k,
    {
        let key = set.at(k);
        out.push((key.clone(), count_in(keys, key.as_str())));
        k = k + 1;
    }
    assert(out.deep_view() =~= tally_of(all));
    out
}

/// Hubs go by their count, most first, then by id, then by name.
pub open spec fn hub_le(a: (Text, Text, usize), b: (Text, Text, usize)) -> bool {
    a.2 > b.2 || (a.2 == b.2 && (text_lt(a.0, b.0) || (a.0 == b.0 && text_le(a.1, b.1))))
}

impl Sortable for (String, String, usize) {
    open spec fn leq(a: (Text, Text, usize), b: (Text, Text, usize)) -> bool {
        hub_le(a, b)
    }

    proof fn leq_total() {
        broadcast use group_text_order;
        let r = |a: (Text, Text, usize), b: (Text, Text, usize)| Self::leq(a, b);
        assert forall|x: (Text, Text, usize), y: (Text, Text, usize)| #[trigger] r(x, y) && #[trigger] r(y, x) implies x == y by {
            text_lt_irreflexive(x.0);
            text_lt_irreflexive(x.1);
        }
        assert forall|x: (Text, Text, usize), y: (Text, Text, usize), z: (Text, Text, usize)|
            #[trigger] r(x, y) && #[trigger] r(y, z) implies r(x, z) by {}
        assert forall|x: (Text, Text, usize), y: (Text, Text, usize)| #[trigger] r(x, y) || #[trigger] r(y, x) by {
            text_lt_connected(x.0, y.0);
            text_lt_connected(x.1, y.1);
        }
    }

    fn at_most(&self, other: &Self) -> (r: bool) {
        proof {
            broadcast use group_text_order;
            text_lt_connected(self.0@, other.0@);
            assert(self.deep_view() == (self.0@, self.1@, self.2));
            assert(other.deep_view() == (other.0@, other.1@, other.2));
        }
        if self.2 != other.2 {
            return self.2 > other.2;
        }
        if str_lt(self.0.as_str(), other.0.as_str()) {
            return true;
        }
        if str_lt(other.0.as_str(), self.0.as_str()) {
            return false;
        }
        self.1.at_most(&other.1)
    }
}

/// The first five of a list of hubs in order.
pub open spec fn top_five(hubs: Seq<(Text, Text, usize)>) -> Seq<(Text, Text, usize)> {
    let l = in_order::<(String, String, usize)>(hubs);
    l.take(if l.len() < 5 { l.len() as int } else { 5 })
}

pub(crate) fn top(hubs: Vec<(String, String, usize)>) -> (r: Vec<(String, String, usize)>)
    ensures
        r.deep_view() == top_five(hubs.deep_view()),
{
    let mut l = sort(hubs);
    let ghost lv = l.deep_view();
    if l.len() > 5 {
        l.truncate(5);
        assert(l.deep_view() =~= lv.take(5));
    } else {
        assert(lv.take(lv.len() as int) =~= lv);
    }
    l
}

/// A node's id, name and number of direct neighbours.
pub open spec fn degree_hub(d: DagModel, u: Text) -> (Text, Text, usize) {
    (u, d.nodes[u].name, capped((d.nodes[u].direct_up + d.nodes[u].direct_down) as int))
}

/// A node's id, name and number of descendants.
pub open spec fn blast_hub(d: DagModel, u: Text) -> (Text, Text, usize) {
    (u, d.nodes[u].name, reach(d.children, u, None).len() as usize)
}

/// An edge between models that runs from a later layer to an earlier one.
pub open spec fn against_layers(d: DagModel, e: (Text, Text)) -> bool {
    &&& d.nodes.contains_key(e.0)
    &&& d.nodes.contains_key(e.1)
    &&& d.nodes[e.0].resource_type == "model"@
    &&& d.nodes[e.1].resource_type == "model"@
    &&& rank_of(layer_or(d.nodes[e.0], ""@)) > rank_of(layer_or(d.nodes[e.1], ""@))
}

/// The edges that run against the layer order, ascending.
pub open spec fn violations_of(d: DagModel) -> Seq<(Text, Text)> {
    edge_list(d).filter(|e: (Text, Text)| against_layers(d, e))
}

/// Every direct edge between models whose parent sits in a later layer than
/// the child, ascending.
pub fn layer_violation_edges(dag: &Dag) -> (r: Vec<(String, String)>)
    requires
        dag.wf(),
    ensures
        r.deep_view() == violations_of(dag.deep_view()),
{
    let ghost d = dag.deep_view();
    let edges = dag.edges();
    let ghost all = edges.deep_view();
    let ghost p = |e: (Text, Text)| against_layers(d, e);
    let mut out: Vec<(String, String)> = Vec::new();
    let mut i: usize = 0;
    proof {
        reveal(Seq::filter);
        assert(out.deep_view() =~= all.take(0).filter(p));
    }
    while i < edges.len()
        invariant
            dag.wf(),
            d == dag.deep_view(),
            i <= edges@.len(),
            all == edges.deep_view(),
            p == (|e: (Text, Text)| against_layers(d, e)),
            out.deep_view() == all.take(i as int).filter(p),
        decreases edges@.len() - i,
    {
        let ghost o = out.deep_view();
        let ghost e = edges@[i as int].deep_view();
        proof {
            reveal(Seq::filter);
            assert(all[i as int] == e);
            assert(all.take(i + 1).drop_last() =~= all.take(i as int));
        }
        let against = match (dag.get(edges[i].0.as_str()), dag.get(edges[i].1.as_str())) {
            (Some(a), Some(b)) => str_eq(a.resource_type.as_str(), "model") && str_eq(b.resource_type.as_str(), "model") && layer_rank(
                first_dir_or(a, "").as_str(),
            ) > layer_rank(first_dir_or(b, "").as_str()),
            _ => false,
        };
        if against {
            let pair = (edges[i].0.clone(), edges[i].1.clone());
            out.push(pair);
            assert(out.deep_view() =~= o.push(e));
        }
        i = i + 1;
    }
    assert(all.take(all.len() as int) =~= all);
    out
}

// ---- the longest chain ----

/// How long the longest chain from a node is, and where it goes next.
#[derive(Debug)]
pub struct Link {
    pub len: usize,
    pub next: Option<String>,
}

/// Model of [`Link`].
pub struct LinkModel {
    pub len: usize,
    pub next: Option<Text>,
}

impl DeepView for Link {
    type V = LinkModel;

    open spec fn deep_view(&self) -> LinkModel {
        LinkModel { len: self.len, next: self.next.deep_view() }
    }
}

/// A chain that ends where it starts.
pub open spec fn end_link() -> LinkModel {
    LinkModel { len: 1, next: None }
}

/// The children of a node, ascending.
pub open spec fn kids_of(d: DagModel, u: Text) -> Seq<Text> {
    in_order::<String>(neighbours(d.children, u))
}

/// The link of a node, and the links known after finding it. A node that is
/// being looked at already counts as an end, so that a cycle is cut where it
/// closes.
pub open spec fn link_of(d: DagModel, u: Text, known: Map<Text, LinkModel>, open: Set<Text>, n: nat) -> (LinkModel, Map<Text, LinkModel>)
    decreases n, 0nat,
{
    if known.contains_key(u) {
        (known[u], known)
    } else if open.contains(u) || n == 0 {
        (end_link(), known)
    } else {
        let (best, after) = best_link(d, kids_of(d, u), known, open.insert(u), (n - 1) as nat);
        (best, after.insert(u, best))
    }
}

/// The best link over some children: the first child with the longest chain.
pub open spec fn best_link(d: DagModel, kids: Seq<Text>, known: Map<Text, LinkModel>, open: Set<Text>, n: nat) -> (LinkModel, Map<Text, LinkModel>)
    decreases n, kids.len() + 1,
{
    if kids.len() == 0 {
        (end_link(), known)
    } else {
        let (best, k1) = best_link(d, kids.drop_last(), known, open, n);
        let (link, k2) = link_of(d, kids.last(), k1, open, n);
        if capped(link.len + 1) > best.len {
            (LinkModel { len: capped(link.len + 1), next: Some(kids.last()) }, k2)
        } else {
            (best, k2)
        }
    }
}

/// The links of all of `ids`, found one after the other.
pub open spec fn links_of(d: DagModel, ids: Seq<Text>, n: nat) -> Map<Text, LinkModel>
    decreases ids.len(),
{
    if ids.len() == 0 {
        Map::empty()
    } else {
        link_of(d, ids.last(), links_of(d, ids.drop_last(), n), Set::empty(), n).1
    }
}

/// The length recorded for a node; 0 where there is none.
pub open spec fn len_at(links: Map<Text, LinkModel>, u: Text) -> usize {
    if links.contains_key(u) {
        links[u].len
    } else {
        0
    }
}

/// The first of `ids` with the longest chain.
pub open spec fn chain_start(links: Map<Text, LinkModel>, ids: Seq<Text>) -> Option<Text>
    decreases ids.len(),
{
    if ids.len() == 0 {
        None
    } else {
        match chain_start(links, ids.drop_last()) {
            None => Some(ids.last()),
            Some(b) => if len_at(links, ids.last()) > len_at(links, b) {
                Some(ids.last())
            } else {
                Some(b)
            },
        }
    }
}

/// The chain from a node on, up to the first node that was seen.
pub open spec fn chain_from(links: Map<Text, LinkModel>, at: Option<Text>, seen: Set<Text>, n: nat) -> Seq<Text>
    decreases n,
{
    match at {
        None => Seq::empty(),
        Some(u) => if n == 0 || seen.contains(u) {
            Seq::empty()
        } else {
            seq![u] + chain_from(
                links,
                if links.contains_key(u) { links[u].next } else { None },
                seen.insert(u),
                (n - 1) as nat,
            )
        },
    }
}

/// The ids of the longest chain, upstream first.
pub open spec fn chain_ids(d: DagModel) -> Seq<Text> {
    let ids = listing(d.nodes.dom());
    let links = links_of(d, ids, ids.len());
    chain_from(links, chain_start(links, ids), Set::empty(), ids.len())
}

/// The names of the longest chain, upstream first.
pub open spec fn chain_names(d: DagModel) -> Seq<Text> {
    chain_ids(d).map_values(|u: Text| name_in(d, u))
}

fn clone_link(l: &Link) -> (r: Link)
    ensures
        r.deep_view() == l.deep_view(),
{
    Link { len: l.len, next: crate::text::clone_opt(&l.next) }
}

/// Finds the link of a node, and of all nodes behind it.
fn find_link(dag: &Dag, u: &str, known: &mut StrMap<Link>, open: &mut StrSet, n: usize) -> (r: Link)
    requires
        dag.wf(),
        old(known).wf(),
        old(open).wf(),
    ensures
        final(known).wf(),
        final(open).wf(),
        final(open)@ == old(open)@,
        (r.deep_view(), final(known).deep_view()) == link_of(
            dag.deep_view(),
            u@,
            old(known).deep_view(),
            old(open)@,
            n as nat,
        ),
    decreases n,
{
    let ghost d = dag.deep_view();
    if let Some(l) = known.get(u) {
        return clone_link(l);
    }
    if open.contains(u) || n == 0 {
        return Link { len: 1, next: None };
    }
    let ghost k0 = known.deep_view();
    let ghost o0 = open@;
    let kids = sort(dag.children_of(u));
    open.insert(u.to_owned());
    let mut best = Link { len: 1, next: None };
    let ghost all = kids.deep_view();
    let mut i: usize = 0;
    while i < kids.len()
        invariant
            dag.wf(),
            n > 0,
            d == dag.deep_view(),
            i <= kids@.len(),
            all == kids.deep_view(),
            known.wf(),
            open.wf(),
            open@ == o0.insert(u@),
            best_link(d, all.take(i as int), k0, o0.insert(u@), (n - 1) as nat) == (best.deep_view(), known.deep_view()),
        decreases kids@.len() - i,
    {
        proof {
            assert(all.take(i + 1).drop_last() =~= all.take(i as int));
            assert(all[i as int] == kids@[i as int]@);
        }
        let l = find_link(dag, kids[i].as_str(), known, open, n - 1);
        let longer = plus(l.len, 1);
        if longer > best.len {
            best = Link { len: longer, next: Some(kids[i].clone()) };
        }
        i = i + 1;
    }
    open.remove(u);
    let copy = clone_link(&best);
    proof {
        assert(all.take(all.len() as int) =~= all);
        assert(open@ =~= o0);
        StrMap::<Link>::deep_insert(known@, known@.insert(u@, copy), u@, copy);
    }
    known.insert(u.to_owned(), copy);
    best
}

/// The longest dependency chain as names, upstream first. Of equally long
/// chains the one with the smallest ids. A cycle is cut where it closes.
pub fn longest_chain(dag: &Dag) -> (r: Vec<String>)
    requires
        dag.wf(),
    ensures
        r.deep_view() == chain_names(dag.deep_view()),
{
    let ghost d = dag.deep_view();
    let nodes = dag.nodes();
    let ghost ids = nodes.key_list();
    let n: usize = nodes.len();
    let mut links: StrMap<Link> = StrMap::new();
    let mut open = StrSet::new();
    let mut i: usize = 0;
    proof {
        nodes.keys_listed();
        assert(d.nodes.dom() =~= nodes@.dom());
        assert(links.deep_view() =~= links_of(d, ids.take(0), n as nat));
    }
    while i < n
        invariant
            dag.wf(),
            d == dag.deep_view(),
            nodes.wf(),
            ids == nodes.key_list(),
            n == ids.len(),
            i <= n,
            links.wf(),
            open.wf(),
            open@ == Set::<Text>::empty(),
            links.deep_view() == links_of(d, ids.take(i as int), n as nat),
        decreases n - i,
    {
        assert(ids.take(i + 1).drop_last() =~= ids.take(i as int));
        let l = find_link(dag, nodes.key_at(i).as_str(), &mut links, &mut open, n);
        i = i + 1;
    }
    let ghost lv = links.deep_view();
    let mut start: Option<usize> = None;
    let mut k: usize = 0;
    while k < n
        invariant
            nodes.wf(),
            links.wf(),
            lv == links.deep_view(),
            ids == nodes.key_list(),
            n == ids.len(),
            k <= n,
            start matches Some(b) ==> b < k && chain_start(lv, ids.take(k as int)) == Some(ids[b as int]),
            start is None ==> chain_start(lv, ids.take(k as int)) is None,
        decreases n - k,
    {
        assert(ids.take(k + 1).drop_last() =~= ids.take(k as int));
        let here: usize = match links.get(nodes.key_at(k).as_str()) {
            Some(l) => l.len,
            None => 0,
        };
        assert(here == len_at(lv, ids[k as int]));
        match start {
            None => {
                start = Some(k);
            },
            Some(b) => {
                let best: usize = match links.get(nodes.key_at(b).as_str()) {
                    Some(l) => l.len,
                    None => 0,
                };
                assert(best == len_at(lv, ids[b as int]));
                if here > best {
                    start = Some(k);
                }
            },
        }
        k = k + 1;
    }
    assert(ids.take(n as int) =~= ids);
    let mut cur: Option<String> = match start {
        Some(b) => Some(nodes.key_at(b).clone()),
        None => None,
    };
    let ghost want = chain_ids(d);
    let mut seen = StrSet::new();
    let mut path: Vec<String> = Vec::new();
    let mut names: Vec<String> = Vec::new();
    let mut left: usize = n;
    assert(path.deep_view() + want =~= want);
    loop
        invariant
            dag.wf(),
            d == dag.deep_view(),
            links.wf(),
            seen.wf(),
            lv == links.deep_view(),
            want == path.deep_view() + chain_from(lv, cur.deep_view(), seen@, left as nat),
            names@.len() == path@.len(),
            forall|j: int| 0 <= j < path@.len() ==> (#[trigger] names@[j])@ == name_in(d, path@[j]@),
        ensures
            want == path.deep_view(),
        decreases left,
    {
        match cur {
            None => {
                assert(path.deep_view() + Seq::<Text>::empty() =~= path.deep_view());
                break;
            },
            Some(u) => {
                if left == 0 || seen.contains(u.as_str()) {
                    assert(path.deep_view() + Seq::<Text>::empty() =~= path.deep_view());
                    break;
                }
                seen.insert(u.clone());
                names.push(match dag.get(u.as_str()) {
                    Some(node) => node.name.clone(),
                    None => u.clone(),
                });
                let next = match links.get(u.as_str()) {
                    Some(l) => crate::text::clone_opt(&l.next),
                    None => None,
                };
                let ghost p = path.deep_view();
                let ghost uv = u@;
                path.push(u);
                proof {
                    let rest = chain_from(lv, next.deep_view(), seen@, (left - 1) as nat);
                    assert(path.deep_view() =~= p.push(uv));
                    assert(p + (seq![uv] + rest) =~= p.push(uv) + rest);
                }
                cur = next;
                left = left - 1;
            },
        }
    }
    assert(names.deep_view() =~= chain_names(d));
    names
}

// ---- blast radius ----

/// The exposures among the descendants of a node, ascending by id.
pub open spec fn exposed_ids(d: DagModel, uid: Text) -> Seq<Text> {
    listing(reach(d.children, uid, None)).filter(
        |u: Text| d.nodes.contains_key(u) && d.nodes[u].resource_type == "exposure"@,
    )
}

/// The numbers of descendants without exposures, of ancestors, and of
/// descendant exposures.
pub open spec fn breakdown(d: DagModel, uid: Text) -> (nat, nat, nat) {
    let exposures = exposed_ids(d, uid).len();
    ((reach(d.children, uid, None).len() - exposures) as nat, reach(d.parents, uid, None).len(), exposures)
}

/// What is recorded of an exposure.
pub open spec fn exposure_at(d: DagModel, uid: Text) -> Option<ExposureModel> {
    if d.exposures.contains_key(uid) {
        Some(d.exposures[uid])
    } else {
        None
    }
}

/// The descendant exposures of a node by name, each with what is recorded.
pub open spec fn exposures_below(d: DagModel, uid: Text) -> Seq<(NodeModel, Option<ExposureModel>)> {
    in_order::<(String, String)>(exposed_ids(d, uid).map_values(|u: Text| (d.nodes[u].name, u))).map_values(
        |p: (Text, Text)| (d.nodes[p.1], exposure_at(d, p.1)),
    )
}

/// The ids of a set that are exposures, ascending.
fn exposures_in(dag: &Dag, set: &StrSet) -> (r: Vec<String>)
    requires
        dag.wf(),
        set.wf(),
    ensures
        r.deep_view() == listing(set@).filter(
            |u: Text| dag.deep_view().nodes.contains_key(u) && dag.deep_view().nodes[u].resource_type == "exposure"@,
        ),
        r@.len() <= set@.len(),
        forall|i: int| 0 <= i < r@.len() ==> dag.deep_view().nodes.contains_key((#[trigger] r@[i])@),
{
    let ghost d = dag.deep_view();
    let ghost items = set.items();
    let ghost p = |u: Text| d.nodes.contains_key(u) && d.nodes[u].resource_type == "exposure"@;
    let mut out: Vec<String> = Vec::new();
    let mut i: usize = 0;
    proof {
        set.items_listed();
        reveal(Seq::filter);
        assert(out.deep_view() =~= items.take(0).filter(p));
    }
    while i < set.len()
        invariant
            dag.wf(),
            set.wf(),
            d == dag.deep_view(),
            items == set.items(),
            p == (|u: Text| d.nodes.contains_key(u) && d.nodes[u].resource_type == "exposure"@),
            i <= items.len(),
            out@.len() <= i,
            out.deep_view() == items.take(i as int).filter(p),
            forall|j: int| 0 <= j < out@.len() ==> d.nodes.contains_key((#[trigger] out@[j])@),
        decreases items.len() - i,
    {
        let uid = set.at(i);
        let ghost o = out.deep_view();
        proof {
            reveal(Seq::filter);
            assert(items.take(i + 1).drop_last() =~= items.take(i as int));
        }
        let hit = match dag.get(uid.as_str()) {
            Some(n) => is_exposure(n),
            None => false,
        };
        if hit {
            out.push(uid.clone());
            assert(out.deep_view() =~= o.push(uid@));
        }
        i = i + 1;
    }
    assert(items.take(items.len() as int) =~= items);
    out
}

/// A copy of a list of pairs.
pub fn clone_pairs(v: &Vec<(String, String)>) -> (r: Vec<(String, String)>)
    ensures
        r.deep_view() == v.deep_view(),
{
    let mut out: Vec<(String, String)> = Vec::new();
    let mut i: usize = 0;
    while i < v.len()
        invariant
            i <= v@.len(),
            out@.len() == i,
            forall|j: int| 0 <= j < i ==> (#[trigger] out@[j]).deep_view() == v@[j].deep_view(),
        decreases v@.len() - i,
    {
        out.push((v[i].0.clone(), v[i].1.clone()));
        i = i + 1;
    }
    assert(out.deep_view() =~= v.deep_view());
    out
}

// ---- the dashboards ----

/// The name and resource type of an id; the id and nothing where it is unknown.
pub open spec fn name_and_kind(d: DagModel, u: Text) -> (Text, Text) {
    if d.nodes.contains_key(u) {
        (d.nodes[u].name, d.nodes[u].resource_type)
    } else {
        (u, Seq::empty())
    }
}

/// What the diff modal shows of a difference.
pub open spec fn diff_view_of(a: AppModel) -> Option<DiffViewModel> {
    match a.diff {
        None => None,
        Some(d) => Some(
            DiffViewModel {
                baseline: a.diff_label,
                added: in_order::<(String, String)>(listing(d.added).map_values(|u: Text| name_and_kind(a.dag, u))),
                removed: d.removed,
                modified: in_order::<(String, String)>(
                    listing(d.modified.dom()).map_values(
                        |u: Text| (name_and_kind(a.dag, u).0, joined(d.modified[u], "; "@)),
                    ),
                ),
                edges_added: d.edges_added,
                edges_removed: d.edges_removed,
                pr: impact_of(a.diff_base, a.dag, d),
                scroll: 0,
            },
        ),
    }
}

/// What the stats dashboard shows.
#[verifier::opaque]
pub open spec fn stats_view_of(a: AppModel) -> StatsViewModel {
    let d = a.dag;
    let total = passing(d, NodeTest::Testable).len() as usize;
    let tested = passing(d, NodeTest::Tested).len() as usize;
    StatsViewModel {
        project: a.stats.project,
        by_resource_type: tally_of(passing(d, NodeTest::Any).map_values(|u: Text| d.nodes[u].resource_type)),
        by_materialization: tally_of(passing(d, NodeTest::Model).map_values(|u: Text| shown(d.nodes[u].materialized))),
        testable_total: total,
        testable_tested: tested,
        top_hubs: top_five(passing(d, NodeTest::Any).map_values(|u: Text| degree_hub(d, u))),
        transitive_hubs: top_five(passing(d, NodeTest::Any).map_values(|u: Text| blast_hub(d, u))).map_values(
            |h: (Text, Text, usize)| (h.1, h.2),
        ),
        orphan_models: in_order::<String>(passing(d, NodeTest::Orphan).map_values(|u: Text| d.nodes[u].name)),
        layer_violations: in_order::<(String, String)>(
            violations_of(d).map_values(|e: (Text, Text)| (name_in(d, e.0), name_in(d, e.1))),
        ),
        critical_path: chain_names(d),
        untested_testable: (total - tested) as usize,
        zero_downstream_models: passing(d, NodeTest::Leaf).len() as usize,
        no_description_models: passing(d, NodeTest::Undescribed).len() as usize,
        scroll: 0,
    }
}

/// No more nodes are tested than could be.
pub proof fn tested_within_testable(d: DagModel)
    ensures
        passing(d, NodeTest::Tested).len() <= passing(d, NodeTest::Testable).len(),
{
    filter_shrinks(
        listing(d.nodes.dom()),
        |u: Text| passes(d, NodeTest::Tested, u),
        |u: Text| passes(d, NodeTest::Testable, u),
    );
}

proof fn filter_shrinks(s: Seq<Text>, p: spec_fn(Text) -> bool, q: spec_fn(Text) -> bool)
    requires
        forall|u: Text| #[trigger] p(u) ==> q(u),
    ensures
        s.filter(p).len() <= s.filter(q).len(),
    decreases s.len(),
{
    reveal(Seq::filter);
    if s.len() > 0 {
        filter_shrinks(s.drop_last(), p, q);
    }
}

/// The text of the impact segment of the status bar.
pub open spec fn impact_text(a: AppModel) -> Option<Text> {
    match a.selected_id() {
        None => None,
        Some(uid) => {
            let b = breakdown(a.dag, uid);
            let base = "impact "@ + down_badge(a.glyphs) + decimal(b.0) + " "@ + up_badge(a.glyphs) + decimal(b.1);
            Some(
                if b.2 > 0 {
                    base + " exp:"@ + decimal(b.2)
                } else {
                    base
                },
            )
        },
    }
}

/// What of a node a list of ids is turned into.
pub(crate) enum Column {
    ResourceType,
    Materialization,
    Name,
}

pub(crate) open spec fn column_of(d: DagModel, c: Column, u: Text) -> Text {
    match c {
        Column::ResourceType => d.nodes[u].resource_type,
        Column::Materialization => shown(d.nodes[u].materialized),
        Column::Name => d.nodes[u].name,
    }
}

pub(crate) fn texts_of(dag: &Dag, ids: &Vec<String>, c: Column) -> (r: Vec<String>)
    requires
        dag.wf(),
        forall|i: int| 0 <= i < ids@.len() ==> dag.deep_view().nodes.contains_key((#[trigger] ids@[i])@),
    ensures
        r.deep_view() == ids.deep_view().map_values(|u: Text| column_of(dag.deep_view(), c, u)),
{
    let ghost d = dag.deep_view();
    let mut out: Vec<String> = Vec::new();
    let mut i: usize = 0;
    while i < ids.len()
        invariant
            dag.wf(),
            d == dag.deep_view(),
            forall|i: int| 0 <= i < ids@.len() ==> d.nodes.contains_key((#[trigger] ids@[i])@),
            i <= ids@.len(),
            out@.len() == i,
            forall|j: int| 0 <= j < i ==> (#[trigger] out@[j])@ == column_of(d, c, ids@[j]@),
        decreases ids@.len() - i,
    {
        let ghost u = ids@[i as int]@;
        assert(d.nodes.contains_key(ids@[i as int]@));
        match dag.get(ids[i].as_str()) {
            Some(n) => {
                let text = match c {
                    Column::ResourceType => n.resource_type.clone(),
                    Column::Materialization => match &n.materialized {
                        Some(m) => m.clone(),
                        None => "(none)".to_owned(),
                    },
                    Column::Name => n.name.clone(),
                };
                out.push(text);
            },
            None => {},
        }
        i = i + 1;
    }
    assert(out.deep_view() =~= ids.deep_view().map_values(|u: Text| column_of(d, c, u)));
    out
}

pub(crate) fn hubs_of(dag: &Dag, ids: &Vec<String>, transitive: bool) -> (r: Vec<(String, String, usize)>)
    requires
        dag.wf(),
        forall|i: int| 0 <= i < ids@.len() ==> dag.deep_view().nodes.contains_key((#[trigger] ids@[i])@),
    ensures
        r.deep_view() == (if transitive {
            ids.deep_view().map_values(|u: Text| blast_hub(dag.deep_view(), u))
        } else {
            ids.deep_view().map_values(|u: Text| degree_hub(dag.deep_view(), u))
        }),
{
    let ghost d = dag.deep_view();
    let mut out: Vec<(String, String, usize)> = Vec::new();
    let mut i: usize = 0;
    while i < ids.len()
        invariant
            dag.wf(),
            d == dag.deep_view(),
            forall|i: int| 0 <= i < ids@.len() ==> d.nodes.contains_key((#[trigger] ids@[i])@),
            i <= ids@.len(),
            out@.len() == i,
            forall|j: int| 0 <= j < i ==> (#[trigger] out@[j]).deep_view() == (if transitive {
                blast_hub(d, ids@[j]@)
            } else {
                degree_hub(d, ids@[j]@)
            }),
        decreases ids@.len() - i,
    {
        assert(d.nodes.contains_key(ids@[i as int]@));
        match dag.get(ids[i].as_str()) {
            Some(n) => {
                let count: usize = if transitive {
                    dag.downstream(ids[i].as_str()).len()
                } else {
                    plus(n.direct_up, n.direct_down)
                };
                out.push((ids[i].clone(), n.name.clone(), count));
            },
            None => {},
        }
        i = i + 1;
    }
    proof {
        if transitive {
            assert(out.deep_view() =~= ids.deep_view().map_values(|u: Text| blast_hub(d, u)));
        } else {
            assert(out.deep_view() =~= ids.deep_view().map_values(|u: Text| degree_hub(d, u)));
        }
    }
    out
}

pub(crate) fn named_edges(dag: &Dag, edges: &Vec<(String, String)>) -> (r: Vec<(String, String)>)
    requires
        dag.wf(),
    ensures
        r.deep_view() == edges.deep_view().map_values(
            |e: (Text, Text)| (name_in(dag.deep_view(), e.0), name_in(dag.deep_view(), e.1)),
        ),
{
    let ghost d = dag.deep_view();
    let mut out: Vec<(String, String)> = Vec::new();
    let mut i: usize = 0;
    while i < edges.len()
        invariant
            dag.wf(),
            d == dag.deep_view(),
            i <= edges@.len(),
            out@.len() == i,
            forall|j: int| 0 <= j < i ==> (#[trigger] out@[j]).deep_view() == (name_in(d, edges@[j].0@), name_in(d, edges@[j].1@)),
        decreases edges@.len() - i,
    {
        let p = match dag.get(edges[i].0.as_str()) {
            Some(n) => n.name.clone(),
            None => edges[i].0.clone(),
        };
        let c = match dag.get(edges[i].1.as_str()) {
            Some(n) => n.name.clone(),
            None => edges[i].1.clone(),
        };
        out.push((p, c));
        i = i + 1;
    }
    assert(out.deep_view() =~= edges.deep_view().map_values(|e: (Text, Text)| (name_in(d, e.0), name_in(d, e.1))));
    out
}

impl App {
    fn named(&self, u: &str) -> (r: (String, String))
        requires
            self.parts(),
        ensures
            r.deep_view() == name_and_kind(self.deep_view().dag, u@),
    {
        match self.dag.get(u) {
            Some(n) => (n.name.clone(), n.resource_type.clone()),
            None => (u.to_owned(), String::new()),
        }
    }

    /// What the diff modal shows, with the analysis for a pull request; `None`
    /// without a baseline.
    pub fn compute_diff_view(&self) -> (r: Option<DiffView>)
        requires
            self.parts(),
        ensures
            r.deep_view() == diff_view_of(self.deep_view()),
    {
        let ghost a = self.deep_view();
        let diff = match self.diff() {
            Some(d) => d,
            None => {
                return None;
            },
        };
        let ghost dv = diff.deep_view();
        let ghost items = diff.added.items();
        let mut added: Vec<(String, String)> = Vec::new();
        let mut i: usize = 0;
        proof {
            diff.added.items_listed();
        }
        while i < diff.added.len()
            invariant
                self.parts(),
                diff.wf(),
                a == self.deep_view(),
                items == diff.added.items(),
                i <= items.len(),
                added@.len() == i,
                forall|j: int| 0 <= j < i ==> (#[trigger] added@[j]).deep_view() == name_and_kind(a.dag, items[j]),
            decreases items.len() - i,
        {
            added.push(self.named(diff.added.at(i).as_str()));
            i = i + 1;
        }
        assert(added.deep_view() =~= listing(dv.added).map_values(|u: Text| name_and_kind(a.dag, u)));
        let ghost keys = diff.modified.key_list();
        let mut modified: Vec<(String, String)> = Vec::new();
        let mut k: usize = 0;
        proof {
            diff.modified.keys_listed();
            assert(dv.modified.dom() =~= diff.modified@.dom());
        }
        while k < diff.modified.len()
            invariant
                self.parts(),
                diff.wf(),
                a == self.deep_view(),
                dv == diff.deep_view(),
                keys == diff.modified.key_list(),
                k <= keys.len(),
                modified@.len() == k,
                forall|j: int| 0 <= j < k ==> (#[trigger] modified@[j]).deep_view() == (
                    name_and_kind(a.dag, keys[j]).0,
                    joined(dv.modified[keys[j]], "; "@),
                ),
            decreases keys.len() - k,
        {
            let uid = diff.modified.key_at(k);
            let reasons = diff.modified.value_at(k);
            let name = self.named(uid.as_str()).0;
            let text = join_from(reasons, 0, "; ");
            proof {
                assert(reasons.deep_view().skip(0) =~= reasons.deep_view());
                assert(dv.modified[uid@] == reasons.deep_view());
            }
            modified.push((name, text));
            k = k + 1;
        }
        assert(modified.deep_view() =~= listing(dv.modified.dom()).map_values(
            |u: Text| (name_and_kind(a.dag, u).0, joined(dv.modified[u], "; "@)),
        ));
        Some(
            DiffView {
                baseline: self.diff_label().to_owned(),
                added: sort(added),
                removed: clone_pairs(&diff.removed),
                modified: sort(modified),
                edges_added: clone_pairs(&diff.edges_added),
                edges_removed: clone_pairs(&diff.edges_removed),
                pr: pr_impact_data(self.diff_base.as_ref(), &self.dag, diff),
                scroll: 0,
            },
        )
    }

    /// What the stats dashboard shows of the graph.
    pub fn compute_stats_view(&self) -> (r: StatsView)
        requires
            self.parts(),
        ensures
            r.deep_view() == stats_view_of(self.deep_view()),
    {
        proof {
            reveal(stats_view_of);
        }
        let ghost a = self.deep_view();
        let dag = &self.dag;
        let ghost d = dag.deep_view();
        let all = ids_passing(dag, NodeTest::Any);
        let models = ids_passing(dag, NodeTest::Model);
        let orphans = ids_passing(dag, NodeTest::Orphan);
        let types = texts_of(dag, &all, Column::ResourceType);
        let mats = texts_of(dag, &models, Column::Materialization);
        let orphan_names = texts_of(dag, &orphans, Column::Name);
        proof {
            assert(types.deep_view() =~= passing(d, NodeTest::Any).map_values(|u: Text| d.nodes[u].resource_type));
            assert(mats.deep_view() =~= passing(d, NodeTest::Model).map_values(|u: Text| shown(d.nodes[u].materialized)));
            assert(orphan_names.deep_view() =~= passing(d, NodeTest::Orphan).map_values(|u: Text| d.nodes[u].name));
            tested_within_testable(d);
        }
        let blast = top(hubs_of(dag, &all, true));
        let ghost blast_v = blast.deep_view();
        let mut transitive_hubs: Vec<(String, usize)> = Vec::new();
        let mut i: usize = 0;
        while i < blast.len()
            invariant
                i <= blast@.len(),
                blast_v == blast.deep_view(),
                transitive_hubs@.len() == i,
                forall|j: int| 0 <= j < i ==> (#[trigger] transitive_hubs@[j]).deep_view() == (blast_v[j].1, blast_v[j].2),
            decreases blast@.len() - i,
        {
            assert(blast_v[i as int] == blast@[i as int].deep_view());
            transitive_hubs.push((blast[i].1.clone(), blast[i].2));
            i = i + 1;
        }
        assert(transitive_hubs.deep_view() =~= blast_v.map_values(|h: (Text, Text, usize)| (h.1, h.2)));
        let (tested, total) = self.coverage_summary();
        let violations = layer_violation_edges(dag);
        StatsView {
            project: self.stats.project.clone(),
            by_resource_type: tally(&types),
            by_materialization: tally(&mats),
            testable_total: total,
            testable_tested: tested,
            top_hubs: top(hubs_of(dag, &all, false)),
            transitive_hubs,
            orphan_models: sort(orphan_names),
            layer_violations: sort(named_edges(dag, &violations)),
            critical_path: longest_chain(dag),
            untested_testable: total - tested,
            zero_downstream_models: ids_passing(dag, NodeTest::Leaf).len(),
            no_description_models: ids_passing(dag, NodeTest::Undescribed).len(),
            scroll: 0,
        }
    }

    /// The numbers of tested and of testable nodes: models, snapshots, seeds.
    pub fn coverage_summary(&self) -> (r: (usize, usize))
        requires
            self.parts(),
        ensures
            r.0 == passing(self.deep_view().dag, NodeTest::Tested).len(),
            r.1 == passing(self.deep_view().dag, NodeTest::Testable).len(),
            r.0 <= r.1,
    {
        proof {
            tested_within_testable(self.deep_view().dag);
        }
        let tested = ids_passing(&self.dag, NodeTest::Tested);
        let total = ids_passing(&self.dag, NodeTest::Testable);
        assert(tested@.len() == tested.deep_view().len());
        assert(total@.len() == total.deep_view().len());
        (tested.len(), total.len())
    }

    /// The blast radius of the selected node: its numbers of descendants,
    /// exposures not counted, and of ancestors.
    pub fn impact_counts(&self) -> (r: Option<(usize, usize)>)
        requires
            self.parts(),
        ensures
            match self.deep_view().selected_id() {
                Some(uid) => r is Some && (r->0).0 == breakdown(self.deep_view().dag, uid).0 && (r->0).1 == breakdown(
                    self.deep_view().dag,
                    uid,
                ).1,
                None => r is None,
            },
    {
        match self.selected_unique_id() {
            Some(uid) => Some(self.impact_counts_for(uid.as_str())),
            None => None,
        }
    }

    /// The blast radius of a node: its numbers of descendants, exposures not
    /// counted, and of ancestors.
    pub fn impact_counts_for(&self, uid: &str) -> (r: (usize, usize))
        requires
            self.parts(),
        ensures
            r.0 == breakdown(self.deep_view().dag, uid@).0,
            r.1 == breakdown(self.deep_view().dag, uid@).1,
    {
        let b = self.impact_breakdown_for(uid);
        (b.0, b.1)
    }

    /// The numbers of descendants without exposures, of ancestors, and of
    /// descendant exposures.
    pub fn impact_breakdown_for(&self, uid: &str) -> (r: (usize, usize, usize))
        requires
            self.parts(),
        ensures
            r.0 == breakdown(self.deep_view().dag, uid@).0,
            r.1 == breakdown(self.deep_view().dag, uid@).1,
            r.2 == breakdown(self.deep_view().dag, uid@).2,
    {
        let down = self.dag.downstream(uid);
        let exposures = exposures_in(&self.dag, &down);
        assert(exposures@.len() == exposures.deep_view().len());
        let n: usize = down.len();
        (n - exposures.len(), self.dag.upstream(uid).len(), exposures.len())
    }

    /// The descendant exposures of a node by name, each with what is recorded.
    pub fn downstream_exposures(&self, uid: &str) -> (r: Vec<(&NodeInfo, Option<&ExposureInfo>)>)
        requires
            self.parts(),
        ensures
            r.deep_view() == exposures_below(self.deep_view().dag, uid@),
    {
        let ghost d = self.dag.deep_view();
        let ids = exposures_in(&self.dag, &self.dag.downstream(uid));
        let mut pairs: Vec<(String, String)> = Vec::new();
        let mut i: usize = 0;
        while i < ids.len()
            invariant
                self.parts(),
                d == self.dag.deep_view(),
                forall|i: int| 0 <= i < ids@.len() ==> d.nodes.contains_key((#[trigger] ids@[i])@),
                i <= ids@.len(),
                pairs@.len() == i,
                forall|j: int| 0 <= j < i ==> (#[trigger] pairs@[j]).deep_view() == (d.nodes[ids@[j]@].name, ids@[j]@),
            decreases ids@.len() - i,
        {
            assert(d.nodes.contains_key(ids@[i as int]@));
            match self.dag.get(ids[i].as_str()) {
                Some(n) => {
                    pairs.push((n.name.clone(), ids[i].clone()));
                },
                None => {},
            }
            i = i + 1;
        }
        let ghost pv = exposed_ids(d, uid@).map_values(|u: Text| (d.nodes[u].name, u));
        assert(pairs.deep_view() =~= pv);
        proof {
            in_order_sorted::<(String, String)>(pv);
            assert forall|p: (Text, Text)| in_order::<(String, String)>(pv).contains(p) implies d.nodes.contains_key(p.1) by {
                assert(pv.contains(p));
                let k = pv.index_of(p);
                assert(d.nodes.contains_key(ids@[k]@));
            }
        }
        let ordered = sort(pairs);
        let ghost ov = ordered.deep_view();
        let mut out: Vec<(&NodeInfo, Option<&ExposureInfo>)> = Vec::new();
        let mut k: usize = 0;
        while k < ordered.len()
            invariant
                self.parts(),
                d == self.dag.deep_view(),
                ov == ordered.deep_view(),
                forall|p: (Text, Text)| ov.contains(p) ==> d.nodes.contains_key(p.1),
                k <= ordered@.len(),
                out@.len() == k,
                forall|j: int| 0 <= j < k ==> (#[trigger] out@[j]).deep_view() == (d.nodes[ov[j].1], exposure_at(d, ov[j].1)),
            decreases ordered@.len() - k,
        {
            proof {
                assert(ov[k as int] == ordered@[k as int].deep_view());
                assert(ov.contains(ov[k as int]));
            }
            match self.dag.get(ordered[k].1.as_str()) {
                Some(n) => {
                    out.push((n, self.dag.exposure(ordered[k].1.as_str())));
                },
                None => {},
            }
            k = k + 1;
        }
        assert(out.deep_view() =~= exposures_below(d, uid@));
        out
    }

    /// The impact segment of the status bar; `None` where nothing is selected.
    pub fn impact_status(&self) -> (r: Option<String>)
        requires
            self.parts(),
        ensures
            r.deep_view() == impact_text(self.deep_view()),
    {
        match self.selected_unique_id() {
            None => None,
            Some(uid) => {
                let (down, up, exposures) = self.impact_breakdown_for(uid.as_str());
                let c = chrome(self.glyph_mode);
                let mut out = "impact ".to_owned();
                out.append(c.badge_down);
                push_decimal(&mut out, down);
                out.append(" ");
                out.append(c.badge_up);
                push_decimal(&mut out, up);
                if exposures > 0 {
                    out.append(" exp:");
                    push_decimal(&mut out, exposures);
                }
                Some(out)
            },
        }
    }
}

} // verus!
