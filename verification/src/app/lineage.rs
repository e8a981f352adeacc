//! The lineage of the selected model: its subgraph, the cursor that walks over
//! it, the path from the root to the cursor, and the trail of re-roots.

use vstd::prelude::*;

use crate::action::{Direction, Mode, ModeModel, SearchTarget};
use crate::dag::{at, push_at, subgraph_closed, subgraph_of, Edge, NodeModel, Subgraph, SubgraphModel};
use crate::graph::{neighbours, Adjacency};
use crate::layout::{capped, layout_density, layout_of, mid_row, middle, plus, GlyphMode, Layout, LayoutModel, Rect};
use crate::model_list::{name_matches_query, subsequence};
use crate::sorted::{listing, StrMap, StrSet};
use crate::text::{
    chars_of, decimal, join_from, joined, push_decimal, str_eq, str_lt, string_of, text_lt, trim, trimmed, Text,
};
use crate::ui::Focus;
use super::{coherent, App, AppModel, LineageView};

verus! {

// ---- what the lineage is ----

/// A subgraph without nodes.
pub open spec fn no_subgraph() -> SubgraphModel {
    SubgraphModel { selected: Seq::empty(), nodes: Seq::empty(), edges: Seq::empty() }
}

impl AppModel {
    /// The lineage of the selected model under the active view.
    pub open spec fn subgraph(self) -> SubgraphModel {
        match self.selected_id() {
            Some(uid) => subgraph_of(self.dag, uid, self.view.upstream, self.view.downstream, self.view.depth),
            None => no_subgraph(),
        }
    }

    /// The cursor, where it is on a node of the lineage; else the root.
    pub open spec fn cursor_id(self) -> Option<Text> {
        if self.cursor is Some && self.subgraph().has(self.cursor->0) {
            self.cursor
        } else {
            self.selected_id()
        }
    }

    /// The lineage with the cursor in place of the root as the selected node.
    pub open spec fn display_subgraph(self) -> SubgraphModel {
        if self.cursor is Some && self.subgraph().has(self.cursor->0) {
            SubgraphModel { selected: self.cursor->0, ..self.subgraph() }
        } else {
            self.subgraph()
        }
    }

    /// The diagram of the lineage pane, without styles.
    pub open spec fn diagram(self) -> LayoutModel {
        layout_of(self.display_subgraph(), self.glyphs, self.ui.density)
    }

    /// What an overlay opens on: the cursor while the lineage has the focus,
    /// else the selection.
    pub open spec fn focus_id(self) -> Option<Text> {
        if self.ui.focus == Focus::RightPane {
            self.cursor_id()
        } else {
            self.selected_id()
        }
    }

    /// After a click on a node of the lineage: a listed model becomes the root
    /// and the cursor goes home; any other node of the lineage gets the cursor.
    pub open spec fn clicked(self, uid: Text) -> AppModel {
        let a = self.jumped(uid);
        if a.selected_id() == Some(uid) {
            AppModel { cursor: None, ..a }
        } else if a.subgraph().has(uid) {
            AppModel { cursor: Some(uid), ..a }
        } else {
            a
        }
    }

    /// The ids of the lineage whose names match a query; none for a blank one.
    pub open spec fn matches_of(self, query: Text) -> Seq<Text> {
        if trimmed(query).len() == 0 {
            Seq::empty()
        } else {
            self.subgraph().nodes.filter(|n: NodeModel| subsequence(query, n.name)).map_values(|n: NodeModel| n.unique_id)
        }
    }

    /// The match that an open lineage search points at.
    pub open spec fn current_match(self) -> Option<Text> {
        match self.mode {
            ModeModel::Search(s) => if s.target == SearchTarget::Lineage && self.matches_of(s.query).len() > 0 {
                Some(self.matches_of(s.query)[s.match_idx as int % self.matches_of(s.query).len() as int])
            } else {
                None
            },
            _ => None,
        }
    }

    /// After a step of the cursor.
    #[verifier::opaque]
    pub open spec fn cursor_moved(self, dir: Direction) -> AppModel {
        match self.cursor_id() {
            Some(cur) => match step_target(self.diagram(), cur, dir) {
                Some(u) => AppModel { cursor: Some(u), ..self },
                None => self,
            },
            None => self,
        }
    }

    /// After a jump of the cursor to the first or last column.
    #[verifier::opaque]
    pub open spec fn cursor_at_extreme(self, rightmost: bool) -> AppModel {
        match self.cursor_id() {
            Some(cur) => match extreme_target(self.diagram(), cur, rightmost) {
                Some(u) => AppModel { cursor: Some(u), ..self },
                None => self,
            },
            None => self,
        }
    }
}

// ---- moving over the diagram ----

/// The best of `keys` that is `ok`: the one that nothing later or earlier
/// beats under `lt`.
pub open spec fn pick(keys: Seq<Text>, ok: spec_fn(Text) -> bool, lt: spec_fn(Text, Text) -> bool) -> Option<Text>
    decreases keys.len(),
{
    if keys.len() == 0 {
        None
    } else {
        let best = pick(keys.drop_last(), ok, lt);
        let k = keys.last();
        if !ok(k) {
            best
        } else {
            match best {
                Some(b) => if lt(k, b) {
                    Some(k)
                } else {
                    Some(b)
                },
                None => Some(k),
            }
        }
    }
}

/// `a` stands above `b`; the id decides between equal rows.
pub open spec fn above(l: LayoutModel, a: Text, b: Text) -> bool {
    l.rects[a].y < l.rects[b].y || (l.rects[a].y == l.rects[b].y && text_lt(a, b))
}

/// The distance between two rows.
pub open spec fn rows_apart(a: usize, b: usize) -> int {
    if a < b {
        b - a
    } else {
        a - b
    }
}

/// `a` is nearer to the row `mid` than `b`; of two equally near the upper one.
pub open spec fn nearer(l: LayoutModel, mid: usize, a: Text, b: Text) -> bool {
    let da = rows_apart(mid, middle(l.rects[a]));
    let db = rows_apart(mid, middle(l.rects[b]));
    da < db || (da == db && above(l, a, b))
}

/// A drawn node of column `c`.
pub open spec fn in_column(l: LayoutModel, u: Text, c: usize) -> bool {
    l.columns.contains_key(u) && l.columns[u] == c
}

/// The node of column `c` that is nearest to the middle of `cur`.
pub open spec fn nearest_in(l: LayoutModel, cur: Text, c: usize) -> Option<Text> {
    pick(
        listing(l.rects.dom()),
        |u: Text| in_column(l, u, c),
        |a: Text, b: Text| nearer(l, middle(l.rects[cur]), a, b),
    )
}

/// Where a step from `cur` leads: up and down to the neighbour in the same
/// column, left and right to the nearest node of the next column. None at an
/// edge of the diagram.
pub open spec fn step_target(l: LayoutModel, cur: Text, dir: Direction) -> Option<Text> {
    if !l.rects.contains_key(cur) || !l.columns.contains_key(cur) {
        None
    } else {
        let c = l.columns[cur];
        match dir {
            Direction::Down => pick(
                listing(l.rects.dom()),
                |u: Text| in_column(l, u, c) && above(l, cur, u),
                |a: Text, b: Text| above(l, a, b),
            ),
            Direction::Up => pick(
                listing(l.rects.dom()),
                |u: Text| in_column(l, u, c) && above(l, u, cur),
                |a: Text, b: Text| above(l, b, a),
            ),
            Direction::Left => if c == 0 {
                None
            } else {
                nearest_in(l, cur, (c - 1) as usize)
            },
            Direction::Right => nearest_in(l, cur, capped(c + 1)),
        }
    }
}

/// The last column of the first `n` keys.
pub open spec fn last_column(l: LayoutModel, keys: Seq<Text>) -> usize
    decreases keys.len(),
{
    if keys.len() == 0 {
        0
    } else {
        crate::layout::larger(last_column(l, keys.drop_last()), l.columns[keys.last()])
    }
}

/// The node of the first or the last column that is nearest to `cur`.
pub open spec fn extreme_target(l: LayoutModel, cur: Text, rightmost: bool) -> Option<Text> {
    if !l.rects.contains_key(cur) {
        None
    } else {
        let c = if rightmost {
            last_column(l, listing(l.columns.dom()))
        } else {
            0
        };
        nearest_in(l, cur, c)
    }
}

fn is_above(a: Rect, a_id: &str, b: Rect, b_id: &str) -> (r: bool)
    ensures
        r == (a.y < b.y || (a.y == b.y && text_lt(a_id@, b_id@))),
{
    a.y < b.y || (a.y == b.y && str_lt(a_id, b_id))
}

fn apart(a: usize, b: usize) -> (r: usize)
    ensures
        r == rows_apart(a, b),
{
    if a < b {
        b - a
    } else {
        a - b
    }
}

fn is_nearer(mid: usize, a: Rect, a_id: &str, b: Rect, b_id: &str) -> (r: bool)
    ensures
        r == ({
            let da = rows_apart(mid, middle(a));
            let db = rows_apart(mid, middle(b));
            da < db || (da == db && (a.y < b.y || (a.y == b.y && text_lt(a_id@, b_id@))))
        }),
{
    let da = apart(mid, mid_row(a));
    let db = apart(mid, mid_row(b));
    da < db || (da == db && is_above(a, a_id, b, b_id))
}

/// Which of two candidates a walk over the keys prefers.
enum Wish {
    /// The next one below the cursor.
    Below,
    /// The next one above the cursor.
    Above,
    /// The one nearest to the cursor's row.
    Near,
}

spec fn wish_ok(l: LayoutModel, w: Wish, cur: Text, c: usize) -> spec_fn(Text) -> bool {
    match w {
        Wish::Below => |u: Text| in_column(l, u, c) && above(l, cur, u),
        Wish::Above => |u: Text| in_column(l, u, c) && above(l, u, cur),
        Wish::Near => |u: Text| in_column(l, u, c),
    }
}

spec fn wish_lt(l: LayoutModel, w: Wish, cur: Text) -> spec_fn(Text, Text) -> bool {
    match w {
        Wish::Below => |a: Text, b: Text| above(l, a, b),
        Wish::Above => |a: Text, b: Text| above(l, b, a),
        Wish::Near => |a: Text, b: Text| nearer(l, middle(l.rects[cur]), a, b),
    }
}

/// The candidate of column `c` that the wish prefers.
fn find(lay: &Layout, cur: &str, cur_rect: Rect, c: usize, wish: Wish) -> (r: Option<String>)
    requires
        lay.wf(),
        lay.deep_view().rects.contains_key(cur@),
        lay.deep_view().rects[cur@] == cur_rect,
    ensures
        r.deep_view() == pick(
            listing(lay.deep_view().rects.dom()),
            wish_ok(lay.deep_view(), wish, cur@, c),
            wish_lt(lay.deep_view(), wish, cur@),
        ),
{
    let ghost l = lay.deep_view();
    let ghost keys = lay.rects.key_list();
    let ghost ok = wish_ok(l, wish, cur@, c);
    let ghost lt = wish_lt(l, wish, cur@);
    let mid = mid_row(cur_rect);
    let mut best: Option<usize> = None;
    let mut i: usize = 0;
    proof {
        lay.rects.keys_listed();
    }
    while i < lay.rects.len()
        invariant
            lay.wf(),
            l == lay.deep_view(),
            keys == lay.rects.key_list(),
            ok == wish_ok(l, wish, cur@, c),
            lt == wish_lt(l, wish, cur@),
            l.rects[cur@] == cur_rect,
            mid == middle(cur_rect),
            i <= keys.len(),
            best matches Some(b) ==> b < i && pick(keys.take(i as int), ok, lt) == Some(keys[b as int]),
            best is None ==> pick(keys.take(i as int), ok, lt) is None,
        decreases keys.len() - i,
    {
        let key = lay.rects.key_at(i);
        let rect = *lay.rects.value_at(i);
        proof {
            assert(keys.take(i + 1).drop_last() =~= keys.take(i as int));
            assert(l.rects[key@] == rect);
        }
        let here = match lay.columns.get(key.as_str()) {
            Some(k) => *k == c,
            None => false,
        };
        let fits = here && match wish {
            Wish::Below => is_above(cur_rect, cur, rect, key.as_str()),
            Wish::Above => is_above(rect, key.as_str(), cur_rect, cur),
            Wish::Near => true,
        };
        assert(fits == ok(key@));
        if fits {
            match best {
                Some(b) => {
                    let other = lay.rects.key_at(b);
                    let other_rect = *lay.rects.value_at(b);
                    assert(l.rects[other@] == other_rect);
                    let wins = match wish {
                        Wish::Below => is_above(rect, key.as_str(), other_rect, other.as_str()),
                        Wish::Above => is_above(other_rect, other.as_str(), rect, key.as_str()),
                        Wish::Near => is_nearer(mid, rect, key.as_str(), other_rect, other.as_str()),
                    };
                    assert(wins == lt(key@, other@));
                    if wins {
                        best = Some(i);
                    }
                },
                None => {
                    best = Some(i);
                },
            }
        }
        i = i + 1;
    }
    assert(keys.take(keys.len() as int) =~= keys);
    match best {
        Some(b) => Some(lay.rects.key_at(b).clone()),
        None => None,
    }
}

// ---- the path from the root to the cursor ----

/// Each edge in both directions, in edge order.
pub open spec fn undirected(edges: Seq<(Text, Text)>) -> Adjacency
    decreases edges.len(),
{
    if edges.len() == 0 {
        Map::empty()
    } else {
        let r = undirected(edges.drop_last());
        let (p, c) = edges.last();
        let s = r.insert(p, at(r, p).push(c));
        s.insert(c, at(s, c).push(p))
    }
}

/// What a search has found: where each node was first reached from, and the
/// nodes of the next level in the order of discovery.
pub struct Found {
    pub prev: Map<Text, Text>,
    pub next: Seq<Text>,
}

/// After looking at the neighbours `ns` of `u`.
pub open spec fn looked_at(u: Text, ns: Seq<Text>, f: Found, root: Text) -> Found
    decreases ns.len(),
{
    if ns.len() == 0 {
        f
    } else {
        let r = looked_at(u, ns.drop_last(), f, root);
        let v = ns.last();
        if v == root || r.prev.contains_key(v) {
            r
        } else {
            Found { prev: r.prev.insert(v, u), next: r.next.push(v) }
        }
    }
}

/// After expanding a whole level.
pub open spec fn expanded(adj: Adjacency, front: Seq<Text>, prev: Map<Text, Text>, root: Text) -> Found
    decreases front.len(),
{
    if front.len() == 0 {
        Found { prev, next: Seq::empty() }
    } else {
        looked_at(front.last(), neighbours(adj, front.last()), expanded(adj, front.drop_last(), prev, root), root)
    }
}

/// Where each node is first reached from, level by level, over `n` levels.
pub open spec fn searched(adj: Adjacency, front: Seq<Text>, prev: Map<Text, Text>, root: Text, n: nat) -> Map<Text, Text>
    decreases n,
{
    if n == 0 || front.len() == 0 {
        prev
    } else {
        let f = expanded(adj, front, prev, root);
        searched(adj, f.next, f.prev, root, (n - 1) as nat)
    }
}

/// The way back from a node to the root, at most `n` hops.
pub open spec fn traced(prev: Map<Text, Text>, node: Text, root: Text, n: nat) -> Seq<Text>
    decreases n,
{
    if n == 0 || node == root || !prev.contains_key(node) {
        seq![node]
    } else {
        seq![node] + traced(prev, prev[node], root, (n - 1) as nat)
    }
}

/// Where each node of a subgraph is first reached from, starting at `root` and
/// following edges either way.
pub open spec fn reached_from(sg: SubgraphModel, root: Text) -> Map<Text, Text> {
    searched(undirected(sg.edges), seq![root], Map::empty(), root, sg.nodes.len())
}

impl AppModel {
    /// The path from the cursor back to the root: the way on which a search
    /// from the root, level by level over the edges in either direction, first
    /// came to the cursor. Empty with the cursor at home.
    pub open spec fn path(self) -> Seq<Text> {
        match (self.selected_id(), self.cursor_id()) {
            (Some(root), Some(cursor)) => if root == cursor || !reached_from(self.subgraph(), root).contains_key(cursor) {
                Seq::empty()
            } else {
                traced(reached_from(self.subgraph(), root), cursor, root, self.subgraph().nodes.len())
            },
            _ => Seq::empty(),
        }
    }

    /// The edges of the path, each from parent to child.
    pub open spec fn path_edges(self) -> Seq<(Text, Text)> {
        edges_along(self.path(), self.subgraph().edges)
    }
}

/// The edges between consecutive nodes of a path, each as it stands in `edges`.
pub open spec fn edges_along(path: Seq<Text>, edges: Seq<(Text, Text)>) -> Seq<(Text, Text)> {
    if path.len() == 0 {
        Seq::empty()
    } else {
        Seq::new(
            (path.len() - 1) as nat,
            |i: int|
                if edges.contains((path[i + 1], path[i])) {
                    (path[i + 1], path[i])
                } else {
                    (path[i], path[i + 1])
                },
        )
    }
}

fn both_ways(edges: &Vec<Edge>) -> (r: StrMap<Vec<String>>)
    ensures
        r.wf(),
        r.deep_view() == undirected(edges.deep_view()),
{
    let ghost all = edges.deep_view();
    let mut adj: StrMap<Vec<String>> = StrMap::new();
    let mut i: usize = 0;
    assert(adj.deep_view() =~= undirected(all.take(0)));
    while i < edges.len()
        invariant
            i <= edges@.len(),
            all == edges.deep_view(),
            adj.wf(),
            adj.deep_view() == undirected(all.take(i as int)),
        decreases edges@.len() - i,
    {
        assert(all.take(i + 1).drop_last() =~= all.take(i as int));
        assert(all[i as int] == edges@[i as int].deep_view());
        push_at(&mut adj, edges[i].parent.as_str(), edges[i].child.clone());
        push_at(&mut adj, edges[i].child.as_str(), edges[i].parent.clone());
        i = i + 1;
    }
    assert(all.take(all.len() as int) =~= all);
    adj
}

/// Looks at the neighbours of `u`, recording those not reached before.
fn look_at(u: &str, ns: &Vec<String>, prev: &mut StrMap<String>, next: &mut Vec<String>, root: &str)
    requires
        old(prev).wf(),
    ensures
        final(prev).wf(),
        ({
            let f = looked_at(
                u@,
                ns.deep_view(),
                Found { prev: old(prev).deep_view(), next: old(next).deep_view() },
                root@,
            );
            final(prev).deep_view() == f.prev && final(next).deep_view() == f.next
        }),
{
    let ghost f0 = Found { prev: prev.deep_view(), next: next.deep_view() };
    let ghost all = ns.deep_view();
    let mut i: usize = 0;
    while i < ns.len()
        invariant
            i <= ns@.len(),
            all == ns.deep_view(),
            prev.wf(),
            looked_at(u@, all.take(i as int), f0, root@) == (Found { prev: prev.deep_view(), next: next.deep_view() }),
        decreases ns@.len() - i,
    {
        proof {
            assert(all.take(i + 1).drop_last() =~= all.take(i as int));
            assert(all[i as int] == ns@[i as int]@);
        }
        if !str_eq(ns[i].as_str(), root) && !prev.contains_key(ns[i].as_str()) {
            let from = u.to_owned();
            let ghost n0 = next.deep_view();
            proof {
                StrMap::<String>::deep_insert(prev@, prev@.insert(ns@[i as int]@, from), ns@[i as int]@, from);
            }
            prev.insert(ns[i].clone(), from);
            next.push(ns[i].clone());
            assert(next.deep_view() =~= n0.push(ns@[i as int]@));
        }
        i = i + 1;
    }
    assert(all.take(all.len() as int) =~= all);
}

/// Where each node of a subgraph is first reached from.
fn reach_back(sg: &Subgraph, root: &str) -> (prev: StrMap<String>)
    ensures
        prev.wf(),
        prev.deep_view() == reached_from(sg.deep_view(), root@),
{
    let adj = both_ways(&sg.edges);
    let ghost a = adj.deep_view();
    let mut prev: StrMap<String> = StrMap::new();
    let mut front: Vec<String> = Vec::new();
    front.push(root.to_owned());
    let n: usize = sg.nodes.len();
    let ghost want = reached_from(sg.deep_view(), root@);
    let mut k: usize = 0;
    proof {
        assert(front.deep_view() =~= seq![root@]);
        assert(prev.deep_view() =~= Map::<Text, Text>::empty());
    }
    while k < n && front.len() > 0
        invariant
            k <= n,
            adj.wf(),
            prev.wf(),
            a == adj.deep_view(),
            want == searched(a, front.deep_view(), prev.deep_view(), root@, (n - k) as nat),
        decreases n - k,
    {
        let ghost p0 = prev.deep_view();
        let ghost f0 = front.deep_view();
        let mut next: Vec<String> = Vec::new();
        let mut i: usize = 0;
        assert(next.deep_view() =~= Seq::empty());
        while i < front.len()
            invariant
                i <= front@.len(),
                adj.wf(),
                prev.wf(),
                a == adj.deep_view(),
                f0 == front.deep_view(),
                expanded(a, f0.take(i as int), p0, root@) == (Found { prev: prev.deep_view(), next: next.deep_view() }),
            decreases front@.len() - i,
        {
            proof {
                assert(f0.take(i + 1).drop_last() =~= f0.take(i as int));
                assert(f0[i as int] == front@[i as int]@);
            }
            let u = &front[i];
            match adj.get(u.as_str()) {
                Some(ns) => {
                    assert(neighbours(a, u@) == ns.deep_view());
                    look_at(u.as_str(), ns, &mut prev, &mut next, root);
                },
                None => {
                    assert(neighbours(a, u@) == Seq::<Text>::empty());
                },
            }
            i = i + 1;
        }
        assert(f0.take(f0.len() as int) =~= f0);
        front = next;
        k = k + 1;
    }
    prev
}

fn trace_back(prev: &StrMap<String>, node: &str, root: &str, n: usize) -> (r: Vec<String>)
    requires
        prev.wf(),
    ensures
        r.deep_view() == traced(prev.deep_view(), node@, root@, n as nat),
{
    let ghost p = prev.deep_view();
    let ghost want = traced(p, node@, root@, n as nat);
    let mut out: Vec<String> = Vec::new();
    let mut cur: String = node.to_owned();
    let mut left: usize = n;
    assert(out.deep_view() + want =~= want);
    loop
        invariant
            prev.wf(),
            p == prev.deep_view(),
            want == out.deep_view() + traced(p, cur@, root@, left as nat),
        ensures
            want == out.deep_view() + seq![cur@],
        decreases left,
    {
        if left == 0 || str_eq(cur.as_str(), root) {
            break;
        }
        match prev.get(cur.as_str()) {
            Some(q) => {
                let ghost o = out.deep_view();
                let ghost c = cur@;
                let next = q.clone();
                out.push(cur);
                proof {
                    let rest = traced(p, next@, root@, (left - 1) as nat);
                    assert(out.deep_view() =~= o.push(c));
                    assert(o + (seq![c] + rest) =~= o.push(c) + rest);
                }
                cur = next;
                left = left - 1;
            },
            None => {
                break;
            },
        }
    }
    let ghost o = out.deep_view();
    let ghost c = cur@;
    out.push(cur);
    proof {
        assert(out.deep_view() =~= o.push(c));
        assert(o + seq![c] =~= o.push(c));
    }
    out
}

fn has_edge(edges: &Vec<Edge>, parent: &str, child: &str) -> (r: bool)
    ensures
        r == edges.deep_view().contains((parent@, child@)),
{
    let ghost all = edges.deep_view();
    let mut i: usize = 0;
    while i < edges.len()
        invariant
            i <= edges@.len(),
            all == edges.deep_view(),
            forall|j: int| 0 <= j < i ==> #[trigger] all[j] != (parent@, child@),
        decreases edges@.len() - i,
    {
        assert(all[i as int] == edges@[i as int].deep_view());
        if str_eq(edges[i].parent.as_str(), parent) && str_eq(edges[i].child.as_str(), child) {
            assert(all[i as int] == (parent@, child@));
            return true;
        }
        i = i + 1;
    }
    false
}

// ---- the trail of re-roots ----

/// The width of a text on a terminal, in columns: what
/// `unicode_width::UnicodeWidthStr::width` returns for it.
pub uninterp spec fn display_width(s: Text) -> usize;

/// `unicode_width::UnicodeWidthStr::width`: the number of terminal columns that
/// a string takes, with characters of ambiguous width counted as one column.
/// The contract says that it depends on the text alone and gives it a name.
#[verifier::external_body]
fn text_width(s: &str) -> (r: usize)
    ensures
        r == display_width(s@),
{
    unicode_width::UnicodeWidthStr::width(s)
}

/// Whether `sep` stands in `s` at `i`.
pub open spec fn stands_at(s: Text, sep: Text, i: int) -> bool {
    0 <= i && i + sep.len() <= s.len() && s.subrange(i, i + sep.len()) == sep
}

/// The first place from `from` on at which `sep` stands.
pub open spec fn next_place(s: Text, sep: Text, from: int) -> Option<int>
    decreases s.len() + 1 - from,
{
    if from < 0 || from + sep.len() > s.len() {
        None
    } else if stands_at(s, sep, from) {
        Some(from)
    } else {
        next_place(s, sep, from + 1)
    }
}

/// The pieces of `s` from `from` on, between the occurrences of `sep`.
pub open spec fn pieces_from(s: Text, sep: Text, from: int) -> Seq<Text>
    decreases s.len() - from,
{
    match next_place(s, sep, from) {
        Some(i) => if from <= i && i + sep.len() <= s.len() && sep.len() > 0 {
            seq![s.subrange(from, i)] + pieces_from(s, sep, i + sep.len())
        } else {
            seq![s.skip(from)]
        },
        None => seq![s.skip(from)],
    }
}

/// What a trail of entries can be shortened to: the trail itself, then with
/// more and more of its oldest entries replaced by `..`; the last entry always
/// stays, whole.
pub open spec fn trails_of(trail: Text, entries: Seq<Text>) -> Seq<Text> {
    seq![trail] + Seq::new(
        (entries.len() - 1) as nat,
        |i: int| ".. > "@ + joined(entries.skip(i + 1), " > "@),
    )
}

/// What a trail that is given as a text can be shortened to.
pub open spec fn shortenings(trail: Text) -> Seq<Text> {
    trails_of(trail, pieces_from(trail, " > "@, 0))
}

/// The first candidate whose width is at most `max`.
pub open spec fn first_fit(candidates: Seq<Text>, widths: Seq<usize>, max: usize) -> Option<Text>
    decreases candidates.len(),
{
    if candidates.len() == 0 || widths.len() == 0 {
        None
    } else if widths[0] <= max {
        Some(candidates[0])
    } else {
        first_fit(candidates.drop_first(), widths.drop_first(), max)
    }
}

/// The widths of texts.
pub open spec fn widths_of(texts: Seq<Text>) -> Seq<usize> {
    texts.map_values(|t: Text| display_width(t))
}

/// Whether `sep` stands at `i`.
fn is_at(s: &Vec<char>, sep: &Vec<char>, i: usize) -> (r: bool)
    requires
        i + sep@.len() <= s@.len(),
    ensures
        r == stands_at(s@, sep@, i as int),
{
    let n: usize = s.len();
    let mut k: usize = 0;
    while k < sep.len()
        invariant
            k <= sep@.len(),
            n == s@.len(),
            i + sep@.len() <= n,
            forall|j: int| 0 <= j < k ==> s@[i + j] == sep@[j],
        decreases sep@.len() - k,
    {
        if s[i + k] != sep[k] {
            proof {
                assert(s@.subrange(i as int, i + sep@.len())[k as int] != sep@[k as int]);
            }
            return false;
        }
        k = k + 1;
    }
    assert(s@.subrange(i as int, i + sep@.len()) =~= sep@);
    true
}

/// Splits at every occurrence of ` > `.
fn trail_entries(trail: &str) -> (r: Vec<String>)
    ensures
        r.deep_view() == pieces_from(trail@, " > "@, 0),
        r@.len() >= 1,
{
    let s = chars_of(trail);
    let sep = chars_of(" > ");
    proof {
        reveal_strlit(" > ");
    }
    let mut out: Vec<String> = Vec::new();
    let ghost want = pieces_from(s@, sep@, 0);
    let mut start: usize = 0;
    let mut i: usize = 0;
    assert(out.deep_view() + want =~= want);
    while s.len() - i >= 3
        invariant
            start <= i <= s@.len(),
            sep@.len() == 3,
            want == out.deep_view() + pieces_from(s@, sep@, start as int),
            next_place(s@, sep@, start as int) == next_place(s@, sep@, i as int),
        decreases s@.len() - i,
    {
        if is_at(&s, &sep, i) {
            let piece = string_of(&s, start, i);
            let ghost pv = piece@;
            let ghost o = out.deep_view();
            out.push(piece);
            proof {
                let rest = pieces_from(s@, sep@, i + 3);
                assert(out.deep_view() =~= o.push(pv));
                assert(o + (seq![pv] + rest) =~= o.push(pv) + rest);
            }
            i = i + 3;
            start = i;
        } else {
            i = i + 1;
        }
    }
    let last = string_of(&s, start, s.len());
    let ghost lv = last@;
    let ghost o = out.deep_view();
    out.push(last);
    proof {
        assert(s@.skip(start as int) =~= s@.subrange(start as int, s@.len() as int));
        assert(out.deep_view() =~= o.push(lv));
        assert(o + seq![lv] =~= o.push(lv));
    }
    out
}

/// What a trail of entries can be shortened to, longest first.
fn trails(trail: &str, entries: &Vec<String>) -> (r: Vec<String>)
    requires
        entries@.len() > 0,
    ensures
        r.deep_view() == trails_of(trail@, entries.deep_view()),
{
    let ghost es = entries.deep_view();
    let mut out: Vec<String> = Vec::new();
    out.push(trail.to_owned());
    let mut i: usize = 1;
    while i < entries.len()
        invariant
            1 <= i <= entries@.len(),
            es == entries.deep_view(),
            out@.len() == i,
            out@[0]@ == trail@,
            forall|j: int| 1 <= j < i ==> (#[trigger] out@[j])@ == ".. > "@ + joined(es.skip(j), " > "@),
        decreases entries@.len() - i,
    {
        let rest = join_from(entries, i, " > ");
        let mut text = ".. > ".to_owned();
        text.append(rest.as_str());
        out.push(text);
        i = i + 1;
    }
    assert(out.deep_view() =~= trails_of(trail@, es));
    out
}

/// What a trail can be shortened to, longest first.
pub fn trail_candidates(trail: &str) -> (r: Vec<String>)
    ensures
        r.deep_view() == shortenings(trail@),
{
    let entries = trail_entries(trail);
    trails(trail, &entries)
}

/// The first candidate that is at most `max_width` wide.
pub fn first_fitting(candidates: &Vec<String>, widths: &Vec<usize>, max_width: usize) -> (r: Option<String>)
    requires
        candidates@.len() == widths@.len(),
    ensures
        r.deep_view() == first_fit(candidates.deep_view(), widths@, max_width),
{
    let ghost cs = candidates.deep_view();
    let ghost ws = widths@;
    let mut i: usize = 0;
    assert(cs.skip(0) =~= cs);
    assert(ws.skip(0) =~= ws);
    while i < candidates.len()
        invariant
            i <= candidates@.len(),
            cs == candidates.deep_view(),
            ws == widths@,
            cs.len() == ws.len(),
            first_fit(cs, ws, max_width) == first_fit(cs.skip(i as int), ws.skip(i as int), max_width),
        decreases candidates@.len() - i,
    {
        assert(cs.skip(i as int).drop_first() =~= cs.skip(i + 1));
        assert(ws.skip(i as int).drop_first() =~= ws.skip(i + 1));
        if widths[i] <= max_width {
            return Some(candidates[i].clone());
        }
        i = i + 1;
    }
    None
}

/// The first candidate that is at most `max_width` columns wide.
fn fitting(candidates: &Vec<String>, max_width: usize) -> (r: Option<String>)
    ensures
        r.deep_view() == first_fit(candidates.deep_view(), widths_of(candidates.deep_view()), max_width),
{
    let ghost cs = candidates.deep_view();
    let mut widths: Vec<usize> = Vec::new();
    let mut i: usize = 0;
    while i < candidates.len()
        invariant
            i <= candidates@.len(),
            cs == candidates.deep_view(),
            widths@.len() == i,
            forall|j: int| 0 <= j < i ==> #[trigger] widths@[j] == display_width(cs[j]),
        decreases candidates@.len() - i,
    {
        widths.push(text_width(candidates[i].as_str()));
        i = i + 1;
    }
    assert(widths@ =~= widths_of(cs));
    first_fitting(candidates, &widths, max_width)
}

/// Fits a trail into `max_width` columns by dropping its oldest entries;
/// `None` where even the last entry alone does not fit.
pub fn fit_breadcrumb(trail: &str, max_width: usize) -> (r: Option<String>)
    ensures
        r.deep_view() == first_fit(shortenings(trail@), widths_of(shortenings(trail@)), max_width),
{
    let candidates = trail_candidates(trail);
    fitting(&candidates, max_width)
}

/// The names of the last three steps of the history that still exist, then the
/// root.
pub open spec fn trail_names(a: AppModel, root: Text) -> Seq<Text> {
    let recent = a.back.skip(if a.back.len() > 3 { a.back.len() - 3 } else { 0 });
    recent.filter(|u: Text| a.dag.nodes.contains_key(u)).map_values(|u: Text| a.dag.nodes[u].name).push(a.name_of(root))
}

/// The trail in the pane's title, shortened by whole entries; a trail that
/// cannot be made to fit is `..` and the root.
pub open spec fn trail_of(a: AppModel, max: usize) -> Option<Text> {
    if a.back.len() == 0 {
        None
    } else {
        match a.selected_id() {
            None => None,
            Some(root) => {
                let names = trail_names(a, root);
                let trails = trails_of(joined(names, " > "@), names);
                match first_fit(trails, widths_of(trails), max) {
                    Some(t) => Some(t),
                    None => Some(".. > "@ + names.last()),
                }
            },
        }
    }
}

/// The label of the active view in the pane's title.
pub open spec fn view_label(v: LineageView, glyphs: GlyphMode) -> Text {
    let dir = match glyphs {
        GlyphMode::Unicode => match (v.upstream, v.downstream) {
            (true, true) => "↑↓"@,
            (true, false) => "↑"@,
            (false, true) => "↓"@,
            (false, false) => "·"@,
        },
        GlyphMode::Ascii => match (v.upstream, v.downstream) {
            (true, true) => "<>"@,
            (true, false) => "<"@,
            (false, true) => ">"@,
            (false, false) => "-"@,
        },
    };
    let at_most = match glyphs {
        GlyphMode::Unicode => "≤"@,
        GlyphMode::Ascii => "<="@,
    };
    match v.depth {
        Some(d) => dir + " "@ + at_most + decimal(d as nat),
        None => dir,
    }
}

impl App {
    /// The lineage of the selected model under the active view; without nodes
    /// where nothing is selected.
    pub fn lineage_subgraph(&self) -> (r: Subgraph)
        requires
            self.parts(),
        ensures
            r.deep_view() == self.deep_view().subgraph(),
            r.deep_view().closed(),
    {
        match self.selected_unique_id() {
            Some(uid) => {
                proof {
                    self.parts_valid();
                    subgraph_closed(
                        self.dag.deep_view(),
                        uid@,
                        self.lineage_view.upstream,
                        self.lineage_view.downstream,
                        self.lineage_view.depth,
                    );
                }
                self.dag.subgraph_view(
                    uid.as_str(),
                    self.lineage_view.upstream,
                    self.lineage_view.downstream,
                    self.lineage_view.depth,
                )
            },
            None => {
                let r = Subgraph { selected: String::new(), nodes: Vec::new(), edges: Vec::new() };
                assert(r.nodes.deep_view() =~= Seq::empty());
                assert(r.edges.deep_view() =~= Seq::empty());
                r
            },
        }
    }

    /// The id under the cursor: the root where the cursor is not on a node of
    /// the lineage. `None` only where nothing is selected.
    pub fn lineage_cursor_uid(&self) -> (r: Option<String>)
        requires
            self.parts(),
        ensures
            r.deep_view() == self.deep_view().cursor_id(),
            self.wf() ==> (r is None <==> self.deep_view().selected_id() is None),
            self.wf() ==> (r matches Some(u) ==> self.deep_view().subgraph().has(u@)),
    {
        proof {
            if coherent(self.deep_view()) {
                crate::laws::cursor_is_in_the_lineage(self.deep_view());
            }
        }
        let sg = self.lineage_subgraph();
        if let Some(cur) = &self.lineage_cursor {
            if sg.contains(cur.as_str()) {
                return Some(cur.clone());
            }
        }
        self.selected_unique_id()
    }

    /// Sends the cursor home to the root.
    pub fn reset_lineage_cursor(&mut self)
        requires
            old(self).parts(),
        ensures
            final(self).parts(),
            old(self).wf() ==> final(self).wf(),
            final(self).deep_view() == (AppModel { cursor: None, ..old(self).deep_view() }),
    {
        proof {
            if coherent(self.deep_view()) {
                crate::laws::cursor_coherent(self.deep_view(), None);
            }
        }
        self.lineage_cursor = None;
    }

    /// A click on a node of the lineage: a listed model becomes the root, any
    /// other node gets the cursor.
    pub fn click_lineage_node(&mut self, uid: &str)
        requires
            old(self).parts(),
        ensures
            final(self).parts(),
            old(self).wf() ==> final(self).wf(),
            final(self).deep_view() == old(self).deep_view().clicked(uid@),
    {
        proof {
            if coherent(self.deep_view()) {
                crate::laws::clicked_coherent(self.deep_view(), uid@);
            }
        }
        self.jump_to(uid);
        let at_root = match self.selected_unique_id() {
            Some(s) => str_eq(s.as_str(), uid),
            None => false,
        };
        if at_root {
            self.lineage_cursor = None;
        } else if self.lineage_subgraph().contains(uid) {
            self.lineage_cursor = Some(uid.to_owned());
        }
    }

    /// The lineage as the pane draws it, with the cursor emphasised.
    pub fn lineage_display_subgraph(&self) -> (r: Subgraph)
        requires
            self.parts(),
        ensures
            r.deep_view() == self.deep_view().display_subgraph(),
            r.deep_view().closed(),
    {
        let mut sg = self.lineage_subgraph();
        if let Some(cur) = &self.lineage_cursor {
            if sg.contains(cur.as_str()) {
                let ghost before = sg.deep_view();
                sg.selected = cur.clone();
                proof {
                    closed_under_selection(before, sg.deep_view());
                }
            }
        }
        sg
    }

    /// Moves the cursor one node over the diagram: up and down within its
    /// column, left and right to the nearest node of the next column. Nothing
    /// at an edge of the diagram.
    pub fn move_lineage_cursor(&mut self, dir: Direction)
        requires
            old(self).parts(),
        ensures
            final(self).parts(),
            old(self).wf() ==> final(self).wf(),
            final(self).deep_view() == old(self).deep_view().cursor_moved(dir),
    {
        proof {
            if coherent(self.deep_view()) {
                crate::laws::moves_kept(self.deep_view(), dir, false);
                crate::laws::core_coherent(self.deep_view(), self.deep_view().cursor_moved(dir));
            }
        }
        proof {
            reveal(AppModel::cursor_moved);
        }
        let sg = self.lineage_display_subgraph();
        let lay = layout_density(&sg, self.glyph_mode, self.ui_state.density());
        let ghost l = lay.deep_view();
        let cur = match self.lineage_cursor_uid() {
            Some(c) => c,
            None => {
                return;
            },
        };
        let (rect, col) = match (lay.rects.get(cur.as_str()), lay.columns.get(cur.as_str())) {
            (Some(r), Some(c)) => (*r, *c),
            _ => {
                return;
            },
        };
        let next = match dir {
            Direction::Down => {
                let r = find(&lay, cur.as_str(), rect, col, Wish::Below);
                assert(r.deep_view() == step_target(l, cur@, dir));
                r
            },
            Direction::Up => {
                let r = find(&lay, cur.as_str(), rect, col, Wish::Above);
                assert(r.deep_view() == step_target(l, cur@, dir));
                r
            },
            Direction::Left => if col == 0 {
                None
            } else {
                let r = find(&lay, cur.as_str(), rect, col - 1, Wish::Near);
                assert(r.deep_view() == step_target(l, cur@, dir));
                r
            },
            Direction::Right => {
                let r = find(&lay, cur.as_str(), rect, plus(col, 1), Wish::Near);
                assert(r.deep_view() == step_target(l, cur@, dir));
                r
            },
        };
        if let Some(uid) = next {
            self.lineage_cursor = Some(uid);
        }
    }

    /// Sends the cursor to the nearest node of the first or the last column.
    pub fn move_lineage_cursor_extreme(&mut self, rightmost: bool)
        requires
            old(self).parts(),
        ensures
            final(self).parts(),
            old(self).wf() ==> final(self).wf(),
            final(self).deep_view() == old(self).deep_view().cursor_at_extreme(rightmost),
    {
        proof {
            if coherent(self.deep_view()) {
                crate::laws::moves_kept(self.deep_view(), Direction::Up, rightmost);
                crate::laws::core_coherent(self.deep_view(), self.deep_view().cursor_at_extreme(rightmost));
            }
        }
        proof {
            reveal(AppModel::cursor_at_extreme);
        }
        let sg = self.lineage_display_subgraph();
        let lay = layout_density(&sg, self.glyph_mode, self.ui_state.density());
        let ghost l = lay.deep_view();
        let cur = match self.lineage_cursor_uid() {
            Some(c) => c,
            None => {
                return;
            },
        };
        let rect = match lay.rects.get(cur.as_str()) {
            Some(r) => *r,
            None => {
                return;
            },
        };
        let mut col: usize = 0;
        if rightmost {
            let ghost keys = lay.columns.key_list();
            let mut i: usize = 0;
            while i < lay.columns.len()
                invariant
                    lay.wf(),
                    l == lay.deep_view(),
                    keys == lay.columns.key_list(),
                    i <= keys.len(),
                    col == last_column(l, keys.take(i as int)),
                decreases keys.len() - i,
            {
                assert(keys.take(i + 1).drop_last() =~= keys.take(i as int));
                let c: usize = *lay.columns.value_at(i);
                if col < c {
                    col = c;
                }
                i = i + 1;
            }
            proof {
                lay.columns.keys_listed();
                assert(keys.take(keys.len() as int) =~= keys);
            }
        }
        let next = find(&lay, cur.as_str(), rect, col, Wish::Near);
        assert(next.deep_view() == extreme_target(l, cur@, rightmost));
        if let Some(uid) = next {
            self.lineage_cursor = Some(uid);
        }
    }

    /// The label of the active view: its sides, and its depth where limited.
    pub fn lineage_view_label(&self) -> (r: String)
        ensures
            r@ == view_label(self.deep_view().view, self.deep_view().glyphs),
    {
        let v = &self.lineage_view;
        let dir = match self.glyph_mode {
            GlyphMode::Unicode => match (v.upstream, v.downstream) {
                (true, true) => "↑↓",
                (true, false) => "↑",
                (false, true) => "↓",
                (false, false) => "·",
            },
            GlyphMode::Ascii => match (v.upstream, v.downstream) {
                (true, true) => "<>",
                (true, false) => "<",
                (false, true) => ">",
                (false, false) => "-",
            },
        };
        let mut out = dir.to_owned();
        if let Some(d) = v.depth {
            out.append(" ");
            match self.glyph_mode {
                GlyphMode::Unicode => out.append("≤"),
                GlyphMode::Ascii => out.append("<="),
            }
            push_decimal(&mut out, d);
        }
        out
    }

    /// What an overlay opens on: the cursor while the lineage has the focus,
    /// else the selection.
    pub fn focus_target(&self) -> (r: Option<String>)
        requires
            self.parts(),
        ensures
            r.deep_view() == self.deep_view().focus_id(),
    {
        if self.ui_state.focus() == Focus::RightPane {
            self.lineage_cursor_uid()
        } else {
            self.selected_unique_id()
        }
    }

    /// The ids of the lineage whose names match a query, ascending; none for a
    /// blank query.
    pub fn lineage_matches(&self, query: &str) -> (r: Vec<String>)
        requires
            self.parts(),
        ensures
            r.deep_view() == self.deep_view().matches_of(query@),
    {
        let mut out: Vec<String> = Vec::new();
        if trim(query).as_str().is_empty() {
            assert(out.deep_view() =~= Seq::empty());
            return out;
        }
        let sg = self.lineage_subgraph();
        let ghost all = sg.deep_view().nodes;
        let ghost p = |n: NodeModel| subsequence(query@, n.name);
        let ghost id = |n: NodeModel| n.unique_id;
        proof {
            reveal(Seq::filter);
            assert(out.deep_view() =~= all.take(0).filter(p).map_values(id));
        }
        let mut i: usize = 0;
        while i < sg.nodes.len()
            invariant
                i <= sg.nodes@.len(),
                all == sg.nodes.deep_view(),
                p == (|n: NodeModel| subsequence(query@, n.name)),
                id == (|n: NodeModel| n.unique_id),
                out.deep_view() == all.take(i as int).filter(p).map_values(id),
            decreases sg.nodes@.len() - i,
        {
            let ghost o = out.deep_view();
            let ghost f = all.take(i as int).filter(p);
            let ghost n = sg.nodes@[i as int].deep_view();
            proof {
                reveal(Seq::filter);
                assert(all[i as int] == n);
                assert(all.take(i + 1).drop_last() =~= all.take(i as int));
            }
            if name_matches_query(sg.nodes[i].name.as_str(), query) {
                out.push(sg.nodes[i].unique_id.clone());
                proof {
                    assert(out.deep_view() =~= o.push(id(n)));
                    assert(f.push(n).map_values(id) =~= f.map_values(id).push(id(n)));
                }
            }
            i = i + 1;
        }
        assert(all.take(all.len() as int) =~= all);
        out
    }

    /// The node that an open lineage search points at; `None` without such a
    /// search and without a match.
    pub fn current_lineage_match(&self) -> (r: Option<String>)
        requires
            self.parts(),
        ensures
            r.deep_view() == self.deep_view().current_match(),
    {
        match &self.mode {
            Mode::Search(s) => {
                if s.target == SearchTarget::Lineage {
                    let hits = self.lineage_matches(s.query.as_str());
                    if hits.len() == 0 {
                        return None;
                    }
                    let i: usize = s.match_idx % hits.len();
                    return Some(hits[i].clone());
                }
                None
            },
            _ => None,
        }
    }

    /// The path from the cursor back to the root.
    fn lineage_path(&self) -> (r: Vec<String>)
        requires
            self.parts(),
        ensures
            r.deep_view() == self.deep_view().path(),
    {
        let none: Vec<String> = Vec::new();
        assert(none.deep_view() =~= Seq::empty());
        match (self.selected_unique_id(), self.lineage_cursor_uid()) {
            (Some(root), Some(cursor)) => {
                if str_eq(root.as_str(), cursor.as_str()) {
                    return none;
                }
                let sg = self.lineage_subgraph();
                let prev = reach_back(&sg, root.as_str());
                if !prev.contains_key(cursor.as_str()) {
                    return none;
                }
                trace_back(&prev, cursor.as_str(), root.as_str(), sg.nodes.len())
            },
            _ => none,
        }
    }

    /// The nodes on the path from the root to the cursor; none with the cursor
    /// at home.
    pub fn lineage_path_set(&self) -> (r: StrSet)
        requires
            self.parts(),
        ensures
            r.wf(),
            r@ == self.deep_view().path().to_set(),
    {
        let path = self.lineage_path();
        let ghost all = path.deep_view();
        let mut out = StrSet::new();
        let mut i: usize = 0;
        assert(out@ =~= all.take(0).to_set());
        while i < path.len()
            invariant
                i <= path@.len(),
                all == path.deep_view(),
                out.wf(),
                out@ == all.take(i as int).to_set(),
            decreases path@.len() - i,
        {
            proof {
                assert(all[i as int] == path@[i as int]@);
                assert(all.take(i + 1) =~= all.take(i as int).push(all[i as int]));
                all.take(i as int).lemma_push_to_set_commute(all[i as int]);
            }
            out.insert(path[i].clone());
            i = i + 1;
        }
        assert(all.take(all.len() as int) =~= all);
        out
    }

    /// The edges on the path from the root to the cursor, each as
    /// (parent, child); none with the cursor at home.
    pub fn lineage_path_edges(&self) -> (r: Vec<(String, String)>)
        requires
            self.parts(),
        ensures
            r.deep_view() == self.deep_view().path_edges(),
    {
        let path = self.lineage_path();
        let sg = self.lineage_subgraph();
        let ghost p = path.deep_view();
        let ghost es = sg.deep_view().edges;
        let mut out: Vec<(String, String)> = Vec::new();
        let mut i: usize = 1;
        while i < path.len()
            invariant
                1 <= i,
                p == path.deep_view(),
                es == sg.edges.deep_view(),
                i <= path@.len() || i == 1,
                out@.len() == i - 1,
                forall|j: int| 0 <= j < i - 1 ==> (#[trigger] out@[j]).deep_view() == (if es.contains((p[j + 1], p[j])) {
                    (p[j + 1], p[j])
                } else {
                    (p[j], p[j + 1])
                }),
            decreases path@.len() - i,
        {
            assert(p[i as int] == path@[i as int]@ && p[i - 1] == path@[i - 1]@);
            if has_edge(&sg.edges, path[i].as_str(), path[i - 1].as_str()) {
                out.push((path[i].clone(), path[i - 1].clone()));
            } else {
                out.push((path[i - 1].clone(), path[i].clone()));
            }
            i = i + 1;
        }
        proof {
            if p.len() == 0 {
                assert(out.deep_view() =~= Seq::empty());
            } else {
                assert(i == path@.len());
                assert(out.deep_view().len() == edges_along(p, es).len());
                assert forall|j: int| 0 <= j < p.len() - 1 implies #[trigger] out.deep_view()[j] == edges_along(p, es)[j] by {
                    assert(out@[j].deep_view() == out.deep_view()[j]);
                }
            }
            assert(out.deep_view() =~= edges_along(p, es));
        }
        out
    }

    /// The trail of re-roots for the pane's title, at most `max_width` columns
    /// wide where that can be had; `None` before the first re-root.
    pub fn breadcrumb(&self, max_width: usize) -> (r: Option<String>)
        requires
            self.parts(),
        ensures
            r.deep_view() == trail_of(self.deep_view(), max_width),
    {
        let ghost a = self.deep_view();
        if self.back.len() == 0 {
            return None;
        }
        let root = match self.selected_unique_id() {
            Some(u) => u,
            None => {
                return None;
            },
        };
        let n: usize = self.back.len();
        let from: usize = if n > 3 {
            n - 3
        } else {
            0
        };
        let ghost recent = a.back.skip(from as int);
        let ghost known = |u: Text| a.dag.nodes.contains_key(u);
        let ghost name = |u: Text| a.dag.nodes[u].name;
        let mut names: Vec<String> = Vec::new();
        let mut i: usize = from;
        proof {
            reveal(Seq::filter);
            assert(names.deep_view() =~= recent.take(0).filter(known).map_values(name));
        }
        while i < n
            invariant
                self.parts(),
                a == self.deep_view(),
                from <= i <= n,
                n == self.back@.len(),
                recent == a.back.skip(from as int),
                a.back == self.back.deep_view(),
                known == (|u: Text| a.dag.nodes.contains_key(u)),
                name == (|u: Text| a.dag.nodes[u].name),
                names.deep_view() == recent.take(i - from).filter(known).map_values(name),
            decreases n - i,
        {
            let ghost o = names.deep_view();
            let ghost f = recent.take(i - from).filter(known);
            let ghost u = self.back@[i as int]@;
            proof {
                reveal(Seq::filter);
                assert(recent[i - from] == u);
                assert(recent.take(i + 1 - from).drop_last() =~= recent.take(i - from));
            }
            match self.dag.get(self.back[i].as_str()) {
                Some(node) => {
                    names.push(node.name.clone());
                    proof {
                        assert(names.deep_view() =~= o.push(name(u)));
                        assert(f.push(u).map_values(name) =~= f.map_values(name).push(name(u)));
                    }
                },
                None => {},
            }
            i = i + 1;
        }
        let ghost o = names.deep_view();
        assert(recent.take(n - from) =~= recent);
        let last = self.node_name_or_uid(root.as_str());
        let mut fallback = ".. > ".to_owned();
        fallback.append(last.as_str());
        let ghost lv = last@;
        names.push(last);
        proof {
            assert(names.deep_view() =~= o.push(lv));
            assert(names.deep_view() == trail_names(a, root@));
            assert(names.deep_view().skip(0) =~= names.deep_view());
        }
        let full = join_from(&names, 0, " > ");
        let candidates = trails(full.as_str(), &names);
        match fitting(&candidates, max_width) {
            Some(t) => Some(t),
            None => Some(fallback),
        }
    }
}

proof fn closed_under_selection(a: SubgraphModel, b: SubgraphModel)
    requires
        a.closed(),
        a.nodes == b.nodes,
        a.edges == b.edges,
    ensures
        b.closed(),
{
    assert forall|u: Text| a.has(u) implies b.has(u) by {
        let i = choose|i: int| 0 <= i < a.nodes.len() && (#[trigger] a.nodes[i]).unique_id == u;
        assert(b.nodes[i].unique_id == u);
    }
    assert forall|i: int| 0 <= i < b.edges.len() implies b.has((#[trigger] b.edges[i]).0) && b.has(b.edges[i].1) by {
        assert(a.has(a.edges[i].0) && a.has(a.edges[i].1));
    }
}

} // verus!
