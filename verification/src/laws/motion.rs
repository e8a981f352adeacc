//! Where the cursor goes on the drawing, and what a cell of it belongs to.

use vstd::prelude::*;

use crate::app::lineage::{above, extreme_target, in_column, last_column, nearer, nearest_in, pick, step_target};
use crate::app::AppModel;
use crate::action::Direction;
use crate::layout::{
    boxes_of, inside, key_at, layout_covers, line_style, middle, rects_upto, style_at, CellAttr, LayoutModel, Rect,
};
use crate::dag::SubgraphModel;
use crate::sorted::{listing, listing_exists};
use crate::text::{text_lt, text_lt_connected, text_lt_irreflexive, text_lt_transitive, Text};

verus! {

// ---- steps ----

/// The row that a box is reached at.
pub open spec fn center(r: Rect) -> int {
    r.y + r.height as int / 2
}

/// How far two rows are apart.
pub open spec fn gap(a: int, b: int) -> int {
    if a < b {
        b - a
    } else {
        a - b
    }
}

/// A box of the drawing that stands in a column.
pub open spec fn drawn_in(l: LayoutModel, u: Text, c: int) -> bool {
    l.rects.contains_key(u) && l.columns.contains_key(u) && l.columns[u] == c
}

/// One box of a column comes before another: it is higher up, or as high and of
/// a smaller id.
pub open spec fn higher(l: LayoutModel, u: Text, v: Text) -> bool {
    l.rects[u].y < l.rects[v].y || (l.rects[u].y == l.rects[v].y && text_lt(u, v))
}

proof fn picked_is_best(keys: Seq<Text>, ok: spec_fn(Text) -> bool, lt: spec_fn(Text, Text) -> bool)
    requires
        forall|a: Text, b: Text, c: Text| !#[trigger] lt(a, b) && !#[trigger] lt(b, c) ==> !lt(a, c),
        forall|a: Text, b: Text| #[trigger] lt(a, b) ==> !lt(b, a),
    ensures
        match pick(keys, ok, lt) {
            Some(u) => keys.contains(u) && ok(u) && forall|w: Text| #[trigger] keys.contains(w) && ok(w) ==> !lt(w, u),
            None => forall|w: Text| #[trigger] keys.contains(w) ==> !ok(w),
        },
    decreases keys.len(),
{
    if keys.len() > 0 {
        let r = keys.drop_last();
        let k = keys.last();
        picked_is_best(r, ok, lt);
        assert(keys.contains(k)) by {
            assert(keys[keys.len() - 1] == k);
        }
        assert forall|w: Text| #[trigger] keys.contains(w) implies r.contains(w) || w == k by {
            let i = keys.index_of(w);
            if i < r.len() {
                assert(r[i] == w);
            }
        }
        assert forall|w: Text| #[trigger] r.contains(w) implies keys.contains(w) by {
            let i = r.index_of(w);
            assert(keys[i] == w);
        }
        assert(!lt(k, k));
    }
}

proof fn higher_is_an_order(l: LayoutModel)
    ensures
        forall|a: Text, b: Text, c: Text| !#[trigger] above(l, a, b) && !#[trigger] above(l, b, c) ==> !above(l, a, c),
        forall|a: Text, b: Text| #[trigger] above(l, a, b) ==> !above(l, b, a),
{
    broadcast use {text_lt_irreflexive, text_lt_transitive, text_lt_connected};

    assert forall|a: Text, b: Text, c: Text| !#[trigger] above(l, a, b) && !#[trigger] above(l, b, c) implies !above(l, a, c) by {
        if above(l, a, c) && l.rects[a].y == l.rects[c].y && l.rects[a].y == l.rects[b].y {
            assert(!text_lt(a, b) && !text_lt(b, c) && text_lt(a, c));
            assert(a == b || text_lt(b, a));
            assert(b == c || text_lt(c, b));
        }
    }
}

proof fn nearer_is_an_order(l: LayoutModel, mid: usize)
    ensures
        forall|a: Text, b: Text, c: Text| !#[trigger] nearer(l, mid, a, b) && !#[trigger] nearer(l, mid, b, c) ==> !nearer(l, mid, a, c),
        forall|a: Text, b: Text| #[trigger] nearer(l, mid, a, b) ==> !nearer(l, mid, b, a),
{
    higher_is_an_order(l);
    assert forall|a: Text, b: Text, c: Text| !#[trigger] nearer(l, mid, a, b) && !#[trigger] nearer(l, mid, b, c) implies !nearer(l, mid, a, c) by {
        if !above(l, a, b) && !above(l, b, c) {
            assert(!above(l, a, c));
        }
    }
    assert forall|a: Text, b: Text| #[trigger] nearer(l, mid, a, b) implies !nearer(l, mid, b, a) by {
        if above(l, a, b) {
            assert(!above(l, b, a));
        }
    }
}

proof fn down_is_next(l: LayoutModel, cur: Text)
    requires
        l.rects.dom().finite(),
        l.rects.contains_key(cur),
        l.columns.contains_key(cur),
    ensures
        next_below(l, cur, step_target(l, cur, Direction::Down)),
        next_above(l, cur, step_target(l, cur, Direction::Up)),
{
    let c = l.columns[cur];
    let keys = listing(l.rects.dom());
    listing_exists(l.rects.dom());
    higher_is_an_order(l);
    let below = |u: Text| in_column(l, u, c) && above(l, cur, u);
    let down = |a: Text, b: Text| above(l, a, b);
    let over = |u: Text| in_column(l, u, c) && above(l, u, cur);
    let up = |a: Text, b: Text| above(l, b, a);
    picked_is_best(keys, below, down);
    assert forall|a: Text, b: Text, c: Text| !#[trigger] up(a, b) && !#[trigger] up(b, c) implies !up(a, c) by {
        assert(!above(l, c, b) && !above(l, b, a));
    }
    picked_is_best(keys, over, up);
    assert(pick(keys, below, down) == step_target(l, cur, Direction::Down));
    assert(pick(keys, over, up) == step_target(l, cur, Direction::Up));
    assert forall|w: Text| #[trigger] l.rects.contains_key(w) <==> keys.contains(w) by {
        assert(l.rects.dom().contains(w) <==> keys.contains(w));
    }
}

/// `to` is the next box below `cur` in its column, where there is one.
pub open spec fn next_below(l: LayoutModel, cur: Text, to: Option<Text>) -> bool {
    match to {
        Some(u) => drawn_in(l, u, l.columns[cur] as int) && higher(l, cur, u) && forall|w: Text| #[trigger]
            drawn_in(l, w, l.columns[cur] as int) && higher(l, cur, w) ==> !higher(l, w, u),
        None => forall|w: Text| #[trigger] drawn_in(l, w, l.columns[cur] as int) ==> !higher(l, cur, w),
    }
}

/// `to` is the next box above `cur` in its column, where there is one.
pub open spec fn next_above(l: LayoutModel, cur: Text, to: Option<Text>) -> bool {
    match to {
        Some(u) => drawn_in(l, u, l.columns[cur] as int) && higher(l, u, cur) && forall|w: Text| #[trigger]
            drawn_in(l, w, l.columns[cur] as int) && higher(l, w, cur) ==> !higher(l, u, w),
        None => forall|w: Text| #[trigger] drawn_in(l, w, l.columns[cur] as int) ==> !higher(l, w, cur),
    }
}

/// `to` is the box of column `c` whose middle row is nearest to that of `cur`,
/// the upper one of two equally near; none where the column is empty.
pub open spec fn nearest(l: LayoutModel, cur: Text, c: int, to: Option<Text>) -> bool {
    let row = center(l.rects[cur]);
    match to {
        Some(u) => drawn_in(l, u, c) && forall|w: Text| #[trigger]
            drawn_in(l, w, c) ==> gap(row, center(l.rects[u])) < gap(row, center(l.rects[w])) || (gap(row, center(l.rects[u])) == gap(
                row,
                center(l.rects[w]),
            ) && !higher(l, w, u)),
        None => forall|w: Text| !#[trigger] drawn_in(l, w, c),
    }
}

/// Every box ends before the last row that machine words can count.
pub open spec fn in_bounds(l: LayoutModel) -> bool {
    forall|u: Text| #[trigger] l.rects.contains_key(u) ==> l.rects[u].y + l.rects[u].height <= usize::MAX
}

proof fn nearest_is_found(l: LayoutModel, cur: Text, c: usize)
    requires
        l.rects.dom().finite(),
        l.rects.contains_key(cur),
        in_bounds(l),
    ensures
        nearest(l, cur, c as int, nearest_in(l, cur, c)),
{
    let keys = listing(l.rects.dom());
    let mid = middle(l.rects[cur]);
    listing_exists(l.rects.dom());
    nearer_is_an_order(l, mid);
    let ok = |u: Text| in_column(l, u, c);
    let lt = |a: Text, b: Text| nearer(l, mid, a, b);
    picked_is_best(keys, ok, lt);
    assert forall|w: Text| #[trigger] l.rects.contains_key(w) <==> keys.contains(w) by {
        assert(l.rects.dom().contains(w) <==> keys.contains(w));
    }
    assert(pick(keys, ok, lt) == nearest_in(l, cur, c));
    assert forall|w: Text| #[trigger] l.rects.contains_key(w) implies middle(l.rects[w]) == center(l.rects[w]) by {}
    if let Some(u) = nearest_in(l, cur, c) {
        assert(l.rects.contains_key(u));
        assert forall|w: Text| #[trigger] drawn_in(l, w, c as int) implies !nearer(l, mid, w, u) by {
            assert(keys.contains(w));
            assert(ok(w));
            assert(!lt(w, u));
        }
    } else {
        assert forall|w: Text| !#[trigger] drawn_in(l, w, c as int) by {
            if drawn_in(l, w, c as int) {
                assert(keys.contains(w));
                assert(!ok(w));
            }
        }
    }
}

proof fn rects_are_finite(sg: SubgraphModel, boxes: Seq<Rect>, upto: int)
    ensures
        rects_upto(sg, boxes, upto).dom().finite(),
    decreases upto,
{
    if upto > 0 {
        rects_are_finite(sg, boxes, upto - 1);
    }
}

proof fn drawing_is_finite(a: AppModel)
    ensures
        a.diagram().rects.dom().finite(),
        forall|u: Text| #[trigger] a.diagram().rects.contains_key(u) <==> a.diagram().columns.contains_key(u),
{
    let sg = a.display_subgraph();
    rects_are_finite(sg, boxes_of(sg, a.ui.density), sg.nodes.len() as int);
    layout_covers(sg, a.glyphs, a.ui.density);
    assert forall|u: Text| #[trigger] a.diagram().rects.contains_key(u) <==> a.diagram().columns.contains_key(u) by {
        assert(a.diagram().rects.contains_key(u) <==> sg.has(u));
        assert(a.diagram().columns.contains_key(u) <==> sg.has(u));
    }
}

/// Where the cursor goes: unchanged where there is no target, else on it.
pub open spec fn lands(a: AppModel, b: AppModel, to: Option<Text>) -> bool {
    b == AppModel { cursor: if to is Some { to } else { a.cursor }, ..a }
}

/// A step up or down moves the cursor to the next box of its column, and
/// nothing else; at the end of the column it stays.
pub proof fn steps_follow_the_column(a: AppModel, cur: Text) -> (to: (Option<Text>, Option<Text>))
    requires
        a.cursor_id() == Some(cur),
        a.diagram().rects.contains_key(cur),
    ensures
        lands(a, a.cursor_moved(Direction::Up), to.0),
        next_above(a.diagram(), cur, to.0),
        lands(a, a.cursor_moved(Direction::Down), to.1),
        next_below(a.diagram(), cur, to.1),
{
    let l = a.diagram();
    drawing_is_finite(a);
    assert(l.columns.contains_key(cur));
    down_is_next(l, cur);
    reveal(AppModel::cursor_moved);
    (step_target(l, cur, Direction::Up), step_target(l, cur, Direction::Down))
}

/// A step left or right moves the cursor to the nearest box of the column
/// before or behind its own, and nothing else; where that column is empty it
/// stays.
pub proof fn steps_go_to_the_nearest(a: AppModel, cur: Text) -> (to: (Option<Text>, Option<Text>))
    requires
        a.cursor_id() == Some(cur),
        a.diagram().rects.contains_key(cur),
        in_bounds(a.diagram()),
        a.diagram().columns[cur] < usize::MAX,
    ensures
        lands(a, a.cursor_moved(Direction::Left), to.0),
        nearest(a.diagram(), cur, a.diagram().columns[cur] - 1, to.0),
        lands(a, a.cursor_moved(Direction::Right), to.1),
        nearest(a.diagram(), cur, a.diagram().columns[cur] + 1, to.1),
{
    let l = a.diagram();
    drawing_is_finite(a);
    assert(l.columns.contains_key(cur));
    let c = l.columns[cur];
    if c > 0 {
        nearest_is_found(l, cur, (c - 1) as usize);
    }
    nearest_is_found(l, cur, (c + 1) as usize);
    reveal(AppModel::cursor_moved);
    (step_target(l, cur, Direction::Left), step_target(l, cur, Direction::Right))
}

proof fn last_is_last(l: LayoutModel, keys: Seq<Text>)
    ensures
        forall|w: Text| #[trigger] keys.contains(w) ==> l.columns[w] <= last_column(l, keys),
        keys.len() > 0 ==> exists|w: Text| #[trigger] keys.contains(w) && l.columns[w] == last_column(l, keys),
    decreases keys.len(),
{
    if keys.len() > 0 {
        let r = keys.drop_last();
        last_is_last(l, r);
        assert forall|w: Text| #[trigger] keys.contains(w) implies l.columns[w] <= last_column(l, keys) by {
            let i = keys.index_of(w);
            if i < r.len() {
                assert(r[i] == w);
                assert(r.contains(w));
            }
        }
        if last_column(l, keys) == l.columns[keys.last()] {
            assert(keys.contains(keys.last()));
        } else {
            assert(r.len() > 0);
            let w = choose|w: Text| #[trigger] r.contains(w) && l.columns[w] == last_column(l, r);
            assert(keys[r.index_of(w)] == w);
            assert(keys.contains(w));
        }
    }
}

/// A jump to the far end moves the cursor to the nearest box of the last column
/// that has one, and nothing else; a jump to the near end to the nearest of the
/// first column.
pub proof fn jumps_go_to_the_ends(a: AppModel, cur: Text) -> (to: (Text, Option<Text>))
    requires
        a.cursor_id() == Some(cur),
        a.diagram().rects.contains_key(cur),
        in_bounds(a.diagram()),
    ensures
        ({
            let l = a.diagram();
            &&& lands(a, a.cursor_at_extreme(true), Some(to.0))
            &&& nearest(l, cur, l.columns[to.0] as int, Some(to.0))
            &&& forall|w: Text| #[trigger] l.columns.contains_key(w) ==> l.columns[w] <= l.columns[to.0]
            &&& lands(a, a.cursor_at_extreme(false), to.1)
            &&& nearest(l, cur, 0, to.1)
        }),
{
    let l = a.diagram();
    drawing_is_finite(a);
    assert(l.columns.dom() =~= l.rects.dom()) by {
        assert forall|u: Text| #[trigger] l.columns.dom().contains(u) <==> l.rects.dom().contains(u) by {
            assert(l.rects.contains_key(u) <==> l.columns.contains_key(u));
        }
    }
    let keys = listing(l.columns.dom());
    listing_exists(l.columns.dom());
    last_is_last(l, keys);
    let c = last_column(l, keys);
    nearest_is_found(l, cur, c);
    nearest_is_found(l, cur, 0);
    reveal(AppModel::cursor_at_extreme);
    assert(keys.contains(cur));
    let w = choose|w: Text| #[trigger] keys.contains(w) && l.columns[w] == c;
    assert(l.columns.dom().contains(w));
    assert(drawn_in(l, w, c as int));
    let to = extreme_target(l, cur, true);
    assert(to is Some);
    assert forall|w: Text| #[trigger] l.columns.contains_key(w) implies l.columns[w] <= c by {
        assert(keys.contains(w));
    }
    (to->0, extreme_target(l, cur, false))
}

// ---- cells ----

/// A cell of a box.
pub open spec fn covers(r: Rect, x: usize, y: usize) -> bool {
    r.x <= x && x < r.x + r.width && r.y <= y && y < r.y + r.height
}

proof fn keys_are_hit(l: LayoutModel, keys: Seq<Text>, x: usize, y: usize)
    ensures
        match key_at(l, keys, x, y) {
            Some(u) => keys.contains(u) && covers(l.rects[u], x, y),
            None => forall|u: Text| #[trigger] keys.contains(u) ==> !covers(l.rects[u], x, y),
        },
    decreases keys.len(),
{
    if keys.len() > 0 && !inside(l.rects[keys[0]], x, y) {
        let r = keys.drop_first();
        keys_are_hit(l, r, x, y);
        assert forall|u: Text| #[trigger] keys.contains(u) && u != keys[0] implies r.contains(u) by {
            let i = keys.index_of(u);
            assert(r[i - 1] == u);
        }
        if let Some(u) = key_at(l, keys, x, y) {
            assert(keys[r.index_of(u) + 1] == u);
        }
    } else if keys.len() > 0 {
        assert(keys.contains(keys[0]));
    }
}

/// A cell belongs to a node whose box covers it, and to none where no box does.
pub proof fn cells_belong_to_boxes(l: LayoutModel, x: usize, y: usize)
    requires
        l.rects.dom().finite(),
    ensures
        match key_at(l, listing(l.rects.dom()), x, y) {
            Some(u) => l.rects.contains_key(u) && covers(l.rects[u], x, y),
            None => forall|u: Text| #[trigger] l.rects.contains_key(u) ==> !covers(l.rects[u], x, y),
        },
{
    let keys = listing(l.rects.dom());
    listing_exists(l.rects.dom());
    keys_are_hit(l, keys, x, y);
    assert forall|w: Text| #[trigger] l.rects.contains_key(w) <==> keys.contains(w) by {
        assert(l.rects.dom().contains(w) <==> keys.contains(w));
    }
}

/// The style without any mark.
pub open spec fn unmarked(c: CellAttr) -> bool {
    !c.dimmed && !c.on_path && c.lens == crate::layout::LensTint::Untinted && c.class == crate::layout::MaterializationClass::Plain
}

/// A connector with a style passes through a cell.
pub open spec fn passes_through(l: LayoutModel, k: int, x: usize, y: usize) -> bool {
    0 <= k < l.edge_cells.len() && k < l.edge_styles.len() && l.edge_cells[k].cells.contains((x, y))
}

proof fn lines_are_styled(l: LayoutModel, x: usize, y: usize, from: int)
    requires
        0 <= from,
    ensures
        match line_style(l, x, y, from) {
            Some(c) => (exists|k: int| from <= k && #[trigger] passes_through(l, k, x, y) && l.edge_styles[k] == c) && (!c.on_path ==> forall|
                k: int,
            |
                from <= k && #[trigger] passes_through(l, k, x, y) ==> !l.edge_styles[k].on_path),
            None => forall|k: int| from <= k ==> !#[trigger] passes_through(l, k, x, y),
        },
    decreases l.edge_styles.len() - from,
{
    if from < l.edge_styles.len() && from < l.edge_cells.len() {
        lines_are_styled(l, x, y, from + 1);
        assert(passes_through(l, from, x, y) <==> l.edge_cells[from].cells.contains((x, y)));
    }
}

/// A cell in a box has the style of the box's node. Any other cell has the
/// style of a connector through it, one on the path if there is one, and is
/// plain where no connector passes.
pub proof fn cells_have_their_style(l: LayoutModel, x: usize, y: usize)
    requires
        l.rects.dom().finite(),
        forall|u: Text| #[trigger] l.rects.contains_key(u) ==> l.node_styles.contains_key(u),
    ensures
        ({
            let s = style_at(l, x, y);
            let boxed = exists|u: Text| #[trigger] l.rects.contains_key(u) && covers(l.rects[u], x, y);
            let crossed = exists|k: int| #[trigger] passes_through(l, k, x, y);
            &&& boxed ==> exists|u: Text| #[trigger] l.rects.contains_key(u) && covers(l.rects[u], x, y) && s == l.node_styles[u]
            &&& !boxed && crossed ==> (exists|k: int| #[trigger] passes_through(l, k, x, y) && s == l.edge_styles[k]) && (!s.on_path ==> forall|
                k: int,
            |
                #[trigger] passes_through(l, k, x, y) ==> !l.edge_styles[k].on_path)
            &&& !boxed && !crossed ==> unmarked(s)
        }),
{
    cells_belong_to_boxes(l, x, y);
    lines_are_styled(l, x, y, 0);
}

} // verus!
