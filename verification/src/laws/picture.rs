//! What a drawing shows: every node in a box of its own, and every edge as an
//! unbroken line from its parent's box to an arrow head at its child's.

use vstd::prelude::*;

use super::drawing::{
    box_recorded, boxes_apart, columns_apart, edge_goes_right, extent_holds, fits, untangled, widest_holds,
};
use crate::dag::{subgraph_members, subgraph_of, DagModel, SubgraphModel};
use crate::layout::{
    box_at, box_glyph, box_width, boxes_of, capped, class_label, column_of, column_x, columns_of, connector, faces_of, glyph_at, inside, layout_covers,
    layout_of, line_at, lines_text, middle, pen_of, pitch, stacked, tests_label, total_height, total_width, widest, Density, EdgeCellsModel, FaceModel, GlyphMode, LayoutModel, Pen, Rect,
};
use crate::text::{decimal, text_lt, text_lt_irreflexive, Text};

verus! {

// ---- connectors ----

/// Two cells that share a side.
pub open spec fn next_to(a: (usize, usize), b: (usize, usize)) -> bool {
    (a.0 == b.0 && (a.1 + 1 == b.1 || b.1 + 1 == a.1)) || (a.1 == b.1 && (a.0 + 1 == b.0 || b.0 + 1 == a.0))
}

/// Each cell shares a side with the one before it.
pub open spec fn unbroken(cells: Seq<(usize, usize)>) -> bool {
    forall|i: int| 0 <= i < cells.len() - 1 ==> next_to(#[trigger] cells[i], cells[i + 1])
}

/// A cell directly right of a box, beside one of its rows.
pub open spec fn right_of(r: Rect, cell: (usize, usize)) -> bool {
    cell.0 == r.x + r.width && r.y <= cell.1 && cell.1 < r.y + r.height
}

/// A cell directly left of a box, beside one of its rows.
pub open spec fn left_of(r: Rect, cell: (usize, usize)) -> bool {
    cell.0 + 1 == r.x && r.y <= cell.1 && cell.1 < r.y + r.height
}

proof fn connector_runs(p: Rect, c: Rect)
    requires
        p.x + p.width < c.x,
        p.y + p.height < usize::MAX,
        c.y + c.height < usize::MAX,
        p.height > 0,
        c.height > 0,
    ensures
        connector(p, c).len() > 0,
        unbroken(connector(p, c)),
        right_of(p, connector(p, c)[0]),
        left_of(c, connector(p, c).last()),
        forall|i: int| 0 <= i < connector(p, c).len() ==> (#[trigger] connector(p, c)[i]).0 < c.x && connector(p, c)[i].0 >= p.x + p.width,
{
    let cells = connector(p, c);
    let x0 = (p.x + p.width) as usize;
    let x1 = (c.x - 1) as usize;
    let y0 = middle(p);
    let y1 = middle(c);
    let n = (c.x - x0) as int;
    let flat = Seq::new((c.x - x0) as nat, |i: int| ((x0 + i) as usize, y0));
    assert(cells.take(n) =~= flat);
    assert forall|i: int| 0 <= i < cells.len() implies (#[trigger] cells[i]) == (if i < n {
        ((x0 + i) as usize, y0)
    } else if y0 <= y1 {
        (x1, (y0 + 1 + (i - n)) as usize)
    } else {
        (x1, (y0 - 1 - (i - n)) as usize)
    }) by {
        if i < n {
            assert(cells[i] == flat[i]);
        }
    }
    assert(cells.len() == n + if y0 <= y1 { y1 - y0 } else { y0 - y1 });
    assert(unbroken(cells)) by {
        assert forall|i: int| 0 <= i < cells.len() - 1 implies next_to(#[trigger] cells[i], cells[i + 1]) by {
            let a = cells[i];
            let b = cells[i + 1];
        }
    }
}

/// The place of an edge's two boxes: the child's stands right of the parent's,
/// with room between them.
proof fn room_between(sg: SubgraphModel, mode: GlyphMode, density: Density, p: Text, c: Text)
    requires
        sg.closed(),
        sg.nodes.len() <= usize::MAX,
        untangled(sg),
        fits(sg, density),
        sg.edges.contains((p, c)),
    ensures
        ({
            let l = layout_of(sg, mode, density);
            let a = l.rects[p];
            let b = l.rects[c];
            &&& l.rects.contains_key(p) && l.rects.contains_key(c)
            &&& a.x + a.width + 3 <= b.x
            &&& a.y + a.height < usize::MAX
            &&& b.y + b.height < usize::MAX
            &&& a.height > 0 && b.height > 0
        }),
{
    let l = layout_of(sg, mode, density);
    let boxes = boxes_of(sg, density);
    let faces = faces_of(sg);
    let cols = columns_of(sg);
    let k = sg.edges.index_of((p, c));
    assert(sg.has(sg.edges[k].0) && sg.has(sg.edges[k].1));
    layout_covers(sg, mode, density);
    assert(l.rects.contains_key(p) && l.rects.contains_key(c));
    let i = box_recorded(sg, boxes, sg.nodes.len() as int, p);
    let j = box_recorded(sg, boxes, sg.nodes.len() as int, c);
    edge_goes_right(sg, p, c);
    assert(cols[i] == column_of(sg, p) && cols[j] == column_of(sg, c));
    columns_apart(faces, cols, cols[i], cols[j] as nat, density);
    widest_holds(faces, cols, i, density, cols.len() as int);
    extent_holds(boxes, i, boxes.len() as int);
    extent_holds(boxes, j, boxes.len() as int);
}

/// Every edge is drawn: its connector is an unbroken chain of cells that begins
/// directly right of the parent's box, beside one of its rows, and ends
/// directly left of the child's box, beside one of its rows.
pub proof fn connectors_join_their_boxes(sg: SubgraphModel, mode: GlyphMode, density: Density, k: int)
    requires
        sg.closed(),
        sg.nodes.len() <= usize::MAX,
        untangled(sg),
        fits(sg, density),
        0 <= k < sg.edges.len(),
    ensures
        ({
            let l = layout_of(sg, mode, density);
            let e = l.edge_cells[k];
            &&& l.edge_cells.len() == sg.edges.len()
            &&& (e.parent, e.child) == sg.edges[k]
            &&& e.cells.len() > 0
            &&& unbroken(e.cells)
            &&& right_of(l.rects[e.parent], e.cells[0])
            &&& left_of(l.rects[e.child], e.cells.last())
        }),
{
    let (p, c) = sg.edges[k];
    assert(sg.edges.contains((p, c)));
    room_between(sg, mode, density, p, c);
    let l = layout_of(sg, mode, density);
    connector_runs(l.rects[p], l.rects[c]);
}

// ---- what the cells show ----

/// The arrow head.
pub open spec fn arrow_head(mode: GlyphMode) -> char {
    match mode {
        GlyphMode::Unicode => '▶',
        GlyphMode::Ascii => '>',
    }
}

/// A line of a connector, across or down.
pub open spec fn is_line(mode: GlyphMode, c: char) -> bool {
    match mode {
        GlyphMode::Unicode => c == '─' || c == '│',
        GlyphMode::Ascii => c == '-' || c == '|',
    }
}

/// The character of a cell of the drawing.
pub open spec fn shown(l: LayoutModel, cell: (usize, usize)) -> char {
    l.rows[cell.1 as int][cell.0 as int]
}

proof fn arrow_shown(lines: Seq<EdgeCellsModel>, x: usize, y: usize, from: int, k: int, pen: Pen)
    requires
        0 <= from <= k < lines.len(),
        lines[k].cells.len() > 0,
        lines[k].cells.last() == (x, y),
    ensures
        line_at(lines, x, y, from, pen) == Some(pen.arrow),
    decreases lines.len() - from,
{
    if from < k {
        arrow_shown(lines, x, y, from + 1, k, pen);
    }
}

proof fn line_shown(lines: Seq<EdgeCellsModel>, x: usize, y: usize, from: int, k: int, pen: Pen)
    requires
        0 <= from <= k < lines.len(),
        lines[k].cells.contains((x, y)),
    ensures
        line_at(lines, x, y, from, pen) matches Some(c) && (c == pen.arrow || c == pen.across || c == pen.down),
    decreases lines.len() - from,
{
    line_is_drawn(lines, x, y, from + 1, pen);
    if from < k {
        line_shown(lines, x, y, from + 1, k, pen);
    }
}

proof fn line_is_drawn(lines: Seq<EdgeCellsModel>, x: usize, y: usize, from: int, pen: Pen)
    ensures
        line_at(lines, x, y, from, pen) matches Some(c) ==> c == pen.arrow || c == pen.across || c == pen.down,
    decreases lines.len() - from,
{
    if 0 <= from < lines.len() {
        line_is_drawn(lines, x, y, from + 1, pen);
    }
}

proof fn no_box(boxes: Seq<Rect>, x: usize, y: usize, from: int)
    requires
        forall|m: int| 0 <= m < boxes.len() ==> !inside(#[trigger] boxes[m], x, y),
    ensures
        box_at(boxes, x, y, from) is None,
    decreases boxes.len() - from,
{
    if 0 <= from < boxes.len() {
        no_box(boxes, x, y, from + 1);
    }
}

/// Directly left of a box of a later column than the first there is no box.
proof fn gap_before(sg: SubgraphModel, density: Density, j: int, cell: (usize, usize), m: int)
    requires
        fits(sg, density),
        0 <= j < sg.nodes.len(),
        0 <= m < sg.nodes.len(),
        left_of(boxes_of(sg, density)[j], cell),
    ensures
        !inside(boxes_of(sg, density)[m], cell.0, cell.1),
{
    let boxes = boxes_of(sg, density);
    let faces = faces_of(sg);
    let cols = columns_of(sg);
    extent_holds(boxes, j, boxes.len() as int);
    extent_holds(boxes, m, boxes.len() as int);
    if cols[m] < cols[j] {
        columns_apart(faces, cols, cols[m], cols[j] as nat, density);
        widest_holds(faces, cols, m, density, cols.len() as int);
    } else if cols[j] < cols[m] {
        columns_apart(faces, cols, cols[j], cols[m] as nat, density);
        widest_holds(faces, cols, j, density, cols.len() as int);
    }
}

/// The last cell of every connector shows an arrow head.
pub proof fn connectors_end_in_arrows(sg: SubgraphModel, mode: GlyphMode, density: Density, k: int)
    requires
        sg.closed(),
        sg.nodes.len() <= usize::MAX,
        untangled(sg),
        fits(sg, density),
        0 <= k < sg.edges.len(),
    ensures
        ({
            let l = layout_of(sg, mode, density);
            let last = l.edge_cells[k].cells.last();
            &&& last.1 < l.rows.len()
            &&& last.0 < l.rows[last.1 as int].len()
            &&& shown(l, last) == arrow_head(mode)
        }),
{
    let l = layout_of(sg, mode, density);
    let boxes = boxes_of(sg, density);
    let pen = pen_of(mode);
    let (p, c) = sg.edges[k];
    connectors_join_their_boxes(sg, mode, density, k);
    assert(sg.edges.contains((p, c)));
    room_between(sg, mode, density, p, c);
    let last = l.edge_cells[k].cells.last();
    let j = box_recorded(sg, boxes, sg.nodes.len() as int, c);
    assert forall|m: int| 0 <= m < boxes.len() implies !inside(#[trigger] boxes[m], last.0, last.1) by {
        gap_before(sg, density, j, last, m);
    }
    no_box(boxes, last.0, last.1, 0);
    arrow_shown(l.edge_cells, last.0, last.1, 0, k, pen);
    extent_holds(boxes, j, boxes.len() as int);
    cell_shown(sg, mode, density, last);
}

proof fn cell_shown(sg: SubgraphModel, mode: GlyphMode, density: Density, cell: (usize, usize))
    requires
        cell.0 < total_width(boxes_of(sg, density), sg.nodes.len() as int),
        cell.1 < total_height(boxes_of(sg, density), sg.nodes.len() as int),
    ensures
        ({
            let l = layout_of(sg, mode, density);
            &&& cell.1 < l.rows.len()
            &&& cell.0 < l.rows[cell.1 as int].len()
            &&& shown(l, cell) == glyph_at(faces_of(sg), boxes_of(sg, density), l.edge_cells, cell.0, cell.1, density, pen_of(mode))
        }),
{
}

/// Every cell of a connector lies in the drawing, and where it stands in no box
/// it shows a line or an arrow head.
pub proof fn connectors_are_drawn(sg: SubgraphModel, mode: GlyphMode, density: Density, k: int, n: int)
    requires
        sg.closed(),
        sg.nodes.len() <= usize::MAX,
        untangled(sg),
        told_apart(sg),
        fits(sg, density),
        0 <= k < sg.edges.len(),
        0 <= n < layout_of(sg, mode, density).edge_cells[k].cells.len(),
    ensures
        ({
            let l = layout_of(sg, mode, density);
            let cell = l.edge_cells[k].cells[n];
            &&& cell.1 < l.rows.len()
            &&& cell.0 < l.rows[cell.1 as int].len()
            &&& uncovered(l, cell) ==> is_line(mode, shown(l, cell)) || shown(l, cell) == arrow_head(mode)
        }),
{
    let l = layout_of(sg, mode, density);
    let boxes = boxes_of(sg, density);
    let pen = pen_of(mode);
    let (p, c) = sg.edges[k];
    assert(sg.edges.contains((p, c)));
    room_between(sg, mode, density, p, c);
    connector_runs(l.rects[p], l.rects[c]);
    let i = box_recorded(sg, boxes, sg.nodes.len() as int, p);
    let j = box_recorded(sg, boxes, sg.nodes.len() as int, c);
    extent_holds(boxes, i, boxes.len() as int);
    extent_holds(boxes, j, boxes.len() as int);
    let cells = l.edge_cells[k].cells;
    let cell = cells[n];
    assert(cells.contains(cell));
    connector_rows(boxes[i], boxes[j], n);
    cell_shown(sg, mode, density, cell);
    line_shown(l.edge_cells, cell.0, cell.1, 0, k, pen);
    if uncovered(l, cell) {
        assert forall|m: int| 0 <= m < boxes.len() implies !inside(#[trigger] boxes[m], cell.0, cell.1) by {
            box_is_recorded(sg, mode, density, m);
        }
        no_box(boxes, cell.0, cell.1, 0);
    }
}

proof fn connector_rows(p: Rect, c: Rect, n: int)
    requires
        p.x + p.width < c.x,
        p.y + p.height < usize::MAX,
        c.y + c.height < usize::MAX,
        p.height > 0,
        c.height > 0,
        0 <= n < connector(p, c).len(),
    ensures
        connector(p, c)[n].1 < p.y + p.height || connector(p, c)[n].1 < c.y + c.height,
{
}

// ---- boxes ----

/// No two nodes have the same id.
pub open spec fn told_apart(sg: SubgraphModel) -> bool {
    forall|i: int, j: int| 0 <= i < sg.nodes.len() && 0 <= j < sg.nodes.len() && i != j ==> (#[trigger] sg.nodes[i]).unique_id != (
    #[trigger] sg.nodes[j]).unique_id
}

/// A cell in no box.
pub open spec fn uncovered(l: LayoutModel, cell: (usize, usize)) -> bool {
    forall|u: Text| #[trigger]
        l.rects.contains_key(u) ==> cell.0 < l.rects[u].x || cell.0 >= l.rects[u].x + l.rects[u].width || cell.1 < l.rects[u].y || cell.1
            >= l.rects[u].y + l.rects[u].height
}

/// No two nodes of a lineage have the same id, and its edges stay among its
/// nodes.
pub proof fn lineages_are_told_apart(d: DagModel, selected: Text, upstream: bool, downstream: bool, depth: Option<usize>)
    requires
        d.valid(),
        d.nodes.contains_key(selected),
    ensures
        told_apart(subgraph_of(d, selected, upstream, downstream, depth)),
        subgraph_of(d, selected, upstream, downstream, depth).closed(),
{
    broadcast use text_lt_irreflexive;
    subgraph_members(d, selected, upstream, downstream, depth);
    let sg = subgraph_of(d, selected, upstream, downstream, depth);
    assert forall|i: int, j: int| 0 <= i < sg.nodes.len() && 0 <= j < sg.nodes.len() && i != j implies (#[trigger] sg.nodes[i]).unique_id != (
    #[trigger] sg.nodes[j]).unique_id by {
        if i < j {
            assert(text_lt(sg.nodes[i].unique_id, sg.nodes[j].unique_id));
        } else {
            assert(text_lt(sg.nodes[j].unique_id, sg.nodes[i].unique_id));
        }
    }
}

proof fn box_is_recorded(sg: SubgraphModel, mode: GlyphMode, density: Density, i: int)
    requires
        told_apart(sg),
        0 <= i < sg.nodes.len(),
    ensures
        layout_of(sg, mode, density).rects.contains_key(sg.nodes[i].unique_id),
        layout_of(sg, mode, density).rects[sg.nodes[i].unique_id] == boxes_of(sg, density)[i],
{
    let u = sg.nodes[i].unique_id;
    layout_covers(sg, mode, density);
    assert(sg.has(u));
    assert(layout_of(sg, mode, density).rects.contains_key(u));
    let m = box_recorded(sg, boxes_of(sg, density), sg.nodes.len() as int, u);
    assert(sg.nodes[m].unique_id == sg.nodes[i].unique_id);
}

proof fn box_found(boxes: Seq<Rect>, x: usize, y: usize, from: int, i: int)
    requires
        0 <= from <= i < boxes.len(),
        inside(boxes[i], x, y),
        forall|m: int| 0 <= m < boxes.len() && m != i ==> !inside(#[trigger] boxes[m], x, y),
    ensures
        box_at(boxes, x, y, from) == Some(i),
    decreases i - from,
{
    if from < i {
        box_found(boxes, x, y, from + 1, i);
    }
}

/// The text that stands in a row of the drawing from a column on.
pub open spec fn reads(l: LayoutModel, x: int, y: int, s: Text) -> bool {
    &&& 0 <= y < l.rows.len()
    &&& 0 <= x
    &&& x + s.len() <= l.rows[y].len()
    &&& forall|k: int| 0 <= k < s.len() ==> #[trigger] l.rows[y][x + k] == s[k]
}

proof fn box_cell(sg: SubgraphModel, mode: GlyphMode, density: Density, i: int, dx: int, dy: int)
    requires
        told_apart(sg),
        fits(sg, density),
        0 <= i < sg.nodes.len(),
        0 <= dx < boxes_of(sg, density)[i].width,
        0 <= dy < boxes_of(sg, density)[i].height,
    ensures
        ({
            let l = layout_of(sg, mode, density);
            let r = boxes_of(sg, density)[i];
            &&& r.y + dy < l.rows.len()
            &&& r.x + r.width <= l.rows[r.y + dy].len()
            &&& l.rows[r.y + dy][r.x + dx] == box_glyph(faces_of(sg)[i], r, (r.x + dx) as usize, (r.y + dy) as usize, density, pen_of(mode))
        }),
{
    let boxes = boxes_of(sg, density);
    let r = boxes[i];
    extent_holds(boxes, i, boxes.len() as int);
    let x = (r.x + dx) as usize;
    let y = (r.y + dy) as usize;
    assert forall|m: int| 0 <= m < boxes.len() && m != i implies !inside(#[trigger] boxes[m], x, y) by {
        if inside(boxes[m], x, y) {
            boxes_apart(sg, density, i, m, x, y);
        }
    }
    box_found(boxes, x, y, 0, i);
    cell_shown(sg, mode, density, (x, y));
    assert(layout_of(sg, mode, density).rows[y as int].len() == total_width(boxes, boxes.len() as int));
}

/// A node's box in the roomy drawing is three rows high, with the name in the
/// middle row behind a border and a space, the word for its class in the top
/// border and the number of its tests at the right of the bottom one.
pub proof fn roomy_boxes_show_their_nodes(sg: SubgraphModel, mode: GlyphMode, i: int)
    requires
        told_apart(sg),
        fits(sg, Density::Comfortable),
        0 <= i < sg.nodes.len(),
    ensures
        ({
            let l = layout_of(sg, mode, Density::Comfortable);
            let n = sg.nodes[i];
            let r = l.rects[n.unique_id];
            let tests = if n.test_count > 0 { "tests:"@ + decimal(n.test_count) } else { ""@ };
            &&& l.rects.contains_key(n.unique_id)
            &&& r.height == 3
            &&& r.width >= n.name.len() + 4
            &&& reads(l, r.x + 2, r.y + 1, n.name)
            &&& reads(l, r.x + 1, r.y as int, class_label(n))
            &&& reads(l, r.x + r.width - 2 - tests.len(), r.y + 2, tests)
        }),
{
    let density = Density::Comfortable;
    let l = layout_of(sg, mode, density);
    let n = sg.nodes[i];
    box_is_recorded(sg, mode, density, i);
    let boxes = boxes_of(sg, density);
    let r = boxes[i];
    let f = faces_of(sg)[i];
    extent_holds(boxes, i, boxes.len() as int);
    assert(r.width == box_width(f, density));
    assert(f.name == n.name && f.class == class_label(n) && f.tests == tests_label(n));
    box_cell(sg, mode, density, i, 0, 0);
    box_cell(sg, mode, density, i, 0, 1);
    box_cell(sg, mode, density, i, 0, 2);
    assert forall|k: int| 0 <= k < n.name.len() implies #[trigger] l.rows[r.y + 1][r.x + 2 + k] == n.name[k] by {
        box_cell(sg, mode, density, i, 2 + k, 1);
    }
    assert forall|k: int| 0 <= k < f.class.len() implies #[trigger] l.rows[r.y as int][r.x + 1 + k] == f.class[k] by {
        box_cell(sg, mode, density, i, 1 + k, 0);
    }
    let from = r.width - 2 - f.tests.len();
    assert forall|k: int| 0 <= k < f.tests.len() implies #[trigger] l.rows[r.y + 2][r.x + from + k] == f.tests[k] by {
        box_cell(sg, mode, density, i, from + k, 2);
    }
    assert(r.x + r.width - 2 - f.tests.len() == r.x + from);
}

/// A node's box in the dense drawing is one row: its name between brackets.
pub proof fn dense_boxes_show_their_nodes(sg: SubgraphModel, mode: GlyphMode, i: int)
    requires
        told_apart(sg),
        fits(sg, Density::Compact),
        0 <= i < sg.nodes.len(),
    ensures
        ({
            let l = layout_of(sg, mode, Density::Compact);
            let n = sg.nodes[i];
            let r = l.rects[n.unique_id];
            &&& l.rects.contains_key(n.unique_id)
            &&& r.height == 1
            &&& r.width == n.name.len() + 2
            &&& reads(l, r.x as int, r.y as int, seq!['['] + n.name + seq![']'])
        }),
{
    let density = Density::Compact;
    let l = layout_of(sg, mode, density);
    let n = sg.nodes[i];
    box_is_recorded(sg, mode, density, i);
    let boxes = boxes_of(sg, density);
    let r = boxes[i];
    let f = faces_of(sg)[i];
    extent_holds(boxes, i, boxes.len() as int);
    assert(r.width == box_width(f, density));
    assert(f.name == n.name);
    let s = seq!['['] + n.name + seq![']'];
    box_cell(sg, mode, density, i, 0, 0);
    assert forall|k: int| 0 <= k < s.len() implies #[trigger] l.rows[r.y as int][r.x + k] == s[k] by {
        box_cell(sg, mode, density, i, k, 0);
    }
}

/// What stands in no box and on no connector is blank.
pub proof fn the_rest_is_blank(sg: SubgraphModel, mode: GlyphMode, density: Density, x: usize, y: usize)
    requires
        told_apart(sg),
        fits(sg, density),
        y < layout_of(sg, mode, density).rows.len(),
        x < layout_of(sg, mode, density).rows[y as int].len(),
        uncovered(layout_of(sg, mode, density), (x, y)),
        forall|k: int| 0 <= k < sg.edges.len() ==> !(#[trigger] layout_of(sg, mode, density).edge_cells[k]).cells.contains((x, y)),
    ensures
        layout_of(sg, mode, density).rows[y as int][x as int] == ' ',
{
    let l = layout_of(sg, mode, density);
    let boxes = boxes_of(sg, density);
    assert forall|m: int| 0 <= m < boxes.len() implies !inside(#[trigger] boxes[m], x, y) by {
        box_is_recorded(sg, mode, density, m);
    }
    no_box(boxes, x, y, 0);
    no_line(l.edge_cells, x, y, 0, pen_of(mode));
    cell_shown(sg, mode, density, (x, y));
}

proof fn no_line(lines: Seq<EdgeCellsModel>, x: usize, y: usize, from: int, pen: Pen)
    requires
        forall|k: int| 0 <= k < lines.len() ==> !(#[trigger] lines[k]).cells.contains((x, y)),
    ensures
        line_at(lines, x, y, from, pen) is None,
    decreases lines.len() - from,
{
    if 0 <= from < lines.len() {
        no_line(lines, x, y, from + 1, pen);
    }
}

/// Boxes of different nodes share no cell.
pub proof fn boxes_share_no_cell(sg: SubgraphModel, mode: GlyphMode, density: Density, i: int, j: int)
    requires
        told_apart(sg),
        fits(sg, density),
        0 <= i < sg.nodes.len(),
        0 <= j < sg.nodes.len(),
        i != j,
    ensures
        ({
            let a = layout_of(sg, mode, density).rects[sg.nodes[i].unique_id];
            let b = layout_of(sg, mode, density).rects[sg.nodes[j].unique_id];
            a.x + a.width <= b.x || b.x + b.width <= a.x || a.y + a.height <= b.y || b.y + b.height <= a.y
        }),
{
    let boxes = boxes_of(sg, density);
    box_is_recorded(sg, mode, density, i);
    box_is_recorded(sg, mode, density, j);
    let a = boxes[i];
    let b = boxes[j];
    extent_holds(boxes, i, boxes.len() as int);
    extent_holds(boxes, j, boxes.len() as int);
    if !(a.x + a.width <= b.x || b.x + b.width <= a.x || a.y + a.height <= b.y || b.y + b.height <= a.y) {
        let x = if a.x <= b.x { b.x } else { a.x };
        let y = if a.y <= b.y { b.y } else { a.y };
        assert(a.width > 0 && b.width > 0 && a.height > 0 && b.height > 0);
        boxes_apart(sg, density, i, j, x, y);
    }
}

// ---- places ----

/// Two nodes of one column, the second directly behind the first in the order
/// of the nodes.
pub open spec fn follows(sg: SubgraphModel, l: LayoutModel, i: int, j: int) -> bool {
    &&& 0 <= i < j < sg.nodes.len()
    &&& l.columns[sg.nodes[i].unique_id] == l.columns[sg.nodes[j].unique_id]
    &&& forall|m: int| i < m < j ==> l.columns[(#[trigger] sg.nodes[m]).unique_id] != l.columns[sg.nodes[i].unique_id]
}

proof fn column_is_recorded(sg: SubgraphModel, mode: GlyphMode, density: Density, i: int)
    requires
        told_apart(sg),
        0 <= i < sg.nodes.len(),
    ensures
        layout_of(sg, mode, density).columns.contains_key(sg.nodes[i].unique_id),
        layout_of(sg, mode, density).columns[sg.nodes[i].unique_id] == columns_of(sg)[i],
{
    layout_covers(sg, mode, density);
    assert(sg.has(sg.nodes[i].unique_id));
    super::drawing::column_drawn(sg, mode, density, sg.nodes[i].unique_id);
}

proof fn stack_is_flat(cols: Seq<usize>, c: usize, i: int, j: int)
    requires
        0 <= i <= j <= cols.len(),
        forall|m: int| i <= m < j ==> #[trigger] cols[m] != c,
    ensures
        stacked(cols, c, j) == stacked(cols, c, i),
    decreases j,
{
    if i < j {
        stack_is_flat(cols, c, i, j - 1);
    }
}

/// The boxes of a column are stacked in the order of the nodes: the first at
/// the top, each next one four rows below in the roomy drawing and one row
/// below in the dense one.
pub proof fn columns_are_stacked(sg: SubgraphModel, mode: GlyphMode, density: Density, i: int, j: int)
    requires
        told_apart(sg),
        fits(sg, density),
        0 <= j < sg.nodes.len(),
    ensures
        ({
            let l = layout_of(sg, mode, density);
            let b = l.rects[sg.nodes[j].unique_id];
            let a = l.rects[sg.nodes[i].unique_id];
            let first = forall|m: int| 0 <= m < j ==> l.columns[(#[trigger] sg.nodes[m]).unique_id] != l.columns[sg.nodes[j].unique_id];
            &&& first ==> b.y == 0
            &&& follows(sg, l, i, j) ==> a.x == b.x && b.y == a.y + if density == Density::Comfortable { 4int } else { 1int }
        }),
{
    let l = layout_of(sg, mode, density);
    let cols = columns_of(sg);
    let boxes = boxes_of(sg, density);
    box_is_recorded(sg, mode, density, j);
    extent_holds(boxes, j, boxes.len() as int);
    assert forall|m: int| 0 <= m < sg.nodes.len() implies l.columns[(#[trigger] sg.nodes[m]).unique_id] == cols[m] by {
        column_is_recorded(sg, mode, density, m);
    }
    if forall|m: int| 0 <= m < j ==> l.columns[(#[trigger] sg.nodes[m]).unique_id] != l.columns[sg.nodes[j].unique_id] {
        assert forall|m: int| 0 <= m < j implies #[trigger] cols[m] != cols[j] by {
            assert(l.columns[sg.nodes[m].unique_id] == cols[m]);
        }
        stack_is_flat(cols, cols[j], 0, j);
    }
    if follows(sg, l, i, j) {
        box_is_recorded(sg, mode, density, i);
        extent_holds(boxes, i, boxes.len() as int);
        assert(l.columns[sg.nodes[i].unique_id] == cols[i]);
        assert forall|m: int| i + 1 <= m < j implies #[trigger] cols[m] != cols[j] by {
            assert(l.columns[sg.nodes[m].unique_id] == cols[m]);
        }
        stack_is_flat(cols, cols[j], i + 1, j);
        assert(stacked(cols, cols[j], i + 1) == stacked(cols, cols[j], i) + 1);
        let k = stacked(cols, cols[i], i) as int;
        let step = pitch(density) as int;
        assert(stacked(cols, cols[j], j) == k + 1);
        assert((k + 1) * step == k * step + step) by (nonlinear_arith);
        assert(boxes[i].y == capped(k * step));
        assert(boxes[j].y == capped((k + 1) * step));
        assert(k * step >= 0) by (nonlinear_arith)
            requires
                k >= 0,
                step >= 0,
        ;
        assert(step == if density == Density::Comfortable { 4int } else { 1int });
    }
}

proof fn widest_is_some_box(faces: Seq<FaceModel>, cols: Seq<usize>, c: usize, density: Density, upto: int)
    requires
        0 <= upto <= cols.len(),
        faces.len() == cols.len(),
        exists|m: int| 0 <= m < upto && #[trigger] cols[m] == c,
    ensures
        exists|m: int| 0 <= m < upto && #[trigger] cols[m] == c && box_width(faces[m], density) == widest(faces, cols, c, density, upto),
    decreases upto,
{
    if upto > 0 {
        if exists|m: int| 0 <= m < upto - 1 && #[trigger] cols[m] == c {
            widest_is_some_box(faces, cols, c, density, upto - 1);
        } else {
            no_widest(faces, cols, c, density, upto - 1);
            assert(cols[upto - 1] == c);
        }
    }
}

proof fn no_widest(faces: Seq<FaceModel>, cols: Seq<usize>, c: usize, density: Density, upto: int)
    requires
        0 <= upto <= cols.len(),
        forall|m: int| 0 <= m < upto ==> #[trigger] cols[m] != c,
    ensures
        widest(faces, cols, c, density, upto) == 0,
    decreases upto,
{
    if upto > 0 {
        no_widest(faces, cols, c, density, upto - 1);
    }
}

/// The columns stand side by side: the first at the left edge, and between the
/// widest box of a column and the next column three cells are left free.
pub proof fn columns_stand_side_by_side(sg: SubgraphModel, mode: GlyphMode, density: Density, i: int, j: int) -> (w: int)
    requires
        told_apart(sg),
        fits(sg, density),
        0 <= i < sg.nodes.len(),
        0 <= j < sg.nodes.len(),
        layout_of(sg, mode, density).columns[sg.nodes[i].unique_id] + 1 == layout_of(sg, mode, density).columns[sg.nodes[j].unique_id],
    ensures
        ({
            let l = layout_of(sg, mode, density);
            let a = l.rects[sg.nodes[i].unique_id];
            let b = l.rects[sg.nodes[j].unique_id];
            let c = l.columns[sg.nodes[i].unique_id];
            &&& c == 0 ==> a.x == 0
            &&& 0 <= w < sg.nodes.len()
            &&& l.columns[sg.nodes[w].unique_id] == c
            &&& b.x == a.x + l.rects[sg.nodes[w].unique_id].width + 3
            &&& a.width <= l.rects[sg.nodes[w].unique_id].width
        }),
{
    let faces = faces_of(sg);
    let cols = columns_of(sg);
    let boxes = boxes_of(sg, density);
    column_is_recorded(sg, mode, density, i);
    column_is_recorded(sg, mode, density, j);
    box_is_recorded(sg, mode, density, i);
    box_is_recorded(sg, mode, density, j);
    extent_holds(boxes, j, boxes.len() as int);
    widest_is_some_box(faces, cols, cols[i], density, cols.len() as int);
    let w = choose|m: int| 0 <= m < cols.len() && #[trigger] cols[m] == cols[i] && box_width(faces[m], density) == widest(
        faces,
        cols,
        cols[i],
        density,
        cols.len() as int,
    );
    widest_holds(faces, cols, i, density, cols.len() as int);
    column_is_recorded(sg, mode, density, w);
    box_is_recorded(sg, mode, density, w);
    assert(column_x(faces, cols, cols[j] as nat, density) == capped(
        column_x(faces, cols, cols[i] as nat, density) + capped(widest(faces, cols, cols[i], density, cols.len() as int) + 3),
    ));
    w
}

/// A box is as wide as what it has to show: in the roomy drawing the name with
/// a border and a space on both sides, or the labels in its borders.
pub proof fn boxes_are_as_wide_as_needed(sg: SubgraphModel, mode: GlyphMode, i: int)
    requires
        told_apart(sg),
        fits(sg, Density::Comfortable),
        0 <= i < sg.nodes.len(),
    ensures
        ({
            let n = sg.nodes[i];
            let w = layout_of(sg, mode, Density::Comfortable).rects[n.unique_id].width;
            let tests = if n.test_count > 0 { 6 + decimal(n.test_count).len() } else { 0 };
            &&& w >= n.name.len() + 4 && w >= class_label(n).len() + 2 && w >= tests + 3
            &&& w == n.name.len() + 4 || w == class_label(n).len() + 2 || w == tests + 3
        }),
{
    let boxes = boxes_of(sg, Density::Comfortable);
    box_is_recorded(sg, mode, Density::Comfortable, i);
    extent_holds(boxes, i, boxes.len() as int);
    reveal_strlit("tests:");
    reveal_strlit("");
    let f = faces_of(sg)[i];
    assert(f.tests == tests_label(sg.nodes[i]) && f.class == class_label(sg.nodes[i]) && f.name == sg.nodes[i].name);
    assert(boxes[i].width == box_width(f, Density::Comfortable));
}

/// The word on a box is that of its class, none on a plain one.
pub proof fn words_are_those_of_the_class(n: crate::dag::NodeModel)
    ensures
        n.resource_type == "source"@ ==> class_label(n) == "Source"@,
        n.resource_type == "seed"@ ==> class_label(n) == "Seed"@,
        n.resource_type == "snapshot"@ ==> class_label(n) == "Snapshot"@,
        n.resource_type == "exposure"@ ==> class_label(n) == "Exposure"@,
        n.resource_type == "model"@ && n.materialized == Some("view"@) ==> class_label(n) == "View"@,
        n.resource_type == "model"@ && n.materialized == Some("table"@) ==> class_label(n) == "Table"@,
        n.resource_type == "model"@ && n.materialized == Some("incremental"@) ==> class_label(n) == "Incremental"@,
        n.resource_type == "model"@ && n.materialized == Some("ephemeral"@) ==> class_label(n) == "Ephemeral"@,
        n.resource_type == "model"@ && n.materialized is None ==> class_label(n).len() == 0,
{
    super::lens::classes_tell_kinds_apart(n.resource_type, n.materialized);
    reveal_strlit("source");
    reveal_strlit("seed");
    reveal_strlit("snapshot");
    reveal_strlit("exposure");
    reveal_strlit("model");
    reveal_strlit("");
    assert("source"@.len() == 6 && "seed"@.len() == 4 && "snapshot"@.len() == 8 && "exposure"@.len() == 8 && "model"@.len() == 5);
}

// ---- as text ----

/// The drawing as text has every row on a line of its own.
pub proof fn text_has_every_row(rows: Seq<Text>, k: int)
    requires
        0 <= k < rows.len(),
    ensures
        super::texts::holds_text(lines_text(rows), rows[k] + "\n"@),
    decreases rows.len(),
{
    broadcast use super::written::holds_in_sum;
    if k == rows.len() - 1 {
        let before = lines_text(rows.drop_last());
        assert(before + rows.last() + "\n"@ =~= before + (rows.last() + "\n"@));
        assert(super::texts::holds_text(rows[k] + "\n"@, rows[k] + "\n"@)) by {
            let e = Seq::<char>::empty();
            super::texts::holds_between(e, rows[k] + "\n"@, e);
            assert(e + (rows[k] + "\n"@) + e =~= rows[k] + "\n"@);
        }
    } else {
        text_has_every_row(rows.drop_last(), k);
    }
}

// ---- borders and lines ----

/// The glyphs of a border: the corners from the top left clockwise, a line
/// across and a line down.
pub open spec fn border(mode: GlyphMode) -> Seq<char> {
    match mode {
        GlyphMode::Unicode => seq!['╭', '╮', '╯', '╰', '─', '│'],
        GlyphMode::Ascii => seq!['+', '+', '+', '+', '-', '|'],
    }
}

/// A roomy box has a closed border: its four corners, and between them lines
/// wherever no label stands.
pub proof fn roomy_boxes_have_borders(sg: SubgraphModel, mode: GlyphMode, i: int, dx: int)
    requires
        told_apart(sg),
        fits(sg, Density::Comfortable),
        0 <= i < sg.nodes.len(),
        0 < dx < layout_of(sg, mode, Density::Comfortable).rects[sg.nodes[i].unique_id].width - 1,
    ensures
        ({
            let l = layout_of(sg, mode, Density::Comfortable);
            let n = sg.nodes[i];
            let r = l.rects[n.unique_id];
            let b = border(mode);
            let tests = if n.test_count > 0 { 6 + decimal(n.test_count).len() } else { 0 };
            &&& l.rows[r.y as int][r.x as int] == b[0]
            &&& l.rows[r.y as int][r.x + r.width - 1] == b[1]
            &&& l.rows[r.y + 2][r.x + r.width - 1] == b[2]
            &&& l.rows[r.y + 2][r.x as int] == b[3]
            &&& l.rows[r.y + 1][r.x as int] == b[5]
            &&& l.rows[r.y + 1][r.x + r.width - 1] == b[5]
            &&& dx > class_label(n).len() ==> l.rows[r.y as int][r.x + dx] == b[4]
            &&& dx < 2 || dx >= 2 + n.name.len() ==> l.rows[r.y + 1][r.x + dx] == ' '
            &&& dx < r.width - 2 - tests || dx == r.width - 2 ==> l.rows[r.y + 2][r.x + dx] == b[4]
        }),
{
    let density = Density::Comfortable;
    let boxes = boxes_of(sg, density);
    box_is_recorded(sg, mode, density, i);
    extent_holds(boxes, i, boxes.len() as int);
    let r = boxes[i];
    let f = faces_of(sg)[i];
    let n = sg.nodes[i];
    reveal_strlit("tests:");
    reveal_strlit("");
    assert(r.width == box_width(f, density));
    assert(f.name == n.name && f.class == class_label(n) && f.tests == tests_label(n));
    box_cell(sg, mode, density, i, 0, 0);
    box_cell(sg, mode, density, i, 0, 1);
    box_cell(sg, mode, density, i, 0, 2);
    box_cell(sg, mode, density, i, r.width - 1, 0);
    box_cell(sg, mode, density, i, r.width - 1, 1);
    box_cell(sg, mode, density, i, r.width - 1, 2);
    box_cell(sg, mode, density, i, dx, 0);
    box_cell(sg, mode, density, i, dx, 1);
    box_cell(sg, mode, density, i, dx, 2);
}

proof fn lone_line(lines: Seq<EdgeCellsModel>, x: usize, y: usize, from: int, k: int, pen: Pen)
    requires
        0 <= from <= k < lines.len(),
        lines[k].cells.contains((x, y)),
        lines[k].cells.last() != (x, y),
        forall|m: int| 0 <= m < lines.len() && m != k ==> !(#[trigger] lines[m]).cells.contains((x, y)),
    ensures
        line_at(lines, x, y, from, pen) == Some(
            if x == lines[k].cells.last().0 && y != lines[k].cells.first().1 {
                pen.down
            } else {
                pen.across
            },
        ) || pen.arrow == pen.across || pen.arrow == pen.down,
    decreases lines.len() - from,
{
    if from < k {
        assert(!lines[from].cells.contains((x, y)));
        if lines[from].cells.len() > 0 && lines[from].cells.last() == (x, y) {
            assert(lines[from].cells.contains(lines[from].cells.last()));
        }
        lone_line(lines, x, y, from + 1, k, pen);
    } else {
        no_line_from(lines, x, y, k + 1, pen);
    }
}

proof fn no_line_from(lines: Seq<EdgeCellsModel>, x: usize, y: usize, from: int, pen: Pen)
    requires
        0 <= from,
        forall|k: int| from <= k < lines.len() ==> !(#[trigger] lines[k]).cells.contains((x, y)),
    ensures
        line_at(lines, x, y, from, pen) is None,
    decreases lines.len() - from,
{
    if from < lines.len() {
        assert(!lines[from].cells.contains((x, y)));
        if lines[from].cells.len() > 0 && lines[from].cells.last() == (x, y) {
            assert(lines[from].cells.contains(lines[from].cells.last()));
        }
        no_line_from(lines, x, y, from + 1, pen);
    }
}

/// Where one connector alone passes through a free cell before its end, the
/// cell shows a line across in the row that the connector begins in, and a line
/// down in any other.
pub proof fn lines_go_across_then_down(sg: SubgraphModel, mode: GlyphMode, density: Density, k: int, n: int)
    requires
        sg.closed(),
        sg.nodes.len() <= usize::MAX,
        untangled(sg),
        told_apart(sg),
        fits(sg, density),
        0 <= k < sg.edges.len(),
        0 <= n < layout_of(sg, mode, density).edge_cells[k].cells.len() - 1,
        uncovered(layout_of(sg, mode, density), layout_of(sg, mode, density).edge_cells[k].cells[n]),
        forall|m: int|
            0 <= m < sg.edges.len() && m != k ==> !(#[trigger] layout_of(sg, mode, density).edge_cells[m]).cells.contains(
                layout_of(sg, mode, density).edge_cells[k].cells[n],
            ),
    ensures
        ({
            let l = layout_of(sg, mode, density);
            let cells = l.edge_cells[k].cells;
            shown(l, cells[n]) == if cells[n].1 == cells[0].1 { border(mode)[4] } else { border(mode)[5] }
        }),
{
    let l = layout_of(sg, mode, density);
    let boxes = boxes_of(sg, density);
    let cells = l.edge_cells[k].cells;
    let cell = cells[n];
    let (p, c) = sg.edges[k];
    connectors_are_drawn(sg, mode, density, k, n);
    assert(sg.edges.contains((p, c)));
    room_between(sg, mode, density, p, c);
    connector_turns_once(l.rects[p], l.rects[c], n);
    assert forall|m: int| 0 <= m < boxes.len() implies !inside(#[trigger] boxes[m], cell.0, cell.1) by {
        box_is_recorded(sg, mode, density, m);
    }
    no_box(boxes, cell.0, cell.1, 0);
    assert(cells.contains(cell));
    lone_line(l.edge_cells, cell.0, cell.1, 0, k, pen_of(mode));
    cell_shown(sg, mode, density, cell);
}

proof fn connector_turns_once(p: Rect, c: Rect, n: int)
    requires
        p.x + p.width < c.x,
        p.y + p.height < usize::MAX,
        c.y + c.height < usize::MAX,
        p.height > 0,
        c.height > 0,
        0 <= n < connector(p, c).len() - 1,
    ensures
        connector(p, c)[n] != connector(p, c).last(),
        connector(p, c)[n].1 != connector(p, c)[0].1 ==> connector(p, c)[n].0 == connector(p, c).last().0,
{
}

} // verus!
