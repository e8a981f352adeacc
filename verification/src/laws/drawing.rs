//! What holds of every drawing: edges go to the right, every column is
//! populated, and no two boxes overlap.

use vstd::prelude::*;

use crate::dag::{depends, subgraph_members, subgraph_of, DagModel, NodeModel, SubgraphModel};
use crate::layout::{
    box_at, box_width, boxes_of, capped, class_label, column_of, column_x, columns_of, columns_upto, faces_of,
    glyph_at, hops_in, inside, layout_of, line_at, pen_of, pitch, rects_upto, stacked, tests_label, total_height,
    total_width, widest, Density, EdgeCellsModel, FaceModel, GlyphMode, Rect,
};
use crate::text::{decimal, Text};

verus! {

/// Each two neighbours of `p` are joined by an edge.
pub open spec fn is_way(edges: Seq<(Text, Text)>, p: Seq<Text>) -> bool {
    forall|i: int| 0 <= i < p.len() - 1 ==> edges.contains((#[trigger] p[i], p[i + 1]))
}

/// No way along the edges visits a node twice.
#[verifier::opaque]
pub open spec fn untangled(sg: SubgraphModel) -> bool {
    forall|p: Seq<Text>| #[trigger] is_way(sg.edges, p) ==> p.no_duplicates()
}

// ---- columns ----

proof fn hop_counts(all: Seq<(Text, Text)>, es: Seq<(Text, Text)>, k: nat, i: int)
    requires
        0 <= i < es.len(),
        k > 0,
    ensures
        hops_in(all, es, k, es[i].1) >= capped(hops_in(all, all, (k - 1) as nat, es[i].0) + 1),
    decreases es.len(),
{
    if i < es.len() - 1 {
        hop_counts(all, es.drop_last(), k, i);
    }
}

/// A way that ends at a node puts its hops between the node and the left edge.
proof fn way_counts(all: Seq<(Text, Text)>, p: Seq<Text>, k: nat)
    requires
        is_way(all, p),
        0 < p.len() <= k + 1,
        k <= usize::MAX,
    ensures
        hops_in(all, all, k, p.last()) >= p.len() - 1,
    decreases p.len(),
{
    if p.len() > 1 {
        let q = p.drop_last();
        let m = p.len() - 1;
        assert(is_way(all, q)) by {
            assert forall|i: int| 0 <= i < q.len() - 1 implies all.contains((#[trigger] q[i], q[i + 1])) by {
                assert(all.contains((p[i], p[i + 1])));
            }
        }
        way_counts(all, q, (k - 1) as nat);
        assert(all.contains((p[m - 1], p[m - 1 + 1])));
        let i = all.index_of((p[m - 1], p[m]));
        hop_counts(all, all, k, i);
    }
}

/// There is a way with as many hops as are counted.
proof fn counted_way(all: Seq<(Text, Text)>, es: Seq<(Text, Text)>, k: nat, v: Text) -> (p: Seq<Text>)
    requires
        k <= usize::MAX,
        forall|e: (Text, Text)| #[trigger] es.contains(e) ==> all.contains(e),
    ensures
        is_way(all, p),
        p.len() == hops_in(all, es, k, v) + 1,
        p.last() == v,
        hops_in(all, es, k, v) <= k,
    decreases k, es.len(),
{
    if es.len() == 0 || k == 0 {
        seq![v]
    } else {
        let rest = es.drop_last();
        let last = es.last();
        assert forall|e: (Text, Text)| #[trigger] rest.contains(e) implies all.contains(e) by {
            let j = rest.index_of(e);
            assert(es[j] == e);
            assert(es.contains(e));
        }
        let p = counted_way(all, rest, k, v);
        if last.1 == v {
            let q = counted_way(all, all, (k - 1) as nat, last.0);
            let r = q.push(v);
            assert(es[es.len() - 1] == last);
            assert(es.contains(last));
            assert(is_way(all, r)) by {
                assert forall|i: int| 0 <= i < r.len() - 1 implies all.contains((#[trigger] r[i], r[i + 1])) by {
                    if i < q.len() - 1 {
                        assert(all.contains((q[i], q[i + 1])));
                    }
                }
            }
            if p.len() < r.len() {
                r
            } else {
                p
            }
        } else {
            p
        }
    }
}

proof fn node_ids(sg: SubgraphModel) -> (ids: Set<Text>)
    ensures
        ids.finite(),
        ids.len() <= sg.nodes.len(),
        forall|u: Text| #[trigger] sg.has(u) ==> ids.contains(u),
{
    let names = sg.nodes.map_values(|n: crate::dag::NodeModel| n.unique_id);
    let ids = names.to_set();
    vstd::seq_lib::seq_to_set_is_finite(names);
    names.lemma_cardinality_of_set();
    assert forall|u: Text| #[trigger] sg.has(u) implies ids.contains(u) by {
        let i = choose|i: int| 0 <= i < sg.nodes.len() && (#[trigger] sg.nodes[i]).unique_id == u;
        assert(names[i] == u);
    }
    ids
}

/// A way between nodes of an untangled subgraph is shorter than the number of
/// its nodes.
proof fn way_is_short(sg: SubgraphModel, p: Seq<Text>)
    requires
        sg.closed(),
        untangled(sg),
        is_way(sg.edges, p),
        p.len() > 1,
    ensures
        p.len() <= sg.nodes.len(),
{
    reveal(untangled);
    let ids = node_ids(sg);
    assert forall|i: int| 0 <= i < p.len() implies ids.contains(#[trigger] p[i]) by {
        let e = if i + 1 < p.len() {
            assert(sg.edges.contains((p[i], p[i + 1])));
            (p[i], p[i + 1])
        } else {
            assert(sg.edges.contains((p[i - 1], p[i - 1 + 1])));
            (p[i - 1], p[i])
        };
        let k = sg.edges.index_of(e);
        assert(sg.has(sg.edges[k].0) && sg.has(sg.edges[k].1));
    }
    p.unique_seq_to_set();
    assert(p.to_set().subset_of(ids));
    vstd::set_lib::lemma_len_subset(p.to_set(), ids);
}

proof fn column_recorded(sg: SubgraphModel, upto: int, u: Text)
    requires
        0 <= upto <= sg.nodes.len(),
        columns_upto(sg, upto).contains_key(u),
    ensures
        columns_upto(sg, upto)[u] == column_of(sg, u),
    decreases upto,
{
    if upto > 0 && sg.nodes[upto - 1].unique_id != u {
        column_recorded(sg, upto - 1, u);
    }
}

pub(crate) proof fn column_drawn(sg: SubgraphModel, mode: GlyphMode, density: Density, u: Text)
    requires
        sg.has(u),
    ensures
        layout_of(sg, mode, density).columns[u] == column_of(sg, u),
{
    crate::layout::layout_covers(sg, mode, density);
    assert(layout_of(sg, mode, density).columns.contains_key(u));
    column_recorded(sg, sg.nodes.len() as int, u);
}

pub(crate) proof fn edge_goes_right(sg: SubgraphModel, p: Text, c: Text)
    requires
        sg.closed(),
        sg.nodes.len() <= usize::MAX,
        untangled(sg),
        sg.edges.contains((p, c)),
    ensures
        column_of(sg, p) < column_of(sg, c),
{
    let n = sg.nodes.len();
    let q = counted_way(sg.edges, sg.edges, n, p);
    let r = q.push(c);
    assert(is_way(sg.edges, r)) by {
        assert forall|i: int| 0 <= i < r.len() - 1 implies sg.edges.contains((#[trigger] r[i], r[i + 1])) by {
            if i < q.len() - 1 {
                assert(sg.edges.contains((q[i], q[i + 1])));
            }
        }
    }
    way_is_short(sg, r);
    way_counts(sg.edges, r, n);
}

proof fn parent_before(sg: SubgraphModel, c: Text) -> (p: Text)
    requires
        sg.closed(),
        sg.nodes.len() <= usize::MAX,
        untangled(sg),
        column_of(sg, c) > 0,
    ensures
        sg.edges.contains((p, c)),
        column_of(sg, p) + 1 == column_of(sg, c),
{
    let n = sg.nodes.len();
    let q = counted_way(sg.edges, sg.edges, n, c);
    let m = q.len() - 1;
    assert(sg.edges.contains((q[m - 1], q[m - 1 + 1])));
    let p = q[m - 1];
    edge_goes_right(sg, p, c);
    let r = q.drop_last();
    assert(is_way(sg.edges, r)) by {
        assert forall|i: int| 0 <= i < r.len() - 1 implies sg.edges.contains((#[trigger] r[i], r[i + 1])) by {
            assert(sg.edges.contains((q[i], q[i + 1])));
        }
    }
    way_counts(sg.edges, r, n);
    p
}

/// Every edge of an untangled subgraph leads to a column further right.
pub proof fn edges_go_right(sg: SubgraphModel, mode: GlyphMode, density: Density, p: Text, c: Text)
    requires
        sg.closed(),
        sg.nodes.len() <= usize::MAX,
        untangled(sg),
        sg.edges.contains((p, c)),
    ensures
        layout_of(sg, mode, density).columns[p] < layout_of(sg, mode, density).columns[c],
{
    let k = sg.edges.index_of((p, c));
    assert(sg.has(sg.edges[k].0) && sg.has(sg.edges[k].1));
    column_drawn(sg, mode, density, p);
    column_drawn(sg, mode, density, c);
    edge_goes_right(sg, p, c);
}

/// In an untangled subgraph a node outside the first column has a parent in
/// the column before its own: every column up to the last is populated.
pub proof fn columns_are_populated(sg: SubgraphModel, mode: GlyphMode, density: Density, c: Text) -> (p: Text)
    requires
        sg.closed(),
        sg.nodes.len() <= usize::MAX,
        untangled(sg),
        sg.has(c),
        layout_of(sg, mode, density).columns[c] > 0,
    ensures
        sg.edges.contains((p, c)),
        layout_of(sg, mode, density).columns[p] + 1 == layout_of(sg, mode, density).columns[c],
{
    column_drawn(sg, mode, density, c);
    let p = parent_before(sg, c);
    let k = sg.edges.index_of((p, c));
    assert(sg.has(sg.edges[k].0));
    column_drawn(sg, mode, density, p);
    p
}

/// Each two neighbours of `p` are a parent and its child.
pub open spec fn leads_down(d: DagModel, p: Seq<Text>) -> bool {
    forall|i: int| 0 <= i < p.len() - 1 ==> depends(d, #[trigger] p[i], p[i + 1])
}

/// In a graph in which no way down visits a node twice every lineage is
/// untangled.
pub proof fn lineages_are_untangled(d: DagModel, selected: Text, upstream: bool, downstream: bool, depth: Option<usize>)
    requires
        d.valid(),
        forall|p: Seq<Text>| #[trigger] leads_down(d, p) ==> p.no_duplicates(),
    ensures
        untangled(subgraph_of(d, selected, upstream, downstream, depth)),
{
    reveal(untangled);
    let sg = subgraph_of(d, selected, upstream, downstream, depth);
    if d.nodes.contains_key(selected) {
        subgraph_members(d, selected, upstream, downstream, depth);
    }
    assert forall|p: Seq<Text>| #[trigger] is_way(sg.edges, p) implies p.no_duplicates() by {
        assert(leads_down(d, p)) by {
            assert forall|i: int| 0 <= i < p.len() - 1 implies depends(d, #[trigger] p[i], p[i + 1]) by {
                assert(sg.edges.contains((p[i], p[i + 1])));
            }
        }
    }
}

// ---- boxes ----

proof fn stack_grows(cols: Seq<usize>, i: int, j: int)
    requires
        0 <= i < j < cols.len(),
    ensures
        stacked(cols, cols[i], j) >= stacked(cols, cols[i], i) + 1,
    decreases j,
{
    if i < j - 1 {
        stack_grows(cols, i, j - 1);
    }
}

pub(crate) proof fn widest_holds(faces: Seq<FaceModel>, cols: Seq<usize>, i: int, density: Density, upto: int)
    requires
        0 <= i < upto <= cols.len(),
        faces.len() == cols.len(),
    ensures
        widest(faces, cols, cols[i], density, upto) >= box_width(faces[i], density),
    decreases upto,
{
    if i < upto - 1 {
        widest_holds(faces, cols, i, density, upto - 1);
    }
}

pub(crate) proof fn columns_apart(faces: Seq<FaceModel>, cols: Seq<usize>, c: usize, d: nat, density: Density)
    requires
        c < d,
    ensures
        column_x(faces, cols, d, density) >= capped(
            column_x(faces, cols, c as nat, density) + widest(faces, cols, c, density, cols.len() as int) + 3,
        ),
    decreases d,
{
    if c < d - 1 {
        columns_apart(faces, cols, c, (d - 1) as nat, density);
    }
}

pub(crate) proof fn extent_holds(boxes: Seq<Rect>, i: int, upto: int)
    requires
        0 <= i < upto <= boxes.len(),
    ensures
        total_width(boxes, upto) >= capped(boxes[i].x + boxes[i].width),
        total_height(boxes, upto) >= capped(boxes[i].y + boxes[i].height),
    decreases upto,
{
    if i < upto - 1 {
        extent_holds(boxes, i, upto - 1);
    }
}

/// The drawing is smaller than what machine words can count.
pub open spec fn fits(sg: SubgraphModel, density: Density) -> bool {
    let boxes = boxes_of(sg, density);
    total_width(boxes, boxes.len() as int) < usize::MAX && total_height(boxes, boxes.len() as int) < usize::MAX
}

pub(crate) proof fn boxes_apart(sg: SubgraphModel, density: Density, i: int, j: int, x: usize, y: usize)
    requires
        fits(sg, density),
        0 <= i < sg.nodes.len(),
        0 <= j < sg.nodes.len(),
        inside(boxes_of(sg, density)[i], x, y),
        inside(boxes_of(sg, density)[j], x, y),
    ensures
        i == j,
{
    let boxes = boxes_of(sg, density);
    let faces = faces_of(sg);
    let cols = columns_of(sg);
    extent_holds(boxes, i, boxes.len() as int);
    extent_holds(boxes, j, boxes.len() as int);
    if cols[i] == cols[j] {
        if i < j {
            stack_grows(cols, i, j);
        } else if j < i {
            stack_grows(cols, j, i);
        }
        let a = stacked(cols, cols[i], i) as int;
        let b = stacked(cols, cols[j], j) as int;
        let k = pitch(density) as int;
        if a < b {
            assert(b * k >= a * k + k) by (nonlinear_arith)
                requires
                    a + 1 <= b,
                    k >= 0,
            ;
        } else if b < a {
            assert(a * k >= b * k + k) by (nonlinear_arith)
                requires
                    b + 1 <= a,
                    k >= 0,
            ;
        }
    } else if cols[i] < cols[j] {
        columns_apart(faces, cols, cols[i], cols[j] as nat, density);
        widest_holds(faces, cols, i, density, cols.len() as int);
    } else {
        columns_apart(faces, cols, cols[j], cols[i] as nat, density);
        widest_holds(faces, cols, j, density, cols.len() as int);
    }
}

pub(crate) proof fn box_recorded(sg: SubgraphModel, boxes: Seq<Rect>, upto: int, u: Text) -> (i: int)
    requires
        0 <= upto <= sg.nodes.len(),
        rects_upto(sg, boxes, upto).contains_key(u),
    ensures
        0 <= i < upto,
        sg.nodes[i].unique_id == u,
        rects_upto(sg, boxes, upto)[u] == boxes[i],
    decreases upto,
{
    if upto > 0 && sg.nodes[upto - 1].unique_id != u {
        box_recorded(sg, boxes, upto - 1, u)
    } else {
        upto - 1
    }
}

/// No two boxes of a drawing share a cell.
pub proof fn boxes_do_not_overlap(sg: SubgraphModel, mode: GlyphMode, density: Density, u: Text, v: Text, x: usize, y: usize)
    requires
        fits(sg, density),
        sg.has(u),
        sg.has(v),
        inside(layout_of(sg, mode, density).rects[u], x, y),
        inside(layout_of(sg, mode, density).rects[v], x, y),
    ensures
        u == v,
{
    crate::layout::layout_covers(sg, mode, density);
    assert(layout_of(sg, mode, density).rects.contains_key(u));
    assert(layout_of(sg, mode, density).rects.contains_key(v));
    let boxes = boxes_of(sg, density);
    let i = box_recorded(sg, boxes, sg.nodes.len() as int, u);
    let j = box_recorded(sg, boxes, sg.nodes.len() as int, v);
    boxes_apart(sg, density, i, j, x, y);
}

// ---- glyphs ----

proof fn same_records(a: SubgraphModel, b: SubgraphModel, boxes: Seq<Rect>, upto: int)
    requires
        a.nodes == b.nodes,
        a.edges == b.edges,
        0 <= upto <= a.nodes.len(),
    ensures
        rects_upto(a, boxes, upto) == rects_upto(b, boxes, upto),
        columns_upto(a, upto) == columns_upto(b, upto),
    decreases upto,
{
    if upto > 0 {
        same_records(a, b, boxes, upto - 1);
    }
}

/// Where boxes and connectors lie does not depend on the glyphs, nor on which
/// node is emphasised: a drawing that follows the cursor keeps its shape.
pub proof fn shape_is_shared(a: SubgraphModel, b: SubgraphModel, mode: GlyphMode, other: GlyphMode, density: Density)
    requires
        a.nodes == b.nodes,
        a.edges == b.edges,
    ensures
        layout_of(a, mode, density).rects == layout_of(b, other, density).rects,
        layout_of(a, mode, density).columns == layout_of(b, other, density).columns,
        layout_of(a, mode, density).edge_cells == layout_of(b, other, density).edge_cells,
{
    assert(faces_of(a) == faces_of(b));
    assert(columns_of(a) =~= columns_of(b));
    assert(boxes_of(a, density) =~= boxes_of(b, density));
    same_records(a, b, boxes_of(a, density), a.nodes.len() as int);
}

/// Every character is an ASCII one.
pub open spec fn all_ascii(s: Text) -> bool {
    forall|i: int| 0 <= i < s.len() ==> #[trigger] s[i] <= '\u{7f}'
}

proof fn decimal_ascii(n: nat)
    ensures
        all_ascii(decimal(n)),
    decreases n,
{
    if n >= 10 {
        decimal_ascii(n / 10);
    }
}

proof fn labels_ascii(n: NodeModel)
    ensures
        all_ascii(class_label(n)),
        all_ascii(tests_label(n)),
{
    reveal_strlit("");
    reveal_strlit("Source");
    reveal_strlit("Seed");
    reveal_strlit("Snapshot");
    reveal_strlit("Exposure");
    reveal_strlit("View");
    reveal_strlit("Table");
    reveal_strlit("Incremental");
    reveal_strlit("Ephemeral");
    reveal_strlit("tests:");
    decimal_ascii(n.test_count);
}

proof fn line_ascii(lines: Seq<EdgeCellsModel>, x: usize, y: usize, from: int)
    ensures
        line_at(lines, x, y, from, pen_of(GlyphMode::Ascii)) matches Some(c) ==> c <= '\u{7f}',
    decreases lines.len() - from,
{
    if 0 <= from < lines.len() {
        line_ascii(lines, x, y, from + 1);
    }
}

proof fn box_place(boxes: Seq<Rect>, x: usize, y: usize, from: int)
    ensures
        box_at(boxes, x, y, from) matches Some(i) ==> 0 <= i < boxes.len() && inside(boxes[i], x, y),
    decreases boxes.len() - from,
{
    if 0 <= from < boxes.len() {
        box_place(boxes, x, y, from + 1);
    }
}

/// With ASCII glyphs a drawing of nodes with ASCII names is ASCII throughout.
pub proof fn ascii_stays_ascii(sg: SubgraphModel, density: Density, y: int)
    requires
        forall|i: int| 0 <= i < sg.nodes.len() ==> all_ascii((#[trigger] sg.nodes[i]).name),
        0 <= y < layout_of(sg, GlyphMode::Ascii, density).rows.len(),
    ensures
        all_ascii(layout_of(sg, GlyphMode::Ascii, density).rows[y]),
{
    let l = layout_of(sg, GlyphMode::Ascii, density);
    let faces = faces_of(sg);
    let boxes = boxes_of(sg, density);
    let pen = pen_of(GlyphMode::Ascii);
    assert forall|x: int| 0 <= x < l.rows[y].len() implies #[trigger] l.rows[y][x] <= '\u{7f}' by {
        let (cx, cy) = (x as usize, y as usize);
        assert(l.rows[y][x] == glyph_at(faces, boxes, l.edge_cells, cx, cy, density, pen));
        line_ascii(l.edge_cells, cx, cy, 0);
        box_place(boxes, cx, cy, 0);
        if let Some(i) = box_at(boxes, cx, cy, 0) {
            labels_ascii(sg.nodes[i]);
            assert(all_ascii(sg.nodes[i].name));
            let f = faces[i];
            assert(f.name == sg.nodes[i].name);
        }
    }
}

} // verus!
