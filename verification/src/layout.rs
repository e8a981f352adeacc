//! The lineage diagram: nodes in columns by their longest path from the left,
//! boxes stacked within a column, and connectors from parent to child. The
//! geometry and every drawn cell are functions of the subgraph.

use vstd::prelude::*;

use crate::dag::{NodeInfo, NodeModel, Subgraph, SubgraphModel};
use crate::sorted::StrMap;
use crate::text::{chars_of, decimal, push_decimal, str_eq, Text};

verus! {

/// Which characters the diagram and the chrome are drawn with.
#[derive(Debug, Clone, Copy, PartialEq, Eq, Structural)]
pub enum GlyphMode {
    Unicode,
    Ascii,
}

impl Default for GlyphMode {
    fn default() -> (r: GlyphMode)
        ensures
            r == GlyphMode::Unicode,
    {
        GlyphMode::Unicode
    }
}

/// How tall the boxes are: three rows, or one.
#[derive(Debug, Clone, Copy, PartialEq, Eq, Structural)]
pub enum Density {
    Comfortable,
    Compact,
}

/// What a node is built as; its colour follows from it.
#[derive(Debug, Clone, Copy, PartialEq, Eq, Structural)]
pub enum MaterializationClass {
    Plain,
    Source,
    Seed,
    Snapshot,
    Exposure,
    View,
    Table,
    Incremental,
    Ephemeral,
}

/// The class of a resource type and a materialization.
pub open spec fn class_of(resource_type: Text, materialized: Option<Text>) -> MaterializationClass {
    if resource_type == "source"@ {
        MaterializationClass::Source
    } else if resource_type == "seed"@ {
        MaterializationClass::Seed
    } else if resource_type == "snapshot"@ {
        MaterializationClass::Snapshot
    } else if resource_type == "exposure"@ {
        MaterializationClass::Exposure
    } else if materialized == Some("view"@) {
        MaterializationClass::View
    } else if materialized == Some("table"@) {
        MaterializationClass::Table
    } else if materialized == Some("incremental"@) {
        MaterializationClass::Incremental
    } else if materialized == Some("ephemeral"@) {
        MaterializationClass::Ephemeral
    } else {
        MaterializationClass::Plain
    }
}

impl MaterializationClass {
    /// The class of a node: its resource type where that says enough, else its
    /// materialization.
    pub fn classify(resource_type: &str, materialized: Option<&str>) -> (r: MaterializationClass)
        ensures
            r == class_of(resource_type@, materialized.deep_view()),
    {
        if str_eq(resource_type, "source") {
            return MaterializationClass::Source;
        }
        if str_eq(resource_type, "seed") {
            return MaterializationClass::Seed;
        }
        if str_eq(resource_type, "snapshot") {
            return MaterializationClass::Snapshot;
        }
        if str_eq(resource_type, "exposure") {
            return MaterializationClass::Exposure;
        }
        match materialized {
            Some(m) => {
                if str_eq(m, "view") {
                    MaterializationClass::View
                } else if str_eq(m, "table") {
                    MaterializationClass::Table
                } else if str_eq(m, "incremental") {
                    MaterializationClass::Incremental
                } else if str_eq(m, "ephemeral") {
                    MaterializationClass::Ephemeral
                } else {
                    MaterializationClass::Plain
                }
            },
            None => MaterializationClass::Plain,
        }
    }
}

/// Which question the lineage is coloured by.
#[derive(Debug, Clone, Copy, PartialEq, Eq, Structural)]
pub enum LineageLens {
    Off,
    Coverage,
    DegreeHeat,
    Layer,
    LayerViolation,
    Diff,
}

/// The answer of a lens for one node.
#[derive(Debug, Clone, Copy, PartialEq, Eq, Structural)]
pub enum LensTint {
    Untinted,
    Warn,
    HeatLow,
    HeatMid,
    HeatHigh,
    LayerStaging,
    LayerIntermediate,
    LayerMarts,
    LayerUtilities,
    LayerOther,
    Violation,
    DiffAdded,
    DiffModified,
}

/// How a cell of the diagram is shown.
#[derive(Debug, Clone, Copy, PartialEq, Eq, Structural)]
pub struct CellAttr {
    pub class: MaterializationClass,
    pub lens: LensTint,
    pub dimmed: bool,
    pub on_path: bool,
}

/// A cell without any emphasis.
pub open spec fn plain_attr() -> CellAttr {
    CellAttr { class: MaterializationClass::Plain, lens: LensTint::Untinted, dimmed: false, on_path: false }
}

impl Default for CellAttr {
    fn default() -> (r: CellAttr)
        ensures
            r == plain_attr(),
    {
        CellAttr { class: MaterializationClass::Plain, lens: LensTint::Untinted, dimmed: false, on_path: false }
    }
}

/// A box of the diagram, in cells.
#[derive(Debug, Clone, Copy, PartialEq, Eq, Structural)]
pub struct Rect {
    pub x: usize,
    pub y: usize,
    pub width: usize,
    pub height: usize,
}

impl DeepView for Rect {
    type V = Rect;

    open spec fn deep_view(&self) -> Rect {
        *self
    }
}

impl DeepView for CellAttr {
    type V = CellAttr;

    open spec fn deep_view(&self) -> CellAttr {
        *self
    }
}

/// The cells of the connector of one edge, from the parent to the arrow head.
#[derive(Debug, PartialEq, Eq)]
pub struct EdgeCells {
    pub parent: String,
    pub child: String,
    pub cells: Vec<(usize, usize)>,
}

/// Model of [`EdgeCells`].
pub struct EdgeCellsModel {
    pub parent: Text,
    pub child: Text,
    pub cells: Seq<(usize, usize)>,
}

impl DeepView for EdgeCells {
    type V = EdgeCellsModel;

    open spec fn deep_view(&self) -> EdgeCellsModel {
        EdgeCellsModel { parent: self.parent@, child: self.child@, cells: self.cells@ }
    }
}

/// The drawn characters, row by row.
#[derive(Debug, PartialEq, Eq)]
pub struct CharGrid {
    pub rows: Vec<String>,
}

/// A placed and drawn subgraph.
#[derive(Debug, PartialEq, Eq)]
pub struct Layout {
    pub rects: StrMap<Rect>,
    pub columns: StrMap<usize>,
    pub edge_cells: Vec<EdgeCells>,
    pub grid: CharGrid,
    pub node_styles: StrMap<CellAttr>,
    pub edge_styles: Vec<CellAttr>,
}

/// Model of [`Layout`].
pub struct LayoutModel {
    pub rects: Map<Text, Rect>,
    pub columns: Map<Text, usize>,
    pub edge_cells: Seq<EdgeCellsModel>,
    pub rows: Seq<Text>,
    pub node_styles: Map<Text, CellAttr>,
    pub edge_styles: Seq<CellAttr>,
}

impl DeepView for Layout {
    type V = LayoutModel;

    open spec fn deep_view(&self) -> LayoutModel {
        LayoutModel {
            rects: self.rects@,
            columns: self.columns@,
            edge_cells: self.edge_cells.deep_view(),
            rows: self.grid.rows.deep_view(),
            node_styles: self.node_styles@,
            edge_styles: self.edge_styles@,
        }
    }
}

// ---- bounded arithmetic ----

/// A number held at the largest that a machine word can hold.
pub open spec fn capped(n: int) -> usize {
    if n > usize::MAX {
        usize::MAX
    } else {
        n as usize
    }
}

/// The sum of two numbers, held at the largest.
pub fn plus(a: usize, b: usize) -> (r: usize)
    ensures
        r == capped(a + b),
{
    a.saturating_add(b)
}

pub open spec fn larger(a: usize, b: usize) -> usize {
    if a < b {
        b
    } else {
        a
    }
}

fn max_of(a: usize, b: usize) -> (r: usize)
    ensures
        r == larger(a, b),
{
    if a < b {
        b
    } else {
        a
    }
}

// ---- columns ----

/// The most hops, up to `k`, of a walk along `all` that ends at `v`, taking
/// only the edges `es` for the last hop.
pub open spec fn hops_in(all: Seq<(Text, Text)>, es: Seq<(Text, Text)>, k: nat, v: Text) -> usize
    decreases k, es.len(),
{
    if es.len() == 0 || k == 0 {
        0
    } else {
        let rest = hops_in(all, es.drop_last(), k, v);
        if es.last().1 == v {
            larger(rest, capped(hops_in(all, all, (k - 1) as nat, es.last().0) + 1))
        } else {
            rest
        }
    }
}

/// The column of a node: the length of the longest path that leads to it. Where
/// edges form a cycle, walks are cut off after as many hops as there are nodes.
pub open spec fn column_of(sg: SubgraphModel, v: Text) -> usize {
    hops_in(sg.edges, sg.edges, sg.nodes.len(), v)
}

fn index_of_node(nodes: &Vec<NodeInfo>, uid: &str) -> (r: usize)
    requires
        exists|i: int| 0 <= i < nodes.deep_view().len() && (#[trigger] nodes.deep_view()[i]).unique_id == uid@,
    ensures
        r < nodes@.len(),
        nodes@[r as int].unique_id@ == uid@,
{
    let mut i: usize = 0;
    while i < nodes.len()
        invariant
            i <= nodes@.len(),
            forall|j: int| 0 <= j < i ==> (#[trigger] nodes@[j]).unique_id@ != uid@,
            exists|i: int| 0 <= i < nodes.deep_view().len() && (#[trigger] nodes.deep_view()[i]).unique_id == uid@,
        decreases nodes@.len() - i,
    {
        if str_eq(nodes[i].unique_id.as_str(), uid) {
            return i;
        }
        i = i + 1;
    }
    proof {
        let k = choose|i: int| 0 <= i < nodes.deep_view().len() && (#[trigger] nodes.deep_view()[i]).unique_id == uid@;
        assert(nodes@[k].unique_id@ == uid@);
    }
    0
}

/// The column of each node.
fn columns(sg: &Subgraph) -> (r: Vec<usize>)
    requires
        sg.deep_view().closed(),
    ensures
        r@.len() == sg.nodes@.len(),
        forall|i: int| 0 <= i < r@.len() ==> #[trigger] r@[i] == column_of(sg.deep_view(), sg.nodes@[i].unique_id@),
{
    let ghost m = sg.deep_view();
    let ghost all = m.edges;
    let n: usize = sg.nodes.len();
    let mut cols: Vec<usize> = Vec::new();
    let mut i: usize = 0;
    while i < n
        invariant
            i <= n,
            cols@.len() == i,
            forall|j: int| 0 <= j < i ==> #[trigger] cols@[j] == 0,
        decreases n - i,
    {
        cols.push(0);
        i = i + 1;
    }
    let mut k: usize = 0;
    while k < n
        invariant
            m == sg.deep_view(),
            m.closed(),
            all == m.edges,
            n == sg.nodes@.len(),
            k <= n,
            cols@.len() == n,
            forall|j: int| 0 <= j < n ==> #[trigger] cols@[j] == hops_in(all, all, k as nat, sg.nodes@[j].unique_id@),
        decreases n - k,
    {
        let mut next: Vec<usize> = Vec::new();
        let mut v: usize = 0;
        while v < n
            invariant
                m == sg.deep_view(),
                m.closed(),
                all == m.edges,
                n == sg.nodes@.len(),
                k < n,
                v <= n,
                cols@.len() == n,
                next@.len() == v,
                forall|j: int| 0 <= j < n ==> #[trigger] cols@[j] == hops_in(all, all, k as nat, sg.nodes@[j].unique_id@),
                forall|j: int| 0 <= j < v ==> #[trigger] next@[j] == hops_in(all, all, (k + 1) as nat, sg.nodes@[j].unique_id@),
            decreases n - v,
        {
            let ghost id = sg.nodes@[v as int].unique_id@;
            let mut best: usize = 0;
            let mut e: usize = 0;
            while e < sg.edges.len()
                invariant
                    m == sg.deep_view(),
                    m.closed(),
                    all == m.edges,
                    n == sg.nodes@.len(),
                    v < n,
                    id == sg.nodes@[v as int].unique_id@,
                    e <= sg.edges@.len(),
                    cols@.len() == n,
                    forall|j: int| 0 <= j < n ==> #[trigger] cols@[j] == hops_in(all, all, k as nat, sg.nodes@[j].unique_id@),
                    best == hops_in(all, all.take(e as int), (k + 1) as nat, id),
                decreases sg.edges@.len() - e,
            {
                proof {
                    assert(all.take(e + 1).drop_last() =~= all.take(e as int));
                    assert(all[e as int] == sg.edges@[e as int].deep_view());
                    assert(m.has(all[e as int].0));
                }
                if str_eq(sg.edges[e].child.as_str(), sg.nodes[v].unique_id.as_str()) {
                    let p = index_of_node(&sg.nodes, sg.edges[e].parent.as_str());
                    best = max_of(best, plus(cols[p], 1));
                }
                e = e + 1;
            }
            proof {
                assert(all.take(all.len() as int) =~= all);
            }
            next.push(best);
            v = v + 1;
        }
        cols = next;
        k = k + 1;
    }
    cols
}

// ---- boxes ----

/// The word in a box's top border.
pub open spec fn class_label(n: NodeModel) -> Text {
    match class_of(n.resource_type, n.materialized) {
        MaterializationClass::Plain => ""@,
        MaterializationClass::Source => "Source"@,
        MaterializationClass::Seed => "Seed"@,
        MaterializationClass::Snapshot => "Snapshot"@,
        MaterializationClass::Exposure => "Exposure"@,
        MaterializationClass::View => "View"@,
        MaterializationClass::Table => "Table"@,
        MaterializationClass::Incremental => "Incremental"@,
        MaterializationClass::Ephemeral => "Ephemeral"@,
    }
}

fn label_of(n: &NodeInfo) -> (r: &'static str)
    ensures
        r@ == class_label(n.deep_view()),
{
    let mat: Option<&str> = match &n.materialized {
        Some(m) => Some(m.as_str()),
        None => None,
    };
    match MaterializationClass::classify(n.resource_type.as_str(), mat) {
        MaterializationClass::Plain => "",
        MaterializationClass::Source => "Source",
        MaterializationClass::Seed => "Seed",
        MaterializationClass::Snapshot => "Snapshot",
        MaterializationClass::Exposure => "Exposure",
        MaterializationClass::View => "View",
        MaterializationClass::Table => "Table",
        MaterializationClass::Incremental => "Incremental",
        MaterializationClass::Ephemeral => "Ephemeral",
    }
}

/// The text in a box's bottom border: how many tests the node has, if any.
pub open spec fn tests_label(n: NodeModel) -> Text {
    if n.test_count > 0 {
        "tests:"@ + decimal(n.test_count)
    } else {
        ""@
    }
}

/// What a box shows: the name, the class and the tests.
#[derive(Debug)]
pub struct Face {
    pub name: Vec<char>,
    pub class: Vec<char>,
    pub tests: Vec<char>,
}

/// Model of [`Face`].
pub struct FaceModel {
    pub name: Text,
    pub class: Text,
    pub tests: Text,
}

impl DeepView for Face {
    type V = FaceModel;

    open spec fn deep_view(&self) -> FaceModel {
        FaceModel { name: self.name@, class: self.class@, tests: self.tests@ }
    }
}

/// The face of a node.
pub open spec fn face_of(n: NodeModel) -> FaceModel {
    FaceModel { name: n.name, class: class_label(n), tests: tests_label(n) }
}

fn face(n: &NodeInfo) -> (r: Face)
    ensures
        r.deep_view() == face_of(n.deep_view()),
{
    let mut tests = String::new();
    if n.test_count > 0 {
        tests.append("tests:");
        push_decimal(&mut tests, n.test_count);
        assert(tests@ =~= "tests:"@ + decimal(n.test_count as nat));
    } else {
        proof {
            reveal_strlit("");
            assert(tests@ =~= ""@);
        }
    }
    Face { name: chars_of(n.name.as_str()), class: chars_of(label_of(n)), tests: chars_of(tests.as_str()) }
}

/// The height of a box.
pub open spec fn box_height(density: Density) -> usize {
    match density {
        Density::Comfortable => 3,
        Density::Compact => 1,
    }
}

/// The distance between the tops of two stacked boxes.
pub open spec fn pitch(density: Density) -> usize {
    match density {
        Density::Comfortable => 4,
        Density::Compact => 1,
    }
}

/// The width of a box: room for the name, and in a tall box for the labels in
/// its borders.
pub open spec fn box_width(f: FaceModel, density: Density) -> usize {
    match density {
        Density::Comfortable => larger(
            larger(capped(capped(f.name.len() as int) + 4), capped(capped(f.class.len() as int) + 2)),
            capped(capped(f.tests.len() as int) + 3),
        ),
        Density::Compact => capped(capped(f.name.len() as int) + 2),
    }
}

fn width_of(f: &Face, density: Density) -> (r: usize)
    ensures
        r == box_width(f.deep_view(), density),
{
    match density {
        Density::Comfortable => max_of(
            max_of(plus(f.name.len(), 4), plus(f.class.len(), 2)),
            plus(f.tests.len(), 3),
        ),
        Density::Compact => plus(f.name.len(), 2),
    }
}

/// The faces of the nodes, in order.
pub open spec fn faces_of(sg: SubgraphModel) -> Seq<FaceModel> {
    sg.nodes.map_values(|n: NodeModel| face_of(n))
}

/// The columns of the nodes, in order.
pub open spec fn columns_of(sg: SubgraphModel) -> Seq<usize> {
    sg.nodes.map_values(|n: NodeModel| column_of(sg, n.unique_id))
}

/// How many of the first `upto` nodes stand in column `c`.
pub open spec fn stacked(cols: Seq<usize>, c: usize, upto: int) -> nat
    decreases upto,
{
    if upto <= 0 {
        0
    } else {
        stacked(cols, c, upto - 1) + if cols[upto - 1] == c { 1nat } else { 0nat }
    }
}

/// The width of the widest box of column `c` among the first `upto` nodes.
pub open spec fn widest(faces: Seq<FaceModel>, cols: Seq<usize>, c: usize, density: Density, upto: int) -> usize
    decreases upto,
{
    if upto <= 0 {
        0
    } else if cols[upto - 1] == c {
        larger(widest(faces, cols, c, density, upto - 1), box_width(faces[upto - 1], density))
    } else {
        widest(faces, cols, c, density, upto - 1)
    }
}

/// The left edge of column `c`: the columns to its left, three cells apart.
pub open spec fn column_x(faces: Seq<FaceModel>, cols: Seq<usize>, c: nat, density: Density) -> usize
    decreases c,
{
    if c == 0 {
        0
    } else {
        let left = (c - 1) as nat;
        capped(
            column_x(faces, cols, left, density) + capped(
                widest(faces, cols, capped(left as int), density, cols.len() as int) + 3,
            ),
        )
    }
}

/// The box of node `i`: at the left edge of its column, below the nodes of the
/// same column that come before it.
pub open spec fn rect_of(faces: Seq<FaceModel>, cols: Seq<usize>, i: int, density: Density) -> Rect {
    Rect {
        x: column_x(faces, cols, cols[i] as nat, density),
        y: capped(stacked(cols, cols[i], i) * pitch(density)),
        width: box_width(faces[i], density),
        height: box_height(density),
    }
}

/// The boxes of all nodes, in order.
pub open spec fn boxes_of(sg: SubgraphModel, density: Density) -> Seq<Rect> {
    Seq::new(sg.nodes.len(), |i: int| rect_of(faces_of(sg), columns_of(sg), i, density))
}

fn widest_in(faces: &Vec<Face>, cols: &Vec<usize>, c: usize, density: Density) -> (r: usize)
    requires
        faces@.len() == cols@.len(),
    ensures
        r == widest(faces.deep_view(), cols@, c, density, cols@.len() as int),
{
    let mut best: usize = 0;
    let mut i: usize = 0;
    while i < cols.len()
        invariant
            i <= cols@.len(),
            faces@.len() == cols@.len(),
            best == widest(faces.deep_view(), cols@, c, density, i as int),
        decreases cols@.len() - i,
    {
        if cols[i] == c {
            assert(faces.deep_view()[i as int] == faces@[i as int].deep_view());
            best = max_of(best, width_of(&faces[i], density));
        }
        i = i + 1;
    }
    best
}

fn left_edge(faces: &Vec<Face>, cols: &Vec<usize>, c: usize, density: Density) -> (r: usize)
    requires
        faces@.len() == cols@.len(),
    ensures
        r == column_x(faces.deep_view(), cols@, c as nat, density),
{
    let mut x: usize = 0;
    let mut k: usize = 0;
    while k < c
        invariant
            k <= c,
            faces@.len() == cols@.len(),
            x == column_x(faces.deep_view(), cols@, k as nat, density),
        decreases c - k,
    {
        x = plus(x, plus(widest_in(faces, cols, k, density), 3));
        k = k + 1;
    }
    x
}

fn stack_height(cols: &Vec<usize>, c: usize, upto: usize) -> (r: usize)
    requires
        upto <= cols@.len(),
    ensures
        r == stacked(cols@, c, upto as int),
        r <= upto,
{
    let mut n: usize = 0;
    let mut i: usize = 0;
    while i < upto
        invariant
            i <= upto <= cols@.len(),
            n <= i,
            n == stacked(cols@, c, i as int),
        decreases upto - i,
    {
        if cols[i] == c {
            n = n + 1;
        }
        i = i + 1;
    }
    n
}

fn place(faces: &Vec<Face>, cols: &Vec<usize>, density: Density) -> (r: Vec<Rect>)
    requires
        faces@.len() == cols@.len(),
    ensures
        r@.len() == cols@.len(),
        forall|i: int| 0 <= i < r@.len() ==> #[trigger] r@[i] == rect_of(faces.deep_view(), cols@, i, density),
{
    let mut out: Vec<Rect> = Vec::new();
    let mut i: usize = 0;
    while i < cols.len()
        invariant
            i <= cols@.len(),
            faces@.len() == cols@.len(),
            out@.len() == i,
            forall|j: int| 0 <= j < i ==> #[trigger] out@[j] == rect_of(faces.deep_view(), cols@, j, density),
        decreases cols@.len() - i,
    {
        let row: usize = stack_height(cols, cols[i], i);
        let y: usize = match density {
            Density::Comfortable => if row > usize::MAX / 4 {
                usize::MAX
            } else {
                row * 4
            },
            Density::Compact => row,
        };
        let height: usize = match density {
            Density::Comfortable => 3,
            Density::Compact => 1,
        };
        assert(faces.deep_view()[i as int] == faces@[i as int].deep_view());
        out.push(Rect { x: left_edge(faces, cols, cols[i], density), y, width: width_of(&faces[i], density), height });
        i = i + 1;
    }
    out
}

// ---- connectors ----

/// The row in the middle of a box.
pub open spec fn middle(r: Rect) -> usize {
    capped(r.y + r.height / 2)
}

/// The row in the middle of a box.
pub fn mid_row(r: Rect) -> (m: usize)
    ensures
        m == middle(r),
{
    plus(r.y, r.height / 2)
}

/// The connector between two boxes: along the parent's middle row up to the
/// child's left side, then up or down that side to the child's middle row. None
/// where the child does not stand to the right of the parent.
pub open spec fn connector(p: Rect, c: Rect) -> Seq<(usize, usize)> {
    let x0 = capped(p.x + p.width);
    if c.x == 0 || x0 >= c.x {
        Seq::empty()
    } else {
        let x1 = c.x - 1;
        let y0 = middle(p);
        let y1 = middle(c);
        Seq::new((c.x - x0) as nat, |i: int| ((x0 + i) as usize, y0)) + if y0 <= y1 {
            Seq::new((y1 - y0) as nat, |i: int| (x1 as usize, (y0 + 1 + i) as usize))
        } else {
            Seq::new((y0 - y1) as nat, |i: int| (x1 as usize, (y0 - 1 - i) as usize))
        }
    }
}

fn connect(p: Rect, c: Rect) -> (r: Vec<(usize, usize)>)
    ensures
        r@ == connector(p, c),
{
    let mut cells: Vec<(usize, usize)> = Vec::new();
    let x0 = plus(p.x, p.width);
    if c.x == 0 || x0 >= c.x {
        assert(cells@ =~= connector(p, c));
        return cells;
    }
    let x1: usize = c.x - 1;
    let y0 = mid_row(p);
    let y1 = mid_row(c);
    let ghost flat = Seq::new((c.x - x0) as nat, |i: int| ((x0 + i) as usize, y0));
    let mut x: usize = x0;
    while x < c.x
        invariant
            x0 <= x <= c.x,
            flat == Seq::new((c.x - x0) as nat, |i: int| ((x0 + i) as usize, y0)),
            cells@ == flat.take(x - x0),
        decreases c.x - x,
    {
        cells.push((x, y0));
        assert(flat.take(x + 1 - x0) =~= flat.take(x - x0).push((x, y0)));
        x = x + 1;
    }
    assert(flat.take(c.x - x0) =~= flat);
    if y0 <= y1 {
        let ghost rise = Seq::new((y1 - y0) as nat, |i: int| (x1, (y0 + 1 + i) as usize));
        let mut y: usize = y0;
        assert(cells@ =~= flat + rise.take(0));
        while y < y1
            invariant
                y0 <= y <= y1,
                rise == Seq::new((y1 - y0) as nat, |i: int| (x1, (y0 + 1 + i) as usize)),
                cells@ == flat + rise.take(y - y0),
            decreases y1 - y,
        {
            cells.push((x1, y + 1));
            assert(flat + rise.take(y + 1 - y0) =~= (flat + rise.take(y - y0)).push((x1, (y + 1) as usize)));
            y = y + 1;
        }
        assert(rise.take(y1 - y0) =~= rise);
    } else {
        let ghost rise = Seq::new((y0 - y1) as nat, |i: int| (x1, (y0 - 1 - i) as usize));
        let mut y: usize = y0;
        assert(cells@ =~= flat + rise.take(0));
        while y > y1
            invariant
                y1 <= y <= y0,
                rise == Seq::new((y0 - y1) as nat, |i: int| (x1, (y0 - 1 - i) as usize)),
                cells@ == flat + rise.take(y0 - y),
            decreases y,
        {
            cells.push((x1, y - 1));
            assert(flat + rise.take(y0 - y + 1) =~= (flat + rise.take(y0 - y)).push((x1, (y - 1) as usize)));
            y = y - 1;
        }
        assert(rise.take(y0 - y1) =~= rise);
    }
    assert(cells@ =~= connector(p, c));
    cells
}

/// The connectors of the edges, in order.
pub open spec fn connectors_of(sg: SubgraphModel, rects: Map<Text, Rect>) -> Seq<EdgeCellsModel> {
    sg.edges.map_values(
        |e: (Text, Text)| EdgeCellsModel { parent: e.0, child: e.1, cells: connector(rects[e.0], rects[e.1]) },
    )
}

// ---- drawing ----

/// A cell lies inside a box.
pub open spec fn inside(r: Rect, x: usize, y: usize) -> bool {
    r.x <= x && x - r.x < r.width && r.y <= y && y - r.y < r.height
}

fn is_inside(r: Rect, x: usize, y: usize) -> (b: bool)
    ensures
        b == inside(r, x, y),
{
    r.x <= x && x - r.x < r.width && r.y <= y && y - r.y < r.height
}

/// The first box, from `from` on, that a cell lies in.
pub open spec fn box_at(boxes: Seq<Rect>, x: usize, y: usize, from: int) -> Option<int>
    decreases boxes.len() - from,
{
    if from < 0 || from >= boxes.len() {
        None
    } else if inside(boxes[from], x, y) {
        Some(from)
    } else {
        box_at(boxes, x, y, from + 1)
    }
}

/// The characters that borders are drawn with: horizontal, vertical, the four
/// corners from the top left clockwise, and the arrow head.
pub struct Pen {
    pub across: char,
    pub down: char,
    pub top_left: char,
    pub top_right: char,
    pub bottom_right: char,
    pub bottom_left: char,
    pub arrow: char,
}

/// The pen of a glyph mode.
pub open spec fn pen_of(mode: GlyphMode) -> Pen {
    match mode {
        GlyphMode::Unicode => Pen {
            across: '─',
            down: '│',
            top_left: '╭',
            top_right: '╮',
            bottom_right: '╯',
            bottom_left: '╰',
            arrow: '▶',
        },
        GlyphMode::Ascii => Pen {
            across: '-',
            down: '|',
            top_left: '+',
            top_right: '+',
            bottom_right: '+',
            bottom_left: '+',
            arrow: '>',
        },
    }
}

fn pen(mode: GlyphMode) -> (r: Pen)
    ensures
        r == pen_of(mode),
{
    match mode {
        GlyphMode::Unicode => Pen {
            across: '─',
            down: '│',
            top_left: '╭',
            top_right: '╮',
            bottom_right: '╯',
            bottom_left: '╰',
            arrow: '▶',
        },
        GlyphMode::Ascii => Pen {
            across: '-',
            down: '|',
            top_left: '+',
            top_right: '+',
            bottom_right: '+',
            bottom_left: '+',
            arrow: '>',
        },
    }
}

/// The character of a tall box at (`dx`, `dy`) from its corner: the class in
/// the top border, the name, the tests at the right of the bottom border.
pub open spec fn tall_glyph(f: FaceModel, w: int, dx: int, dy: int, pen: Pen) -> char {
    if dy == 0 {
        if dx == 0 {
            pen.top_left
        } else if dx == w - 1 {
            pen.top_right
        } else if dx - 1 < f.class.len() {
            f.class[dx - 1]
        } else {
            pen.across
        }
    } else if dy == 1 {
        if dx == 0 || dx == w - 1 {
            pen.down
        } else if 2 <= dx && dx - 2 < f.name.len() {
            f.name[dx - 2]
        } else {
            ' '
        }
    } else {
        if dx == 0 {
            pen.bottom_left
        } else if dx == w - 1 {
            pen.bottom_right
        } else if w - 2 - f.tests.len() <= dx && dx < w - 2 {
            f.tests[dx - (w - 2 - f.tests.len())]
        } else {
            pen.across
        }
    }
}

/// The character of a one-row box at `dx`: the name in square brackets.
pub open spec fn flat_glyph(f: FaceModel, w: int, dx: int) -> char {
    if dx == 0 {
        '['
    } else if dx == w - 1 {
        ']'
    } else if dx - 1 < f.name.len() {
        f.name[dx - 1]
    } else {
        ' '
    }
}

pub open spec fn box_glyph(f: FaceModel, r: Rect, x: usize, y: usize, density: Density, pen: Pen) -> char {
    match density {
        Density::Comfortable => tall_glyph(f, r.width as int, x - r.x, y - r.y, pen),
        Density::Compact => flat_glyph(f, r.width as int, x - r.x),
    }
}

fn draw_box(f: &Face, r: Rect, x: usize, y: usize, density: Density, pen: &Pen) -> (c: char)
    requires
        inside(r, x, y),
        r.width == box_width(f.deep_view(), density),
        r.height == box_height(density),
    ensures
        c == box_glyph(f.deep_view(), r, x, y, density, *pen),
{
    let w: usize = r.width;
    let dx: usize = x - r.x;
    let dy: usize = y - r.y;
    match density {
        Density::Comfortable => {
            if dy == 0 {
                if dx == 0 {
                    pen.top_left
                } else if dx == w - 1 {
                    pen.top_right
                } else if dx - 1 < f.class.len() {
                    f.class[dx - 1]
                } else {
                    pen.across
                }
            } else if dy == 1 {
                if dx == 0 || dx == w - 1 {
                    pen.down
                } else if 2 <= dx && dx - 2 < f.name.len() {
                    f.name[dx - 2]
                } else {
                    ' '
                }
            } else {
                let t: usize = f.tests.len();
                if dx == 0 {
                    pen.bottom_left
                } else if dx == w - 1 {
                    pen.bottom_right
                } else if w >= 2 && dx < w - 2 && (t >= w - 2 || w - 2 - t <= dx) {
                    if t >= w - 2 {
                        f.tests[dx + (t - (w - 2))]
                    } else {
                        f.tests[dx - (w - 2 - t)]
                    }
                } else {
                    pen.across
                }
            }
        },
        Density::Compact => {
            if dx == 0 {
                '['
            } else if dx == w - 1 {
                ']'
            } else if dx - 1 < f.name.len() {
                f.name[dx - 1]
            } else {
                ' '
            }
        },
    }
}

/// What the connectors from `from` on show at a cell: an arrow head at the end
/// of one, else the line of the first that passes; nothing where none does.
pub open spec fn line_at(lines: Seq<EdgeCellsModel>, x: usize, y: usize, from: int, pen: Pen) -> Option<char>
    decreases lines.len() - from,
{
    if from < 0 || from >= lines.len() {
        None
    } else {
        let cells = lines[from].cells;
        let rest = line_at(lines, x, y, from + 1, pen);
        if cells.len() > 0 && cells.last() == (x, y) {
            Some(pen.arrow)
        } else if rest == Some(pen.arrow) {
            rest
        } else if cells.contains((x, y)) {
            Some(
                if x == cells.last().0 && y != cells.first().1 {
                    pen.down
                } else {
                    pen.across
                },
            )
        } else {
            rest
        }
    }
}

fn holds_cell(cells: &Vec<(usize, usize)>, x: usize, y: usize) -> (r: bool)
    ensures
        r == cells@.contains((x, y)),
{
    let mut i: usize = 0;
    while i < cells.len()
        invariant
            i <= cells@.len(),
            forall|j: int| 0 <= j < i ==> #[trigger] cells@[j] != (x, y),
        decreases cells@.len() - i,
    {
        if cells[i].0 == x && cells[i].1 == y {
            assert(cells@[i as int] == (x, y));
            return true;
        }
        i = i + 1;
    }
    false
}

fn draw_line(lines: &Vec<EdgeCells>, x: usize, y: usize, from: usize, pen: &Pen) -> (r: Option<char>)
    requires
        from <= lines@.len(),
    ensures
        r == line_at(lines.deep_view(), x, y, from as int, *pen),
{
    let mut out: Option<char> = None;
    let ghost all = lines.deep_view();
    let mut i: usize = lines.len();
    while i > from
        invariant
            from <= i <= lines@.len(),
            all == lines.deep_view(),
            out == line_at(all, x, y, i as int, *pen),
        decreases i,
    {
        i = i - 1;
        let cells = &lines[i].cells;
        assert(all[i as int] == lines@[i as int].deep_view());
        let n: usize = cells.len();
        let arrow_behind = match out {
            Some(c) => c == pen.arrow,
            None => false,
        };
        if n > 0 && cells[n - 1].0 == x && cells[n - 1].1 == y {
            assert(cells@.last() == (x, y));
            out = Some(pen.arrow);
        } else if arrow_behind {
        } else if holds_cell(cells, x, y) {
            out = Some(
                if x == cells[n - 1].0 && y != cells[0].1 {
                    pen.down
                } else {
                    pen.across
                },
            );
        }
    }
    out
}

/// The character of a cell: boxes lie on top of connectors.
pub open spec fn glyph_at(faces: Seq<FaceModel>, boxes: Seq<Rect>, lines: Seq<EdgeCellsModel>, x: usize, y: usize, density: Density, pen: Pen) -> char {
    match box_at(boxes, x, y, 0) {
        Some(i) => box_glyph(faces[i], boxes[i], x, y, density, pen),
        None => match line_at(lines, x, y, 0, pen) {
            Some(c) => c,
            None => ' ',
        },
    }
}

/// The extent of the boxes to the right.
pub open spec fn total_width(boxes: Seq<Rect>, upto: int) -> usize
    decreases upto,
{
    if upto <= 0 {
        0
    } else {
        larger(total_width(boxes, upto - 1), capped(boxes[upto - 1].x + boxes[upto - 1].width))
    }
}

/// The extent of the boxes downward.
pub open spec fn total_height(boxes: Seq<Rect>, upto: int) -> usize
    decreases upto,
{
    if upto <= 0 {
        0
    } else {
        larger(total_height(boxes, upto - 1), capped(boxes[upto - 1].y + boxes[upto - 1].height))
    }
}

/// Every row of the drawing.
pub open spec fn rows_of(faces: Seq<FaceModel>, boxes: Seq<Rect>, lines: Seq<EdgeCellsModel>, density: Density, pen: Pen) -> Seq<Text> {
    let w = total_width(boxes, boxes.len() as int);
    let h = total_height(boxes, boxes.len() as int);
    Seq::new(
        h as nat,
        |y: int| Seq::new(w as nat, |x: int| glyph_at(faces, boxes, lines, x as usize, y as usize, density, pen)),
    )
}

fn draw_cell(faces: &Vec<Face>, boxes: &Vec<Rect>, lines: &Vec<EdgeCells>, x: usize, y: usize, density: Density, pen: &Pen) -> (c: char)
    requires
        faces@.len() == boxes@.len(),
        forall|i: int| 0 <= i < boxes@.len() ==> (#[trigger] boxes@[i]).width == box_width(faces.deep_view()[i], density)
            && boxes@[i].height == box_height(density),
    ensures
        c == glyph_at(faces.deep_view(), boxes@, lines.deep_view(), x, y, density, *pen),
{
    let mut i: usize = 0;
    while i < boxes.len()
        invariant
            i <= boxes@.len(),
            faces@.len() == boxes@.len(),
            forall|i: int| 0 <= i < boxes@.len() ==> (#[trigger] boxes@[i]).width == box_width(faces.deep_view()[i], density)
                && boxes@[i].height == box_height(density),
            box_at(boxes@, x, y, 0) == box_at(boxes@, x, y, i as int),
        decreases boxes@.len() - i,
    {
        if is_inside(boxes[i], x, y) {
            assert(faces.deep_view()[i as int] == faces@[i as int].deep_view());
            return draw_box(&faces[i], boxes[i], x, y, density, pen);
        }
        i = i + 1;
    }
    match draw_line(lines, x, y, 0, pen) {
        Some(c) => c,
        None => ' ',
    }
}

fn draw(faces: &Vec<Face>, boxes: &Vec<Rect>, lines: &Vec<EdgeCells>, density: Density, mode: GlyphMode) -> (r: Vec<String>)
    requires
        faces@.len() == boxes@.len(),
        forall|i: int| 0 <= i < boxes@.len() ==> (#[trigger] boxes@[i]).width == box_width(faces.deep_view()[i], density)
            && boxes@[i].height == box_height(density),
    ensures
        r.deep_view() == rows_of(faces.deep_view(), boxes@, lines.deep_view(), density, pen_of(mode)),
{
    let ghost fs = faces.deep_view();
    let ghost ls = lines.deep_view();
    let p = pen(mode);
    let mut w: usize = 0;
    let mut h: usize = 0;
    let mut i: usize = 0;
    while i < boxes.len()
        invariant
            i <= boxes@.len(),
            w == total_width(boxes@, i as int),
            h == total_height(boxes@, i as int),
        decreases boxes@.len() - i,
    {
        w = max_of(w, plus(boxes[i].x, boxes[i].width));
        h = max_of(h, plus(boxes[i].y, boxes[i].height));
        i = i + 1;
    }
    let mut rows: Vec<String> = Vec::new();
    let mut y: usize = 0;
    while y < h
        invariant
            y <= h,
            p == pen_of(mode),
            fs == faces.deep_view(),
            ls == lines.deep_view(),
            faces@.len() == boxes@.len(),
            forall|i: int| 0 <= i < boxes@.len() ==> (#[trigger] boxes@[i]).width == box_width(faces.deep_view()[i], density)
                && boxes@[i].height == box_height(density),
            rows@.len() == y,
            forall|j: int| 0 <= j < y ==> (#[trigger] rows@[j])@ == Seq::new(
                w as nat,
                |x: int| glyph_at(fs, boxes@, ls, x as usize, j as usize, density, p),
            ),
        decreases h - y,
    {
        let mut row = String::new();
        let ghost want = Seq::new(w as nat, |x: int| glyph_at(fs, boxes@, ls, x as usize, y, density, p));
        let mut x: usize = 0;
        assert(row@ =~= want.take(0));
        while x < w
            invariant
                x <= w,
                fs == faces.deep_view(),
                ls == lines.deep_view(),
                faces@.len() == boxes@.len(),
                forall|i: int| 0 <= i < boxes@.len() ==> (#[trigger] boxes@[i]).width == box_width(faces.deep_view()[i], density)
                    && boxes@[i].height == box_height(density),
                want == Seq::new(w as nat, |x: int| glyph_at(fs, boxes@, ls, x as usize, y, density, p)),
                row@ == want.take(x as int),
            decreases w - x,
        {
            let c = draw_cell(faces, boxes, lines, x, y, density, &p);
            row.push(c);
            assert(want.take(x + 1) =~= want.take(x as int).push(c));
            x = x + 1;
        }
        assert(want.take(w as int) =~= want);
        rows.push(row);
        y = y + 1;
    }
    assert(rows.deep_view() =~= rows_of(fs, boxes@, ls, density, p));
    rows
}

// ---- the whole layout ----

/// The boxes of the first `upto` nodes by id.
pub open spec fn rects_upto(sg: SubgraphModel, boxes: Seq<Rect>, upto: int) -> Map<Text, Rect>
    decreases upto,
{
    if upto <= 0 {
        Map::empty()
    } else {
        rects_upto(sg, boxes, upto - 1).insert(sg.nodes[upto - 1].unique_id, boxes[upto - 1])
    }
}

/// The columns of the first `upto` nodes by id.
pub open spec fn columns_upto(sg: SubgraphModel, upto: int) -> Map<Text, usize>
    decreases upto,
{
    if upto <= 0 {
        Map::empty()
    } else {
        columns_upto(sg, upto - 1).insert(sg.nodes[upto - 1].unique_id, column_of(sg, sg.nodes[upto - 1].unique_id))
    }
}

/// The boxes of a subgraph by id.
pub open spec fn rects_of(sg: SubgraphModel, density: Density) -> Map<Text, Rect> {
    rects_upto(sg, boxes_of(sg, density), sg.nodes.len() as int)
}

/// The layout of a subgraph.
pub open spec fn layout_of(sg: SubgraphModel, mode: GlyphMode, density: Density) -> LayoutModel {
    let rects = rects_of(sg, density);
    LayoutModel {
        rects,
        columns: columns_upto(sg, sg.nodes.len() as int),
        edge_cells: connectors_of(sg, rects),
        rows: rows_of(faces_of(sg), boxes_of(sg, density), connectors_of(sg, rects), density, pen_of(mode)),
        node_styles: Map::empty(),
        edge_styles: Seq::empty(),
    }
}

spec fn has_before(sg: SubgraphModel, upto: int, u: Text) -> bool {
    exists|i: int| 0 <= i < upto && (#[trigger] sg.nodes[i]).unique_id == u
}

proof fn rects_upto_has(sg: SubgraphModel, boxes: Seq<Rect>, upto: int)
    requires
        0 <= upto <= sg.nodes.len(),
        boxes.len() == sg.nodes.len(),
    ensures
        forall|u: Text| #[trigger] rects_upto(sg, boxes, upto).contains_key(u) <==> has_before(sg, upto, u),
        forall|u: Text| #[trigger] columns_upto(sg, upto).contains_key(u) <==> has_before(sg, upto, u),
    decreases upto,
{
    if upto > 0 {
        rects_upto_has(sg, boxes, upto - 1);
        let last = sg.nodes[upto - 1].unique_id;
        assert forall|u: Text| #[trigger] has_before(sg, upto, u) <==> u == last || has_before(sg, upto - 1, u) by {
            if has_before(sg, upto, u) {
                let i = choose|i: int| 0 <= i < upto && (#[trigger] sg.nodes[i]).unique_id == u;
                assert(sg.nodes[i].unique_id == u);
            }
            if has_before(sg, upto - 1, u) {
                let i = choose|i: int| 0 <= i < upto - 1 && (#[trigger] sg.nodes[i]).unique_id == u;
                assert(sg.nodes[i].unique_id == u);
            }
            if u == last {
                assert(sg.nodes[upto - 1].unique_id == u);
            }
        }
        assert forall|u: Text| #[trigger] rects_upto(sg, boxes, upto).contains_key(u) <==> has_before(sg, upto, u) by {
            assert(rects_upto(sg, boxes, upto - 1).contains_key(u) <==> has_before(sg, upto - 1, u));
            assert(has_before(sg, upto, u) <==> u == last || has_before(sg, upto - 1, u));
        }
        assert forall|u: Text| #[trigger] columns_upto(sg, upto).contains_key(u) <==> has_before(sg, upto, u) by {
            assert(columns_upto(sg, upto - 1).contains_key(u) <==> has_before(sg, upto - 1, u));
            assert(has_before(sg, upto, u) <==> u == last || has_before(sg, upto - 1, u));
        }
    }
}

/// The layout has a box and a column for exactly the nodes of the subgraph.
pub proof fn layout_covers(sg: SubgraphModel, mode: GlyphMode, density: Density)
    ensures
        forall|u: Text| #[trigger] layout_of(sg, mode, density).rects.contains_key(u) <==> sg.has(u),
        forall|u: Text| #[trigger] layout_of(sg, mode, density).columns.contains_key(u) <==> sg.has(u),
{
    rects_upto_has(sg, boxes_of(sg, density), sg.nodes.len() as int);
}

impl Layout {
    /// The keyed parts keep their keys in order.
    pub open spec fn wf(&self) -> bool {
        self.rects.wf() && self.columns.wf() && self.node_styles.wf()
    }
}

/// Lays out and draws a subgraph with boxes of the given density.
pub fn layout_density(sg: &Subgraph, mode: GlyphMode, density: Density) -> (r: Layout)
    requires
        sg.deep_view().closed(),
    ensures
        r.wf(),
        r.deep_view() == layout_of(sg.deep_view(), mode, density),
{
    let ghost m = sg.deep_view();
    let cols = columns(sg);
    let mut faces: Vec<Face> = Vec::new();
    let mut i: usize = 0;
    while i < sg.nodes.len()
        invariant
            i <= sg.nodes@.len(),
            faces@.len() == i,
            forall|j: int| 0 <= j < i ==> (#[trigger] faces@[j]).deep_view() == face_of(sg.nodes@[j].deep_view()),
        decreases sg.nodes@.len() - i,
    {
        faces.push(face(&sg.nodes[i]));
        i = i + 1;
    }
    assert(faces.deep_view() =~= faces_of(m));
    assert(cols@ =~= columns_of(m));
    let boxes = place(&faces, &cols, density);
    assert(boxes@ =~= boxes_of(m, density));
    let mut rects: StrMap<Rect> = StrMap::new();
    let mut columns: StrMap<usize> = StrMap::new();
    let mut k: usize = 0;
    while k < sg.nodes.len()
        invariant
            m == sg.deep_view(),
            k <= sg.nodes@.len(),
            cols@ == columns_of(m),
            boxes@ == boxes_of(m, density),
            rects.wf(),
            columns.wf(),
            rects@ == rects_upto(m, boxes@, k as int),
            columns@ == columns_upto(m, k as int),
        decreases sg.nodes@.len() - k,
    {
        assert(m.nodes[k as int] == sg.nodes@[k as int].deep_view());
        rects.insert(sg.nodes[k].unique_id.clone(), boxes[k]);
        columns.insert(sg.nodes[k].unique_id.clone(), cols[k]);
        k = k + 1;
    }
    proof {
        rects_upto_has(m, boxes@, m.nodes.len() as int);
    }
    let mut edge_cells: Vec<EdgeCells> = Vec::new();
    let mut e: usize = 0;
    while e < sg.edges.len()
        invariant
            m == sg.deep_view(),
            m.closed(),
            e <= sg.edges@.len(),
            rects.wf(),
            forall|u: Text| m.has(u) ==> #[trigger] rects@.contains_key(u),
            edge_cells@.len() == e,
            forall|j: int| 0 <= j < e ==> (#[trigger] edge_cells@[j]).deep_view() == (EdgeCellsModel {
                parent: m.edges[j].0,
                child: m.edges[j].1,
                cells: connector(rects@[m.edges[j].0], rects@[m.edges[j].1]),
            }),
        decreases sg.edges@.len() - e,
    {
        let edge = &sg.edges[e];
        assert(m.edges[e as int] == edge.deep_view());
        assert(m.has(m.edges[e as int].0) && m.has(m.edges[e as int].1));
        assert(rects@.contains_key(edge.parent@) && rects@.contains_key(edge.child@));
        match (rects.get(edge.parent.as_str()), rects.get(edge.child.as_str())) {
            (Some(p), Some(c)) => {
                let cells = connect(*p, *c);
                edge_cells.push(EdgeCells { parent: edge.parent.clone(), child: edge.child.clone(), cells });
            },
            _ => {},
        }
        e = e + 1;
    }
    assert(edge_cells.deep_view() =~= connectors_of(m, rects@));
    let rows = draw(&faces, &boxes, &edge_cells, density, mode);
    let edge_styles: Vec<CellAttr> = Vec::new();
    let node_styles: StrMap<CellAttr> = StrMap::new();
    assert(edge_styles@ =~= Seq::empty());
    Layout { rects, columns, edge_cells, grid: CharGrid { rows }, node_styles, edge_styles }
}

/// Lays out a subgraph with tall boxes in the given glyphs.
pub fn layout_mode(sg: &Subgraph, mode: GlyphMode) -> (r: Layout)
    requires
        sg.deep_view().closed(),
    ensures
        r.wf(),
        r.deep_view() == layout_of(sg.deep_view(), mode, Density::Comfortable),
{
    layout_density(sg, mode, Density::Comfortable)
}

/// Lays out a subgraph with tall boxes in Unicode glyphs.
pub fn layout(sg: &Subgraph) -> (r: Layout)
    requires
        sg.deep_view().closed(),
    ensures
        r.wf(),
        r.deep_view() == layout_of(sg.deep_view(), GlyphMode::Unicode, Density::Comfortable),
{
    layout_mode(sg, GlyphMode::Unicode)
}

// ---- text and styles ----

/// Each row on a line of its own.
pub open spec fn lines_text(rows: Seq<Text>) -> Text
    decreases rows.len(),
{
    if rows.len() == 0 {
        Seq::empty()
    } else {
        lines_text(rows.drop_last()) + rows.last() + "\n"@
    }
}

impl CharGrid {
    /// Number of rows.
    pub fn height(&self) -> (r: usize)
        ensures
            r == self.rows.deep_view().len(),
    {
        self.rows.len()
    }

    /// The drawing as text, each row on a line of its own.
    pub fn to_text(&self) -> (r: String)
        ensures
            r@ == lines_text(self.rows.deep_view()),
    {
        let ghost all = self.rows.deep_view();
        let mut out = String::new();
        let mut i: usize = 0;
        assert(out@ =~= lines_text(all.take(0)));
        while i < self.rows.len()
            invariant
                i <= self.rows@.len(),
                all == self.rows.deep_view(),
                out@ == lines_text(all.take(i as int)),
            decreases self.rows@.len() - i,
        {
            assert(all.take(i + 1).drop_last() =~= all.take(i as int));
            out.append(self.rows[i].as_str());
            out.append("\n");
            i = i + 1;
        }
        assert(all.take(all.len() as int) =~= all);
        out
    }
}

/// The box, in key order, that a cell lies in.
pub open spec fn key_at(l: LayoutModel, keys: Seq<Text>, x: usize, y: usize) -> Option<Text>
    decreases keys.len(),
{
    if keys.len() == 0 {
        None
    } else if inside(l.rects[keys[0]], x, y) {
        Some(keys[0])
    } else {
        key_at(l, keys.drop_first(), x, y)
    }
}

/// The style of the connectors from `from` on at a cell: one on the path wins
/// over the others, else the first that passes.
pub open spec fn line_style(l: LayoutModel, x: usize, y: usize, from: int) -> Option<CellAttr>
    decreases l.edge_styles.len() - from,
{
    if from < 0 || from >= l.edge_styles.len() || from >= l.edge_cells.len() {
        None
    } else {
        let rest = line_style(l, x, y, from + 1);
        if !l.edge_cells[from].cells.contains((x, y)) {
            rest
        } else if !l.edge_styles[from].on_path && rest is Some && rest->0.on_path {
            rest
        } else {
            Some(l.edge_styles[from])
        }
    }
}

/// How a cell is shown: by the node whose box covers it, else by the
/// connectors through it, else plainly.
pub open spec fn style_at(l: LayoutModel, x: usize, y: usize) -> CellAttr {
    match key_at(l, crate::sorted::listing(l.rects.dom()), x, y) {
        Some(u) => if l.node_styles.contains_key(u) {
            l.node_styles[u]
        } else {
            plain_attr()
        },
        None => match line_style(l, x, y, 0) {
            Some(a) => a,
            None => plain_attr(),
        },
    }
}

impl Layout {
    /// Gives every node the style recorded under its id.
    pub fn apply_node_styles(&mut self, styles: StrMap<CellAttr>)
        requires
            old(self).wf(),
            styles.wf(),
        ensures
            final(self).wf(),
            final(self).deep_view() == (LayoutModel { node_styles: styles@, ..old(self).deep_view() }),
    {
        self.node_styles = styles;
    }

    /// Gives the connectors their styles, in the order of `edge_cells`.
    pub fn apply_edge_styles(&mut self, styles: Vec<CellAttr>)
        requires
            old(self).wf(),
        ensures
            final(self).wf(),
            final(self).deep_view() == (LayoutModel { edge_styles: styles@, ..old(self).deep_view() }),
    {
        self.edge_styles = styles;
    }

    /// How a cell of the diagram is shown.
    pub fn attr_at(&self, x: usize, y: usize) -> (r: CellAttr)
        requires
            self.wf(),
        ensures
            r == style_at(self.deep_view(), x, y),
    {
        let ghost l = self.deep_view();
        let ghost keys = self.rects.key_list();
        proof {
            self.rects.keys_listed();
            assert(keys.skip(0) =~= keys);
        }
        let mut i: usize = 0;
        while i < self.rects.len()
            invariant
                self.wf(),
                l == self.deep_view(),
                keys == self.rects.key_list(),
                i <= keys.len(),
                key_at(l, keys, x, y) == key_at(l, keys.skip(i as int), x, y),
                keys == crate::sorted::listing(l.rects.dom()),
            decreases keys.len() - i,
        {
            assert(keys.skip(i as int).drop_first() =~= keys.skip(i + 1));
            if is_inside(*self.rects.value_at(i), x, y) {
                return match self.node_styles.get(self.rects.key_at(i).as_str()) {
                    Some(a) => *a,
                    None => CellAttr::default(),
                };
            }
            i = i + 1;
        }
        let mut out: Option<CellAttr> = None;
        let n: usize = if self.edge_styles.len() < self.edge_cells.len() {
            self.edge_styles.len()
        } else {
            self.edge_cells.len()
        };
        let mut k: usize = n;
        while k > 0
            invariant
                l == self.deep_view(),
                k <= n,
                n <= self.edge_styles@.len(),
                n <= self.edge_cells@.len(),
                out == line_style(l, x, y, k as int),
            decreases k,
        {
            k = k - 1;
            assert(l.edge_cells[k as int] == self.edge_cells@[k as int].deep_view());
            if holds_cell(&self.edge_cells[k].cells, x, y) {
                let path_behind = match out {
                    Some(a) => a.on_path,
                    None => false,
                };
                if !(path_behind && !self.edge_styles[k].on_path) {
                    out = Some(self.edge_styles[k]);
                }
            }
        }
        match out {
            Some(a) => a,
            None => CellAttr::default(),
        }
    }
}

} // verus!
