//! How the nodes and connectors of the lineage are shown: the class of each
//! node, the tint of the active lens, and the path from the root to the cursor.

use vstd::prelude::*;
use vstd::relations::*;

use crate::dag::{coverage_gap, is_gap, DagModel};
use crate::diff::{status_of, DiffStatus};
use crate::graph::reach;
use crate::layout::{
    class_of, larger, layout_density, plain_attr, CellAttr, EdgeCellsModel, Layout, LayoutModel, LensTint,
    LineageLens, MaterializationClass, Rect,
};
use crate::model_list::{first_dir_or, layer_or};
use crate::sorted::{distinct_in_order, holds, listing, sort_distinct, Sortable, StrMap};
use crate::text::{str_eq, Text};
use crate::ui::{LayerBand, LayerBandModel};
use super::analysis::{layer_violation_edges, violations_of};
use super::lineage::in_column;
use super::{App, AppModel};

verus! {

/// The tint of a layer.
pub open spec fn tint_of_layer(layer: Text) -> LensTint {
    if layer == "staging"@ {
        LensTint::LayerStaging
    } else if layer == "intermediate"@ {
        LensTint::LayerIntermediate
    } else if layer == "marts"@ {
        LensTint::LayerMarts
    } else if layer == "utilities"@ {
        LensTint::LayerUtilities
    } else {
        LensTint::LayerOther
    }
}

/// The tint of a layer.
pub fn layer_tint_of(layer: &str) -> (r: LensTint)
    ensures
        r == tint_of_layer(layer@),
{
    if str_eq(layer, "staging") {
        LensTint::LayerStaging
    } else if str_eq(layer, "intermediate") {
        LensTint::LayerIntermediate
    } else if str_eq(layer, "marts") {
        LensTint::LayerMarts
    } else if str_eq(layer, "utilities") {
        LensTint::LayerUtilities
    } else {
        LensTint::LayerOther
    }
}

/// The tint of a number of descendants.
pub open spec fn heat_of(n: nat) -> LensTint {
    if n == 0 {
        LensTint::Untinted
    } else if n <= 2 {
        LensTint::HeatLow
    } else if n <= 6 {
        LensTint::HeatMid
    } else {
        LensTint::HeatHigh
    }
}

/// A node at either end of an edge that runs against the layers.
pub open spec fn in_violation(d: DagModel, uid: Text) -> bool {
    exists|i: int| 0 <= i < violations_of(d).len() && ((#[trigger] violations_of(d)[i]).0 == uid || violations_of(d)[i].1 == uid)
}

impl AppModel {
    /// The tint that a lens gives a node.
    pub open spec fn tint(self, lens: LineageLens, uid: Text) -> LensTint {
        let known = self.dag.nodes.contains_key(uid);
        let node = self.dag.nodes[uid];
        match lens {
            LineageLens::Off => LensTint::Untinted,
            LineageLens::Coverage => if known && is_gap(node) {
                LensTint::Warn
            } else {
                LensTint::Untinted
            },
            LineageLens::DegreeHeat => heat_of(reach(self.dag.children, uid, None).len()),
            LineageLens::Layer => if known && node.resource_type == "model"@ {
                tint_of_layer(layer_or(node, ""@))
            } else {
                LensTint::Untinted
            },
            LineageLens::LayerViolation => if in_violation(self.dag, uid) {
                LensTint::Violation
            } else {
                LensTint::Untinted
            },
            LineageLens::Diff => match self.diff {
                Some(d) => match status_of(d, uid) {
                    DiffStatus::Added => LensTint::DiffAdded,
                    DiffStatus::Modified => LensTint::DiffModified,
                    DiffStatus::Unchanged => LensTint::Untinted,
                },
                None => LensTint::Untinted,
            },
        }
    }

    /// How a node is shown. Off the path, nodes are dimmed while there is one.
    pub open spec fn attr_of(self, uid: Text) -> CellAttr {
        let rt = if self.dag.nodes.contains_key(uid) {
            self.dag.nodes[uid].resource_type
        } else {
            ""@
        };
        let mat = if self.dag.details.contains_key(uid) {
            self.dag.details[uid].materialized
        } else {
            None
        };
        CellAttr {
            class: class_of(rt, mat),
            lens: self.tint(self.ui.lens, uid),
            dimmed: self.path().len() > 0 && !self.path().contains(uid),
            on_path: self.path().contains(uid),
        }
    }

    /// How the nodes of a diagram are shown.
    pub open spec fn node_styles(self, rects: Map<Text, Rect>) -> Map<Text, CellAttr> {
        Map::new(|u: Text| rects.contains_key(u), |u: Text| self.attr_of(u))
    }

    /// How a connector is shown while there is a path.
    pub open spec fn edge_attr(self, e: EdgeCellsModel) -> CellAttr {
        let on = self.path_edges().contains((e.parent, e.child));
        CellAttr { on_path: on, dimmed: !on, ..plain_attr() }
    }

    /// How the connectors of a diagram are shown; plainly where there is no
    /// path.
    pub open spec fn edge_styles(self, edges: Seq<EdgeCellsModel>) -> Seq<CellAttr> {
        if self.path_edges().len() == 0 {
            Seq::empty()
        } else {
            edges.map_values(|e: EdgeCellsModel| self.edge_attr(e))
        }
    }

    /// The diagram of the lineage pane with its styles; none without a node.
    pub open spec fn styled(self) -> Option<LayoutModel> {
        if self.selected_id() is None || self.display_subgraph().nodes.len() == 0 {
            None
        } else {
            let l = self.diagram();
            Some(
                LayoutModel { node_styles: self.node_styles(l.rects), edge_styles: self.edge_styles(l.edge_cells), ..l },
            )
        }
    }
}

// ---- layer bands ----

impl Sortable for usize {
    open spec fn leq(a: usize, b: usize) -> bool {
        a <= b
    }

    proof fn leq_total() {
    }

    fn at_most(&self, other: &Self) -> (r: bool) {
        *self <= *other
    }
}

/// The boxes of a column, by id.
pub open spec fn keys_in(l: LayoutModel, c: usize) -> Seq<Text> {
    listing(l.rects.dom()).filter(|u: Text| in_column(l, u, c))
}

/// The layers of the models among some nodes.
pub open spec fn layers_among(d: DagModel, keys: Seq<Text>) -> Seq<Text> {
    keys.filter(|u: Text| d.nodes.contains_key(u) && d.nodes[u].resource_type == "model"@).map_values(
        |u: Text| layer_or(d.nodes[u], "other"@),
    )
}

/// The width of the widest box.
pub open spec fn widest_of(l: LayoutModel, keys: Seq<Text>) -> usize
    decreases keys.len(),
{
    if keys.len() == 0 {
        0
    } else {
        larger(widest_of(l, keys.drop_last()), l.rects[keys.last()].width)
    }
}

/// The band of a column: where its models share one layer, that layer.
pub open spec fn band_of(d: DagModel, l: LayoutModel, c: usize) -> Option<LayerBandModel> {
    let keys = keys_in(l, c);
    let layers = layers_among(d, keys);
    if keys.len() == 0 || layers.len() == 0 || exists|i: int| 0 <= i < layers.len() && #[trigger] layers[i] != layers[0] {
        None
    } else {
        Some(
            LayerBandModel {
                x: l.rects[keys[0]].x,
                width: widest_of(l, keys),
                label: layers[0],
                tint: tint_of_layer(layers[0]),
            },
        )
    }
}

/// The columns of a diagram.
pub open spec fn columns_in(l: LayoutModel) -> Set<usize> {
    listing(l.rects.dom()).filter(|u: Text| l.columns.contains_key(u)).map_values(|u: Text| l.columns[u]).to_set()
}

/// The bands of some columns, in order.
pub open spec fn bands_for(d: DagModel, l: LayoutModel, cols: Seq<usize>) -> Seq<LayerBandModel>
    decreases cols.len(),
{
    if cols.len() == 0 {
        Seq::empty()
    } else {
        let r = bands_for(d, l, cols.drop_last());
        match band_of(d, l, cols.last()) {
            Some(b) => r.push(b),
            None => r,
        }
    }
}

/// The bands of a diagram, by column.
pub open spec fn bands_of(d: DagModel, l: LayoutModel) -> Seq<LayerBandModel> {
    bands_for(d, l, distinct_in_order::<usize>(columns_in(l)))
}

/// The columns of a diagram, ascending.
fn used_columns(lay: &Layout) -> (r: Vec<usize>)
    requires
        lay.wf(),
    ensures
        r@ == distinct_in_order::<usize>(columns_in(lay.deep_view())),
{
    let ghost l = lay.deep_view();
    let ghost keys = lay.rects.key_list();
    let ghost p = |u: Text| l.columns.contains_key(u);
    let ghost f = |u: Text| l.columns[u];
    let mut cols: Vec<usize> = Vec::new();
    let mut i: usize = 0;
    proof {
        lay.rects.keys_listed();
        reveal(Seq::filter);
        assert(cols@ =~= keys.take(0).filter(p).map_values(f));
    }
    while i < lay.rects.len()
        invariant
            lay.wf(),
            l == lay.deep_view(),
            keys == lay.rects.key_list(),
            p == (|u: Text| l.columns.contains_key(u)),
            f == (|u: Text| l.columns[u]),
            i <= keys.len(),
            cols@ == keys.take(i as int).filter(p).map_values(f),
        decreases keys.len() - i,
    {
        let ghost g = keys.take(i as int).filter(p);
        let ghost u = keys[i as int];
        proof {
            reveal(Seq::filter);
            assert(keys.take(i + 1).drop_last() =~= keys.take(i as int));
        }
        match lay.columns.get(lay.rects.key_at(i).as_str()) {
            Some(c) => {
                let ghost o = cols@;
                cols.push(*c);
                proof {
                    assert(g.push(u).map_values(f) =~= g.map_values(f).push(f(u)));
                }
            },
            None => {},
        }
        i = i + 1;
    }
    proof {
        assert(keys.take(keys.len() as int) =~= keys);
        assert(cols.deep_view() =~= cols@);
    }
    let r = sort_distinct(cols);
    assert(r.deep_view() =~= r@);
    r
}

impl App {
    /// The band of a column; `None` where its models disagree on their layer
    /// or it has none.
    fn layer_band(&self, lay: &Layout, c: usize) -> (r: Option<LayerBand>)
        requires
            self.parts(),
            lay.wf(),
        ensures
            r.deep_view() == band_of(self.deep_view().dag, lay.deep_view(), c),
    {
        let ghost d = self.deep_view().dag;
        let ghost l = lay.deep_view();
        let ghost keys = lay.rects.key_list();
        let ghost p = |u: Text| in_column(l, u, c);
        let ghost q = |u: Text| d.nodes.contains_key(u) && d.nodes[u].resource_type == "model"@;
        let ghost f = |u: Text| layer_or(d.nodes[u], "other"@);
        let mut x: usize = 0;
        let mut width: usize = 0;
        let mut seen: usize = 0;
        let mut label: Option<String> = None;
        let mut unanimous = true;
        let mut i: usize = 0;
        let ghost mut ls: Seq<Text> = Seq::empty();
        proof {
            lay.rects.keys_listed();
            reveal(Seq::filter);
            assert(ls =~= keys.take(0).filter(p).filter(q).map_values(f));
        }
        while i < lay.rects.len()
            invariant
                self.parts(),
                lay.wf(),
                d == self.dag.deep_view(),
                l == lay.deep_view(),
                keys == lay.rects.key_list(),
                p == (|u: Text| in_column(l, u, c)),
                q == (|u: Text| d.nodes.contains_key(u) && d.nodes[u].resource_type == "model"@),
                f == (|u: Text| layer_or(d.nodes[u], "other"@)),
                i <= keys.len(),
                seen == keys.take(i as int).filter(p).len(),
                seen <= i,
                seen > 0 ==> x == l.rects[keys.take(i as int).filter(p)[0]].x,
                width == widest_of(l, keys.take(i as int).filter(p)),
                ls == keys.take(i as int).filter(p).filter(q).map_values(f),
                label is None <==> ls.len() == 0,
                label matches Some(t) ==> t@ == ls[0],
                unanimous <==> forall|k: int| 0 <= k < ls.len() ==> #[trigger] ls[k] == ls[0],
            decreases keys.len() - i,
        {
            let uid = lay.rects.key_at(i);
            let rect = *lay.rects.value_at(i);
            let ghost g = keys.take(i as int).filter(p);
            proof {
                reveal(Seq::filter);
                assert(keys.take(i + 1).drop_last() =~= keys.take(i as int));
                assert(g.push(uid@).drop_last() =~= g);
            }
            let here = match lay.columns.get(uid.as_str()) {
                Some(k) => *k == c,
                None => false,
            };
            if here {
                if seen == 0 {
                    x = rect.x;
                }
                seen = seen + 1;
                if width < rect.width {
                    width = rect.width;
                }
                let ghost ls0 = ls;
                match self.dag.get(uid.as_str()) {
                    Some(n) => {
                        if str_eq(n.resource_type.as_str(), "model") {
                            let layer = first_dir_or(n, "other");
                            proof {
                                ls = ls.push(layer@);
                                assert(g.filter(q).push(uid@).map_values(f) =~= g.filter(q).map_values(f).push(f(uid@)));
                            }
                            match &label {
                                Some(t) => {
                                    let same = str_eq(t.as_str(), layer.as_str());
                                    proof {
                                        assert(ls[ls0.len() as int] == layer@);
                                        if unanimous && same {
                                            assert forall|k: int| 0 <= k < ls.len() implies #[trigger] ls[k] == ls[0] by {
                                                if k < ls0.len() {
                                                    assert(ls0[k] == ls0[0]);
                                                }
                                            }
                                        }
                                        if !unanimous {
                                            let k = choose|k: int| 0 <= k < ls0.len() && #[trigger] ls0[k] != ls0[0];
                                            assert(ls[k] != ls[0]);
                                        }
                                    }
                                    if !same {
                                        unanimous = false;
                                    }
                                },
                                None => {
                                    label = Some(layer);
                                },
                            }
                        }
                    },
                    None => {},
                }
            }
            i = i + 1;
        }
        proof {
            assert(keys.take(keys.len() as int) =~= keys);
            assert(ls == layers_among(d, keys_in(l, c)));
            reveal(Seq::filter);
        }
        match label {
            None => None,
            Some(t) => {
                if !unanimous {
                    proof {
                        let k = choose|k: int| 0 <= k < ls.len() && #[trigger] ls[k] != ls[0];
                        assert(ls[k] != ls[0]);
                    }
                    return None;
                }
                proof {
                    if seen == 0 {
                        assert(keys_in(l, c) =~= Seq::empty());
                        assert(ls.len() == 0);
                    }
                }
                let tint = layer_tint_of(t.as_str());
                Some(LayerBand { x, width, label: t, tint })
            },
        }
    }

    /// The layer annotation of each column whose models share one layer, from
    /// left to right.
    pub fn layer_bands(&self, lay: &Layout) -> (r: Vec<LayerBand>)
        requires
            self.parts(),
            lay.wf(),
        ensures
            r.deep_view() == bands_of(self.deep_view().dag, lay.deep_view()),
    {
        let ghost d = self.deep_view().dag;
        let ghost l = lay.deep_view();
        let cols = used_columns(lay);
        let mut out: Vec<LayerBand> = Vec::new();
        let mut i: usize = 0;
        assert(out.deep_view() =~= bands_for(d, l, cols@.take(0)));
        while i < cols.len()
            invariant
                self.parts(),
                lay.wf(),
                d == self.deep_view().dag,
                l == lay.deep_view(),
                i <= cols@.len(),
                out.deep_view() == bands_for(d, l, cols@.take(i as int)),
            decreases cols@.len() - i,
        {
            let ghost o = out.deep_view();
            assert(cols@.take(i + 1).drop_last() =~= cols@.take(i as int));
            match self.layer_band(lay, cols[i]) {
                Some(b) => {
                    let ghost bv = b.deep_view();
                    out.push(b);
                    assert(out.deep_view() =~= o.push(bv));
                },
                None => {},
            }
            i = i + 1;
        }
        assert(cols@.take(cols@.len() as int) =~= cols@);
        out
    }

    /// The tint of a node under a lens.
    fn lens_tint(&self, lens: LineageLens, uid: &str, violations: &Vec<(String, String)>) -> (r: LensTint)
        requires
            self.parts(),
            lens == LineageLens::LayerViolation ==> violations.deep_view() == violations_of(self.deep_view().dag),
        ensures
            r == self.deep_view().tint(lens, uid@),
    {
        match lens {
            LineageLens::Off => LensTint::Untinted,
            LineageLens::Coverage => match self.dag.get(uid) {
                Some(n) => if coverage_gap(n) {
                    LensTint::Warn
                } else {
                    LensTint::Untinted
                },
                None => LensTint::Untinted,
            },
            LineageLens::DegreeHeat => {
                let n: usize = self.dag.downstream(uid).len();
                if n == 0 {
                    LensTint::Untinted
                } else if n <= 2 {
                    LensTint::HeatLow
                } else if n <= 6 {
                    LensTint::HeatMid
                } else {
                    LensTint::HeatHigh
                }
            },
            LineageLens::Layer => match self.dag.get(uid) {
                Some(n) => if str_eq(n.resource_type.as_str(), "model") {
                    layer_tint_of(first_dir_or(n, "").as_str())
                } else {
                    LensTint::Untinted
                },
                None => LensTint::Untinted,
            },
            LineageLens::LayerViolation => {
                let ghost vs = violations_of(self.deep_view().dag);
                let mut i: usize = 0;
                while i < violations.len()
                    invariant
                        i <= violations@.len(),
                        vs == violations.deep_view(),
                        vs == violations_of(self.deep_view().dag),
                        lens == LineageLens::LayerViolation,
                        forall|j: int| 0 <= j < i ==> (#[trigger] vs[j]).0 != uid@ && vs[j].1 != uid@,
                    decreases violations@.len() - i,
                {
                    assert(vs[i as int] == violations@[i as int].deep_view());
                    if str_eq(violations[i].0.as_str(), uid) || str_eq(violations[i].1.as_str(), uid) {
                        assert(in_violation(self.deep_view().dag, uid@));
                        return LensTint::Violation;
                    }
                    i = i + 1;
                }
                LensTint::Untinted
            },
            LineageLens::Diff => match self.diff() {
                Some(d) => match d.status(uid) {
                    DiffStatus::Added => LensTint::DiffAdded,
                    DiffStatus::Modified => LensTint::DiffModified,
                    DiffStatus::Unchanged => LensTint::Untinted,
                },
                None => LensTint::Untinted,
            },
        }
    }

    /// How each node of a diagram is shown.
    pub fn lineage_styles(&self, lay: &Layout) -> (r: StrMap<CellAttr>)
        requires
            self.parts(),
            lay.wf(),
        ensures
            r.wf(),
            r@ == self.deep_view().node_styles(lay.deep_view().rects),
    {
        let ghost a = self.deep_view();
        let ghost all = a.node_styles(lay.rects@);
        let ghost keys = lay.rects.key_list();
        let lens = self.ui_state.lens();
        let path = self.lineage_path_set();
        let dimming = !path.is_empty();
        let violations = if lens == LineageLens::LayerViolation {
            layer_violation_edges(&self.dag)
        } else {
            Vec::new()
        };
        proof {
            if a.path().len() > 0 {
                assert(a.path().contains(a.path()[0]));
                assert(path@.contains(a.path()[0]));
            } else {
                assert(path@ =~= Set::<Text>::empty());
            }
        }
        let mut out: StrMap<CellAttr> = StrMap::new();
        let mut i: usize = 0;
        assert(out@ =~= all.restrict(keys.take(0).to_set()));
        while i < lay.rects.len()
            invariant
                self.parts(),
                lay.wf(),
                a == self.deep_view(),
                all == a.node_styles(lay.rects@),
                keys == lay.rects.key_list(),
                lens == a.ui.lens,
                path.wf(),
                path@ == a.path().to_set(),
                dimming == (a.path().len() > 0),
                lens == LineageLens::LayerViolation ==> violations.deep_view() == violations_of(a.dag),
                i <= keys.len(),
                out.wf(),
                out@ == all.restrict(keys.take(i as int).to_set()),
            decreases keys.len() - i,
        {
            let uid = lay.rects.key_at(i);
            let rt = match self.dag.get(uid.as_str()) {
                Some(n) => n.resource_type.as_str(),
                None => "",
            };
            let mat: Option<&str> = match self.dag.detail(uid.as_str()) {
                Some(d) => match &d.materialized {
                    Some(m) => Some(m.as_str()),
                    None => None,
                },
                None => None,
            };
            let on = path.contains(uid.as_str());
            let attr = CellAttr {
                class: MaterializationClass::classify(rt, mat),
                lens: self.lens_tint(lens, uid.as_str(), &violations),
                dimmed: dimming && !on,
                on_path: on,
            };
            proof {
                assert(attr == a.attr_of(uid@));
                assert(keys.take(i + 1) =~= keys.take(i as int).push(uid@));
                keys.take(i as int).lemma_push_to_set_commute(uid@);
                assert(all.restrict(keys.take(i + 1).to_set()) =~= all.restrict(keys.take(i as int).to_set()).insert(uid@, attr));
            }
            out.insert(uid.clone(), attr);
            i = i + 1;
        }
        proof {
            lay.rects.keys_listed();
            assert(keys.take(keys.len() as int) =~= keys);
            assert(all.restrict(keys.to_set()) =~= all);
        }
        out
    }

    /// How each connector of a diagram is shown, in the order of its edges;
    /// empty with the cursor at home.
    pub fn lineage_edge_styles(&self, lay: &Layout) -> (r: Vec<CellAttr>)
        requires
            self.parts(),
            lay.wf(),
        ensures
            r@ == self.deep_view().edge_styles(lay.deep_view().edge_cells),
    {
        let ghost a = self.deep_view();
        let ghost es = lay.deep_view().edge_cells;
        let path = self.lineage_path_edges();
        let mut out: Vec<CellAttr> = Vec::new();
        if path.len() == 0 {
            assert(path.deep_view().len() == 0);
            assert(out@ =~= Seq::empty());
            return out;
        }
        let mut i: usize = 0;
        while i < lay.edge_cells.len()
            invariant
                a == self.deep_view(),
                es == lay.edge_cells.deep_view(),
                path.deep_view() == a.path_edges(),
                i <= lay.edge_cells@.len(),
                out@.len() == i,
                forall|j: int| 0 <= j < i ==> #[trigger] out@[j] == a.edge_attr(es[j]),
            decreases lay.edge_cells@.len() - i,
        {
            let e = &lay.edge_cells[i];
            assert(es[i as int] == e.deep_view());
            let pair = (e.parent.clone(), e.child.clone());
            let on = holds(&path, &pair);
            assert(pair.deep_view() == (e.parent@, e.child@));
            let mut attr = CellAttr::default();
            attr.on_path = on;
            attr.dimmed = !on;
            out.push(attr);
            i = i + 1;
        }
        assert(path.deep_view().len() > 0);
        assert(out@ =~= a.edge_styles(es));
        out
    }

    /// The diagram of the lineage pane, cursor emphasised and lens applied;
    /// `None` where the lineage has no node.
    pub fn styled_lineage_layout(&self) -> (r: Option<Layout>)
        requires
            self.parts(),
        ensures
            r.deep_view() == self.deep_view().styled(),
            r matches Some(l) ==> l.wf(),
    {
        if self.selected_unique_id().is_none() {
            return None;
        }
        let sg = self.lineage_display_subgraph();
        if sg.nodes.len() == 0 {
            return None;
        }
        let mut lay = layout_density(&sg, self.glyph_mode, self.ui_state.density());
        let edges = self.lineage_edge_styles(&lay);
        let nodes = self.lineage_styles(&lay);
        lay.apply_edge_styles(edges);
        lay.apply_node_styles(nodes);
        Some(lay)
    }
}

} // verus!
