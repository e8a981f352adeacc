//! What the lenses, the path and the bands mark.

use vstd::prelude::*;

use super::pull::{blast, runs_back, stands_in, violations_run_back};
use super::texts::{flow, layer_is_the_first_directory};
use crate::app::lineage::{edges_along, in_column};
use crate::app::styles::{band_of, bands_for, bands_of, columns_in, in_violation, keys_in, layers_among, widest_of};
use crate::app::AppModel;
use crate::dag::DagModel;
use crate::layout::{class_of, LayoutModel, LensTint, LineageLens, MaterializationClass};
use crate::model_list::layer_or;
use crate::sorted::{distinct_in_order, distinct_in_order_exists, filter_keeps, listing, listing_exists};
use crate::text::Text;
use crate::ui::LayerBandModel;

verus! {

/// The coverage lens warns of exactly the models, snapshots and seeds without
/// tests.
pub proof fn coverage_lens_warns(a: AppModel, u: Text)
    ensures
        ({
            let rt = a.dag.nodes[u].resource_type;
            let bare = a.dag.nodes.contains_key(u) && (rt == "model"@ || rt == "snapshot"@ || rt == "seed"@) && a.dag.nodes[u].test_count == 0;
            a.tint(LineageLens::Coverage, u) == if bare { LensTint::Warn } else { LensTint::Untinted }
        }),
        a.tint(LineageLens::Off, u) == LensTint::Untinted,
{
}

/// How hot a node is shown.
pub open spec fn warmth(t: LensTint) -> int {
    match t {
        LensTint::Untinted => 0,
        LensTint::HeatLow => 1,
        LensTint::HeatMid => 2,
        LensTint::HeatHigh => 3,
        _ => -1,
    }
}

/// The heat lens goes by how many nodes are downstream: none, up to two, up to
/// six, or more. More of them never look cooler.
pub proof fn heat_grows_with_reach(a: AppModel, u: Text, v: Text)
    ensures
        ({
            let t = warmth(a.tint(LineageLens::DegreeHeat, u));
            let n = blast(a.dag, u);
            &&& 0 <= t <= 3
            &&& t >= 1 <==> n >= 1
            &&& t >= 2 <==> n >= 3
            &&& t >= 3 <==> n >= 7
            &&& n <= blast(a.dag, v) ==> t <= warmth(a.tint(LineageLens::DegreeHeat, v))
        }),
{
}

/// The layer lens tells the models of the four layers of the flow apart from
/// each other and from all other models, and leaves other nodes alone.
pub proof fn layer_lens_tells_layers_apart(a: AppModel, u: Text)
    requires
        a.dag.nodes.contains_key(u),
    ensures
        ({
            let n = a.dag.nodes[u];
            let t = a.tint(LineageLens::Layer, u);
            &&& n.resource_type != "model"@ ==> t == LensTint::Untinted
            &&& n.resource_type == "model"@ ==> {
                &&& t == LensTint::LayerStaging <==> stands_in(n, "staging"@)
                &&& t == LensTint::LayerIntermediate <==> stands_in(n, "intermediate"@)
                &&& t == LensTint::LayerMarts <==> stands_in(n, "marts"@)
                &&& t == LensTint::LayerUtilities <==> stands_in(n, "utilities"@)
                &&& t == LensTint::LayerOther <==> forall|k: int| 0 <= k < 4 ==> !stands_in(n, #[trigger] flow()[k])
            }
        }),
{
    let n = a.dag.nodes[u];
    layer_is_the_first_directory(n, "staging"@);
    layer_is_the_first_directory(n, "intermediate"@);
    layer_is_the_first_directory(n, "marts"@);
    layer_is_the_first_directory(n, "utilities"@);
    reveal_strlit("staging");
    reveal_strlit("intermediate");
    reveal_strlit("marts");
    reveal_strlit("utilities");
    reveal_strlit("");
    assert("staging"@.len() == 7 && "intermediate"@.len() == 12 && "marts"@.len() == 5 && "utilities"@.len() == 9 && ""@.len() == 0);
    assert(flow()[0] == "staging"@ && flow()[1] == "intermediate"@ && flow()[2] == "marts"@ && flow()[3] == "utilities"@);
    assert(flow().len() == 4);
}

/// The violation lens marks exactly the two ends of every edge between models
/// that leads back in the flow.
pub proof fn violation_lens_marks_both_ends(a: AppModel, u: Text)
    requires
        a.dag.valid(),
    ensures
        ({
            let at_end = exists|p: Text, c: Text| #[trigger] runs_back(a.dag, p, c) && (u == p || u == c);
            a.tint(LineageLens::LayerViolation, u) == if at_end { LensTint::Violation } else { LensTint::Untinted }
        }),
{
    let d = a.dag;
    let vs = crate::app::analysis::violations_of(d);
    if in_violation(d, u) {
        let i = choose|i: int| 0 <= i < vs.len() && ((#[trigger] vs[i]).0 == u || vs[i].1 == u);
        assert(vs.contains((vs[i].0, vs[i].1)));
        violations_run_back(d, vs[i].0, vs[i].1);
        assert(runs_back(d, vs[i].0, vs[i].1));
    }
    if exists|p: Text, c: Text| #[trigger] runs_back(d, p, c) && (u == p || u == c) {
        let (p, c) = choose|p: Text, c: Text| #[trigger] runs_back(d, p, c) && (u == p || u == c);
        violations_run_back(d, p, c);
        let i = vs.index_of((p, c));
        assert(vs[i] == (p, c));
    }
}

/// The diff lens marks added and modified nodes, and nothing without a
/// baseline.
pub proof fn diff_lens_marks_changes(a: AppModel, u: Text)
    ensures
        a.diff is None ==> a.tint(LineageLens::Diff, u) == LensTint::Untinted,
        a.diff matches Some(x) ==> a.tint(LineageLens::Diff, u) == (if x.added.contains(u) {
            LensTint::DiffAdded
        } else if x.modified.contains_key(u) {
            LensTint::DiffModified
        } else {
            LensTint::Untinted
        }),
{
}

/// The class of a node: its resource type where that is not a model's, else
/// how it is materialized.
pub proof fn classes_tell_kinds_apart(rt: Text, mat: Option<Text>)
    ensures
        ({
            let c = class_of(rt, mat);
            let other = rt != "source"@ && rt != "seed"@ && rt != "snapshot"@ && rt != "exposure"@;
            &&& c == MaterializationClass::Source <==> rt == "source"@
            &&& c == MaterializationClass::Seed <==> rt == "seed"@
            &&& c == MaterializationClass::Snapshot <==> rt == "snapshot"@
            &&& c == MaterializationClass::Exposure <==> rt == "exposure"@
            &&& c == MaterializationClass::View <==> other && mat == Some("view"@)
            &&& c == MaterializationClass::Table <==> other && mat == Some("table"@)
            &&& c == MaterializationClass::Incremental <==> other && mat == Some("incremental"@)
            &&& c == MaterializationClass::Ephemeral <==> other && mat == Some("ephemeral"@)
        }),
{
    reveal_strlit("source");
    reveal_strlit("seed");
    reveal_strlit("snapshot");
    reveal_strlit("exposure");
    reveal_strlit("view");
    reveal_strlit("table");
    reveal_strlit("incremental");
    reveal_strlit("ephemeral");
    assert("source"@.len() == 6 && "seed"@.len() == 4 && "snapshot"@.len() == 8 && "exposure"@.len() == 8);
    assert("snapshot"@[0] == 's' && "exposure"@[0] == 'e');
    assert("view"@.len() == 4 && "table"@.len() == 5 && "incremental"@.len() == 11 && "ephemeral"@.len() == 9);
}

/// A drawn node has the class of its kind and the tint of the chosen lens.
pub proof fn boxes_have_class_and_tint(a: AppModel, u: Text)
    requires
        a.styled() is Some,
        a.styled()->0.rects.contains_key(u),
        a.dag.nodes.contains_key(u),
        a.dag.details.contains_key(u),
    ensures
        ({
            let s = a.styled()->0.node_styles[u];
            &&& a.styled()->0.node_styles.contains_key(u)
            &&& s.class == class_of(a.dag.nodes[u].resource_type, a.dag.details[u].materialized)
            &&& s.lens == a.tint(a.ui.lens, u)
            &&& s.on_path == a.path().contains(u)
            &&& s.dimmed == (a.path().len() > 0 && !a.path().contains(u))
        }),
{
}

/// Two nodes that follow each other on a way, either way round.
pub open spec fn consecutive(way: Seq<Text>, p: Text, c: Text) -> bool {
    exists|i: int| 0 <= i < way.len() - 1 && ((#[trigger] way[i] == p && way[i + 1] == c) || (way[i] == c && way[i + 1] == p))
}

/// While there is a path, a connector is marked exactly where its two ends
/// follow each other on it, and dimmed elsewhere; without one no connector has
/// a style.
pub proof fn connectors_on_the_path_are_marked(a: AppModel, k: int)
    requires
        a.styled() is Some,
        0 <= k < a.styled()->0.edge_cells.len(),
        forall|p: Text, c: Text| #[trigger] a.subgraph().edges.contains((p, c)) ==> !a.subgraph().edges.contains((c, p)),
        a.subgraph().edges.contains((a.styled()->0.edge_cells[k].parent, a.styled()->0.edge_cells[k].child)),
    ensures
        ({
            let l = a.styled()->0;
            let e = l.edge_cells[k];
            let on = consecutive(a.path(), e.parent, e.child);
            if a.path().len() == 0 {
                l.edge_styles.len() == 0
            } else {
                &&& l.edge_styles.len() == l.edge_cells.len()
                &&& l.edge_styles[k].on_path == on
                &&& l.edge_styles[k].dimmed == !on
            }
        }),
{
    let l = a.styled()->0;
    let e = l.edge_cells[k];
    let way = a.path();
    let all = a.subgraph().edges;
    let es = edges_along(way, all);
    assert(es == a.path_edges());
    if way.len() > 0 {
        super::path::path_joins_root_and_cursor(a);
        assert(es.len() == way.len() - 1);
        if es.contains((e.parent, e.child)) {
            let i = es.index_of((e.parent, e.child));
            assert(es[i] == (e.parent, e.child));
            assert(way[i] == way[i]);
            assert(consecutive(way, e.parent, e.child));
        }
        if consecutive(way, e.parent, e.child) {
            let i = choose|i: int|
                0 <= i < way.len() - 1 && ((#[trigger] way[i] == e.parent && way[i + 1] == e.child) || (way[i] == e.child && way[i + 1] == e.parent));
            assert(all.contains((e.parent, e.child)));
            assert(es[i] == (e.parent, e.child));
            assert(es.contains((e.parent, e.child)));
        }
    }
}

// ---- bands ----

proof fn widest_is_widest(l: LayoutModel, keys: Seq<Text>)
    ensures
        forall|i: int| 0 <= i < keys.len() ==> l.rects[#[trigger] keys[i]].width <= widest_of(l, keys),
        keys.len() > 0 ==> exists|i: int| 0 <= i < keys.len() && l.rects[#[trigger] keys[i]].width == widest_of(l, keys),
    decreases keys.len(),
{
    if keys.len() > 0 {
        let r = keys.drop_last();
        widest_is_widest(l, r);
        assert forall|i: int| 0 <= i < keys.len() implies l.rects[#[trigger] keys[i]].width <= widest_of(l, keys) by {
            if i < r.len() {
                assert(r[i] == keys[i]);
            }
        }
        if widest_of(l, keys) == l.rects[keys.last()].width {
            assert(keys[keys.len() - 1] == keys.last());
        } else {
            assert(r.len() > 0);
            let i = choose|i: int| 0 <= i < r.len() && l.rects[#[trigger] r[i]].width == widest_of(l, r);
            assert(keys[i] == r[i]);
        }
    }
}

/// A model that is drawn in a column.
pub open spec fn model_in(d: DagModel, l: LayoutModel, c: usize, u: Text) -> bool {
    l.rects.contains_key(u) && l.columns.contains_key(u) && l.columns[u] == c && d.nodes.contains_key(u) && d.nodes[u].resource_type == "model"@
}

/// A column has a band exactly where it has models and they all stand in one
/// layer. The band is as wide as the widest box of the column, begins where one
/// of its boxes does, and is named after the layer.
pub proof fn bands_stand_for_one_layer(d: DagModel, l: LayoutModel, c: usize)
    requires
        l.rects.dom().finite(),
    ensures
        match band_of(d, l, c) {
            Some(b) => {
                &&& exists|u: Text| #[trigger] model_in(d, l, c, u)
                &&& forall|u: Text| #[trigger] model_in(d, l, c, u) ==> layer_or(d.nodes[u], "other"@) == b.label
                &&& forall|u: Text| #[trigger] l.rects.contains_key(u) && in_column(l, u, c) ==> l.rects[u].width <= b.width
                &&& exists|u: Text| #[trigger] l.rects.contains_key(u) && in_column(l, u, c) && l.rects[u].width == b.width
                &&& exists|u: Text| #[trigger] l.rects.contains_key(u) && in_column(l, u, c) && l.rects[u].x == b.x
            },
            None => (forall|u: Text| !#[trigger] model_in(d, l, c, u)) || exists|u: Text, v: Text| #[trigger]
                model_in(d, l, c, u) && #[trigger] model_in(d, l, c, v) && layer_or(d.nodes[u], "other"@) != layer_or(d.nodes[v], "other"@),
        },
{
    let keys = keys_in(l, c);
    let layers = layers_among(d, keys);
    let is_model = |u: Text| d.nodes.contains_key(u) && d.nodes[u].resource_type == "model"@;
    let here = |u: Text| in_column(l, u, c);
    let models = keys.filter(is_model);
    listing_exists(l.rects.dom());
    let all = listing(l.rects.dom());
    assert forall|u: Text| #[trigger] keys.contains(u) <==> l.rects.contains_key(u) && in_column(l, u, c) by {
        filter_keeps(all, here, u);
        assert(all.contains(u) <==> l.rects.dom().contains(u));
    }
    assert forall|u: Text| #[trigger] models.contains(u) <==> model_in(d, l, c, u) by {
        filter_keeps(keys, is_model, u);
    }
    assert(layers.len() == models.len());
    assert forall|i: int| 0 <= i < layers.len() implies #[trigger] layers[i] == layer_or(d.nodes[models[i]], "other"@) && model_in(d, l, c, models[i]) by {
        assert(models.contains(models[i]));
    }
    assert forall|u: Text| #[trigger] model_in(d, l, c, u) implies layers.contains(layer_or(d.nodes[u], "other"@)) by {
        assert(models.contains(u));
        let i = models.index_of(u);
        assert(layers[i] == layer_or(d.nodes[u], "other"@));
    }
    widest_is_widest(l, keys);
    match band_of(d, l, c) {
        Some(b) => {
            assert(layers[0] == b.label);
            assert(model_in(d, l, c, models[0]));
            assert forall|u: Text| #[trigger] model_in(d, l, c, u) implies layer_or(d.nodes[u], "other"@) == b.label by {
                let i = layers.index_of(layer_or(d.nodes[u], "other"@));
                assert(layers[i] == layers[0]);
            }
            assert forall|u: Text| #[trigger] l.rects.contains_key(u) && in_column(l, u, c) implies l.rects[u].width <= b.width by {
                assert(keys.contains(u));
                assert(keys[keys.index_of(u)] == u);
            }
            let i = choose|i: int| 0 <= i < keys.len() && l.rects[#[trigger] keys[i]].width == widest_of(l, keys);
            assert(keys.contains(keys[i]));
            assert(keys.contains(keys[0]));
            assert(l.rects.contains_key(keys[i]) && l.rects.contains_key(keys[0]));
        },
        None => {
            if exists|u: Text| #[trigger] model_in(d, l, c, u) {
                let u = choose|u: Text| #[trigger] model_in(d, l, c, u);
                assert(models.contains(u));
                assert(keys.contains(u));
                let i = choose|i: int| 0 <= i < layers.len() && #[trigger] layers[i] != layers[0];
                assert(model_in(d, l, c, models[i]) && model_in(d, l, c, models[0]));
            }
        },
    }
}

/// Every band of a drawing is that of a column, and every column with a band
/// has it in the drawing.
pub proof fn bands_are_those_of_the_columns(d: DagModel, l: LayoutModel, b: LayerBandModel)
    requires
        l.rects.dom().finite(),
    ensures
        bands_of(d, l).contains(b) <==> exists|c: usize| #[trigger] band_of(d, l, c) == Some(b),
{
    let all = listing(l.rects.dom());
    listing_exists(l.rects.dom());
    let in_any = |u: Text| l.columns.contains_key(u);
    let used = all.filter(in_any).map_values(|u: Text| l.columns[u]);
    let cols = distinct_in_order::<usize>(columns_in(l));
    assert(columns_in(l) == used.to_set());
    assert(columns_in(l).finite());
    distinct_in_order_exists::<usize>(columns_in(l));
    bands_from(d, l, cols, b);
    assert forall|c: usize| #[trigger] band_of(d, l, c) is Some implies cols.contains(c) by {
        bands_stand_for_one_layer(d, l, c);
        let u = choose|u: Text| #[trigger] model_in(d, l, c, u);
        assert(all.contains(u));
        filter_keeps(all, in_any, u);
        let k = all.filter(in_any).index_of(u);
        assert(used[k] == c);
        assert(used.to_set().contains(c));
        assert(cols.to_set().contains(c));
    }
}

proof fn bands_from(d: DagModel, l: LayoutModel, cols: Seq<usize>, b: LayerBandModel)
    ensures
        bands_for(d, l, cols).contains(b) <==> exists|c: usize| #[trigger] cols.contains(c) && band_of(d, l, c) == Some(b),
    decreases cols.len(),
{
    if cols.len() > 0 {
        let r = cols.drop_last();
        bands_from(d, l, r, b);
        let before = bands_for(d, l, r);
        let after = bands_for(d, l, cols);
        assert(cols[cols.len() - 1] == cols.last());
        if after.contains(b) {
            let k = after.index_of(b);
            if k < before.len() {
                assert(before[k] == b);
                let c = choose|c: usize| #[trigger] r.contains(c) && band_of(d, l, c) == Some(b);
                assert(cols[r.index_of(c)] == c);
                assert(cols.contains(c));
            } else {
                assert(cols.contains(cols.last()));
            }
        }
        if exists|c: usize| #[trigger] cols.contains(c) && band_of(d, l, c) == Some(b) {
            let c = choose|c: usize| #[trigger] cols.contains(c) && band_of(d, l, c) == Some(b);
            let k = cols.index_of(c);
            if k < r.len() {
                assert(r[k] == c);
                assert(r.contains(c));
                let m = before.index_of(b);
                assert(after[m] == b);
            } else {
                assert(after[after.len() - 1] == b);
            }
        }
    }
}

} // verus!
