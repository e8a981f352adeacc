//! What the styles of a diagram agree on.

use vstd::prelude::*;

use crate::app::lineage::in_column;
use crate::app::styles::{band_of, keys_in, layers_among, tint_of_layer};
use crate::app::AppModel;
use crate::layout::{CellAttr, LayoutModel, LineageLens};
use crate::model_list::layer_or;
use crate::sorted::{filter_keeps, listing, listing_exists};
use crate::text::Text;
use crate::ui::UiModel;

verus! {

/// The band of a column has the tint that the layer lens gives every model in
/// it.
pub proof fn bands_agree_with_the_lens(a: AppModel, l: LayoutModel, c: usize, u: Text)
    requires
        l.rects.dom().finite(),
        l.rects.contains_key(u),
        in_column(l, u, c),
        a.dag.nodes.contains_key(u),
        a.dag.nodes[u].resource_type == "model"@,
        band_of(a.dag, l, c) is Some,
    ensures
        a.tint(LineageLens::Layer, u) == band_of(a.dag, l, c)->0.tint,
        band_of(a.dag, l, c)->0.label == layer_or(a.dag.nodes[u], "other"@),
{
    let d = a.dag;
    let keys = keys_in(l, c);
    let layers = layers_among(d, keys);
    let is_model = |w: Text| d.nodes.contains_key(w) && d.nodes[w].resource_type == "model"@;
    listing_exists(l.rects.dom());
    filter_keeps(listing(l.rects.dom()), |w: Text| in_column(l, w, c), u);
    filter_keeps(keys, is_model, u);
    let models = keys.filter(is_model);
    let k = models.index_of(u);
    assert(layers[k] == layer_or(d.nodes[u], "other"@));
    assert(layers[k] == layers[0]);
    reveal_strlit("staging");
    reveal_strlit("intermediate");
    reveal_strlit("marts");
    reveal_strlit("utilities");
    reveal_strlit("other");
    reveal_strlit("");
    assert("other"@.len() == 5 && "marts"@.len() == 5 && "staging"@.len() == 7 && ""@.len() == 0);
    assert("intermediate"@.len() == 12 && "utilities"@.len() == 9);
    assert("other"@[0] == 'o' && "marts"@[0] == 'm');
    assert(tint_of_layer("other"@) == tint_of_layer(""@));
}

/// While there is a path every node is either on it or dimmed; with the cursor
/// at home no node is either.
pub proof fn nodes_are_on_the_path_or_dimmed(a: AppModel, u: Text)
    ensures
        a.path().len() > 0 ==> a.attr_of(u).dimmed == !a.attr_of(u).on_path,
        a.path().len() == 0 ==> !a.attr_of(u).dimmed && !a.attr_of(u).on_path,
{
}

/// Another lens changes tints and nothing else.
pub proof fn lenses_only_tint(a: AppModel, lens: LineageLens, u: Text)
    ensures
        ({
            let b = AppModel { ui: UiModel { lens, ..a.ui }, ..a };
            b.attr_of(u) == CellAttr { lens: a.tint(lens, u), ..a.attr_of(u) }
        }),
{
    let b = AppModel { ui: UiModel { lens, ..a.ui }, ..a };
    assert(b.selected_id() == a.selected_id());
    assert(b.subgraph() == a.subgraph());
    assert(b.cursor_id() == a.cursor_id());
    assert(b.path() == a.path());
}

} // verus!
