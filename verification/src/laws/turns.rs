//! How the selection, the cursor and the history change hands.

use vstd::prelude::*;

use super::{place_found, select_lands};
use crate::action::{Action, ModeModel, SearchTarget};
use crate::app::lineage::{display_width, first_fit, trail_names, trail_of, trails_of, widths_of};
use crate::app::{coherent, without_repeats, AppModel};
use crate::dag::{DagModel, NodeModel};
use crate::reducer::step;
use crate::sorted::filter_keeps;
use crate::text::{joined, Text};

verus! {

// ---- jumps and clicks ----

/// The list has a row for an id.
pub open spec fn has_row(l: Seq<NodeModel>, u: Text) -> bool {
    exists|i: int| 0 <= i < l.len() && (#[trigger] l[i]).unique_id == u
}

pub(crate) proof fn rows_are_listed(a: AppModel, u: Text)
    ensures
        a.lists(u) <==> has_row(a.active(), u),
{
    place_found(a.active(), u);
    if has_row(a.active(), u) {
        let i = choose|i: int| 0 <= i < a.active().len() && (#[trigger] a.active()[i]).unique_id == u;
        assert(a.active()[i].unique_id == u);
    }
}

/// A jump to a listed model selects it, and puts the model it left on the back
/// stack where it is another one; what could be redone is gone then. A jump to
/// anything else does nothing.
pub proof fn jumps_select_and_remember(a: AppModel, u: Text)
    requires
        coherent(a),
    ensures
        ({
            let b = a.jumped(u);
            &&& !has_row(a.active(), u) ==> b == a
            &&& has_row(a.active(), u) ==> {
                &&& b.selected_id() == Some(u)
                &&& b.active() == a.active()
                &&& b.cursor == a.cursor
                &&& a.selected_id() == Some(u) || a.selected_id() is None ==> b.back == a.back && b.forward == a.forward
                &&& a.selected_id() is Some && a.selected_id() != Some(u) ==> b.back == a.back.push(a.selected_id()->0) && b.forward.len() == 0
            }
        }),
{
    reveal(coherent);
    reveal(AppModel::jumped);
    rows_are_listed(a, u);
    if a.lists(u) {
        select_lands(a, u);
    }
}

/// A click on a listed model makes it the root, with the cursor at home. On any
/// other node of the lineage it moves the cursor there and keeps the root.
/// Elsewhere it does nothing.
pub proof fn clicks_select_or_point(a: AppModel, u: Text)
    requires
        coherent(a),
        a.selected_id() != Some(u),
    ensures
        ({
            let b = a.clicked(u);
            &&& has_row(a.active(), u) ==> b.selected_id() == Some(u) && b.cursor is None
            &&& !has_row(a.active(), u) && a.subgraph().has(u) ==> b == (AppModel { cursor: Some(u), ..a })
            &&& !has_row(a.active(), u) && !a.subgraph().has(u) ==> b == a
        }),
{
    jumps_select_and_remember(a, u);
}

/// Confirming a lineage search jumps to the match that it points at and closes
/// the search; confirming a list search shows the whole list again, with the
/// selection on the model it was on.
pub proof fn confirming_goes_to_the_match(a: AppModel)
    requires
        coherent(a),
        a.mode is Search,
    ensures
        ({
            let b = step(a, Action::SearchConfirm).0;
            let s = a.mode->Search_0;
            &&& b.mode == ModeModel::Selection
            &&& s.target == SearchTarget::Lineage && a.current_match() is Some && has_row(a.active(), a.current_match()->0)
                ==> b.selected_id() == a.current_match()
            &&& s.target == SearchTarget::Lineage && a.current_match() is None ==> b == (AppModel { mode: ModeModel::Selection, ..a })
            &&& s.target == SearchTarget::List ==> b.filter is None && b.active() == a.base()
            &&& s.target == SearchTarget::List && a.selected_id() is Some && has_row(a.base(), a.selected_id()->0)
                ==> b.selected_id() == a.selected_id()
        }),
{
    reveal(AppModel::search_confirmed);
    let s = a.mode->Search_0;
    let plain = a.in_mode(ModeModel::Selection);
    assert(coherent(plain)) by {
        reveal(coherent);
        assert(plain.filtered() == a.filtered());
        assert(plain.active() == a.active());
    }
    assert(plain.active() == a.active());
    if s.target == SearchTarget::Lineage {
        if let Some(u) = a.current_match() {
            jumps_select_and_remember(plain, u);
            reveal(AppModel::jumped);
        }
    } else {
        reveal(AppModel::search_closed);
        reveal(coherent);
        super::base_from_list(a);
        let c = AppModel {
            filter: None,
            mode: ModeModel::Selection,
            ui: crate::ui::with_count(a.ui, crate::layout::capped(a.base().len() as int)),
            ..a
        };
        assert(c.active() == a.base());
        if let Some(u) = a.selected_id() {
            rows_are_listed(c, u);
            if c.lists(u) {
                select_lands(c, u);
            }
        }
    }
}

// ---- another graph ----

proof fn repeats_go_alone(s: Seq<Text>, u: Text)
    ensures
        without_repeats(s).contains(u) <==> s.contains(u),
        s.len() > 0 ==> without_repeats(s).len() > 0 && without_repeats(s).last() == s.last(),
        (forall|i: int| 0 <= i < s.len() - 1 ==> #[trigger] s[i] != s[i + 1]) ==> without_repeats(s) == s,
    decreases s.len(),
{
    if s.len() > 0 {
        let r = s.drop_last();
        let w = without_repeats(r);
        repeats_go_alone(r, u);
        assert(s.contains(u) <==> r.contains(u) || u == s.last()) by {
            if r.contains(u) {
                assert(s[r.index_of(u)] == u);
            }
            assert(s[s.len() - 1] == s.last());
            if s.contains(u) && u != s.last() {
                assert(r[s.index_of(u)] == u);
            }
        }
        if w.len() > 0 && w.last() == s.last() {
            assert(w[w.len() - 1] == s.last());
        } else {
            let x = w.push(s.last());
            assert(x.contains(u) <==> w.contains(u) || u == s.last()) by {
                if w.contains(u) {
                    assert(x[w.index_of(u)] == u);
                }
                assert(x[x.len() - 1] == s.last());
                if x.contains(u) && u != s.last() {
                    assert(w[x.index_of(u)] == u);
                }
            }
        }
        if forall|i: int| 0 <= i < s.len() - 1 ==> #[trigger] s[i] != s[i + 1] {
            assert forall|i: int| 0 <= i < r.len() - 1 implies #[trigger] r[i] != r[i + 1] by {
                assert(s[i] != s[i + 1]);
            }
            if r.len() > 0 {
                assert(s[s.len() - 2] != s[s.len() - 2 + 1]);
                assert(r.last() == s[s.len() - 2]);
            }
            assert(r.push(s.last()) =~= s);
        }
    }
}

/// Another graph keeps every bookmark and every step of the history whose node
/// still exists, and no other; the choices of view, order, filter, theme and
/// baseline stay.
pub proof fn reload_keeps_what_exists(a: AppModel, d: DagModel, u: Text)
    ensures
        ({
            let b = a.reloaded(d);
            &&& b.bookmarks.contains(u) <==> a.bookmarks.contains(u) && d.nodes.contains_key(u)
            &&& b.back.contains(u) <==> a.back.contains(u) && d.nodes.contains_key(u)
            &&& b.forward.contains(u) <==> a.forward.contains(u) && d.nodes.contains_key(u)
            &&& b.view == a.view
            &&& b.sort == a.sort
            &&& b.list_filter == a.list_filter
            &&& b.glyphs == a.glyphs
            &&& b.themes == a.themes && b.theme_index == a.theme_index
            &&& b.diff_base == a.diff_base && b.diff_label == a.diff_label
            &&& b.project_root == a.project_root
            &&& b.mode == ModeModel::Selection
            &&& b.dag == d
        }),
{
    reveal(AppModel::list_filter_applied);
    let known = |w: Text| d.nodes.contains_key(w);
    filter_keeps(a.back, known, u);
    filter_keeps(a.forward, known, u);
    repeats_go_alone(a.back.filter(known), u);
    repeats_go_alone(a.forward.filter(known), u);
}

/// A history whose nodes all still exist, with no step to the same node, stays
/// as it is.
pub proof fn reload_keeps_the_history(a: AppModel, d: DagModel)
    requires
        forall|i: int| 0 <= i < a.back.len() ==> d.nodes.contains_key(#[trigger] a.back[i]),
        forall|i: int| 0 <= i < a.back.len() - 1 ==> #[trigger] a.back[i] != a.back[i + 1],
        forall|i: int| 0 <= i < a.forward.len() ==> d.nodes.contains_key(#[trigger] a.forward[i]),
        forall|i: int| 0 <= i < a.forward.len() - 1 ==> #[trigger] a.forward[i] != a.forward[i + 1],
    ensures
        a.reloaded(d).back == a.back,
        a.reloaded(d).forward == a.forward,
{
    reveal(AppModel::list_filter_applied);
    let known = |w: Text| d.nodes.contains_key(w);
    super::rows::kept_whole(a.back, known);
    super::rows::kept_whole(a.forward, known);
    repeats_go_alone(a.back, Seq::empty());
    repeats_go_alone(a.forward, Seq::empty());
}

// ---- the trail ----

proof fn first_fit_is_first(cs: Seq<Text>, ws: Seq<usize>, max: usize)
    requires
        cs.len() == ws.len(),
    ensures
        match first_fit(cs, ws, max) {
            Some(t) => exists|k: int| 0 <= k < cs.len() && #[trigger] cs[k] == t && ws[k] <= max && forall|j: int| 0 <= j < k ==> #[trigger] ws[j] > max,
            None => forall|j: int| 0 <= j < cs.len() ==> #[trigger] ws[j] > max,
        },
    decreases cs.len(),
{
    if cs.len() > 0 && ws[0] > max {
        let c = cs.drop_first();
        let w = ws.drop_first();
        first_fit_is_first(c, w, max);
        match first_fit(c, w, max) {
            Some(t) => {
                let k = choose|k: int| 0 <= k < c.len() && #[trigger] c[k] == t && w[k] <= max && forall|j: int| 0 <= j < k ==> #[trigger] w[j] > max;
                assert(cs[k + 1] == t && ws[k + 1] <= max);
                assert forall|j: int| 0 <= j < k + 1 implies #[trigger] ws[j] > max by {
                    if j > 0 {
                        assert(w[j - 1] > max);
                    }
                }
            },
            None => {
                assert forall|j: int| 0 <= j < cs.len() implies #[trigger] ws[j] > max by {
                    if j > 0 {
                        assert(w[j - 1] > max);
                    }
                }
            },
        }
    } else if cs.len() > 0 {
        assert(cs[0] == cs[0]);
    }
}

/// A trail with the first `k` of its entries left out.
pub open spec fn cut_trail(names: Seq<Text>, k: int) -> Text {
    if k == 0 {
        joined(names, " > "@)
    } else {
        ".. > "@ + joined(names.skip(k), " > "@)
    }
}

/// The shortened trail is no wider than a title.
pub open spec fn has_room(names: Seq<Text>, k: int, max: usize) -> bool {
    display_width(cut_trail(names, k)) <= max
}

/// The trail in a title shows as many of its last entries as fit: the first
/// shortening whose width is at most the given one, and the root alone where
/// none fits.
pub proof fn trails_show_what_fits(a: AppModel, max: usize)
    requires
        a.back.len() > 0,
        a.selected_id() is Some,
    ensures
        ({
            let names = trail_names(a, a.selected_id()->0);
            let t = trail_of(a, max);
            &&& t is Some
            &&& (exists|k: int| 0 <= k < names.len() && t->0 == cut_trail(names, k) && #[trigger] has_room(names, k, max) && forall|j: int|
                0 <= j < k ==> !#[trigger] has_room(names, j, max)) || (t->0 == ".. > "@ + names.last() && forall|j: int|
                0 <= j < names.len() ==> !#[trigger] has_room(names, j, max))
        }),
{
    let names = trail_names(a, a.selected_id()->0);
    let cs = trails_of(joined(names, " > "@), names);
    let ws = widths_of(cs);
    first_fit_is_first(cs, ws, max);
    assert(cs.len() == names.len());
    assert forall|k: int| 0 <= k < names.len() implies #[trigger] cs[k] == cut_trail(names, k) && ws[k] == display_width(
        cut_trail(names, k),
    ) by {}
    match first_fit(cs, ws, max) {
        Some(t) => {
            let k = choose|k: int| 0 <= k < cs.len() && #[trigger] cs[k] == t && ws[k] <= max && forall|j: int| 0 <= j < k ==> #[trigger] ws[j] > max;
            assert(t == cut_trail(names, k));
            assert(has_room(names, k, max));
            assert forall|j: int| 0 <= j < k implies !#[trigger] has_room(names, j, max) by {
                assert(ws[j] > max);
                assert(cs[j] == cut_trail(names, j));
            }
        },
        None => {
            assert forall|j: int| 0 <= j < names.len() implies !#[trigger] has_room(names, j, max) by {
                assert(ws[j] > max);
                assert(cs[j] == cut_trail(names, j));
            }
        },
    }
}

/// The entries of the trail are the names of the last three steps back, where
/// they still exist, and of the root.
pub proof fn trails_name_the_last_steps(a: AppModel, root: Text)
    requires
        a.back.len() >= 3,
        forall|i: int| 0 <= i < a.back.len() ==> a.dag.nodes.contains_key(#[trigger] a.back[i]),
        a.dag.nodes.contains_key(root),
    ensures
        ({
            let n = a.back.len();
            trail_names(a, root) == seq![
                a.dag.nodes[a.back[n - 3]].name,
                a.dag.nodes[a.back[n - 2]].name,
                a.dag.nodes[a.back[n - 1]].name,
                a.dag.nodes[root].name,
            ]
        }),
{
    let n = a.back.len();
    let recent = a.back.skip(n - 3);
    let known = |u: Text| a.dag.nodes.contains_key(u);
    super::rows::kept_whole(recent, known);
    assert(trail_names(a, root) =~= seq![
        a.dag.nodes[a.back[n - 3]].name,
        a.dag.nodes[a.back[n - 2]].name,
        a.dag.nodes[a.back[n - 1]].name,
        a.dag.nodes[root].name,
    ]);
}

} // verus!
