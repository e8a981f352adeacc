//! What holds of the application as a whole, whatever is done to it.

use vstd::prelude::*;
use vstd::relations::*;

use crate::action::{Action, Direction, ModeModel, PaletteModel, SearchModel, SearchTarget};
use crate::app::analysis::{passes, passing, stats_view_of, NodeTest};
use crate::app::arms::{backspaced, scrolled_by, scrolled_to};
use crate::app::lineage::{in_column, pick, step_target};
use crate::app::{all_from, coherent, count_of, fresh, place_of, stats_of, AppModel, ListFilter, SourceModel};
use crate::dag::{is_gap, subgraph_members, DagModel, NodeModel};
use crate::diff::diff_of;
use crate::layout::{capped, layout_covers};
use crate::model_list::{
    around, cycled, in_order_rows, in_order_rows_sorted, model_rows, models_of, next_sort, row_of, subsequence,
    KeepModel, SortMode,
};
use crate::reducer::{acted, direction_of, step};
use crate::sorted::{filter_keeps, listing, listing_exists};
use crate::text::Text;
use crate::ui::{reduced_stays_valid, with_count, ThemeModel};

pub mod chain;
pub mod change;
pub mod contents;
pub mod deeds;
pub mod distance;
pub mod drawing;
pub mod escape;
pub mod exposure;
pub mod graph;
pub mod impact;
pub mod keys;
pub mod lens;
pub mod motion;
pub mod names;
pub mod orders;
pub mod pages;
pub mod path;
pub mod picture;
pub mod pull;
pub mod record;
pub mod reports;
pub mod rows;
pub mod signs;
pub mod stats;
pub mod styles;
pub mod texts;
pub mod trail;
pub mod turns;
pub mod wording;
pub mod written;

verus! {

// ---- lists ----

proof fn filtered_from<A>(s: Seq<A>, p: spec_fn(A) -> bool)
    ensures
        s.filter(p).len() <= s.len(),
        forall|i: int| 0 <= i < s.filter(p).len() ==> s.contains(#[trigger] s.filter(p)[i]) && p(s.filter(p)[i]),
    decreases s.len(),
{
    reveal(Seq::filter);
    if s.len() > 0 {
        let r = s.drop_last();
        filtered_from(r, p);
        let f = r.filter(p);
        assert forall|i: int| 0 <= i < s.filter(p).len() implies s.contains(#[trigger] s.filter(p)[i]) && p(s.filter(p)[i]) by {
            if i < f.len() {
                assert(r.contains(f[i]));
                let k = r.index_of(f[i]);
                assert(s[k] == f[i]);
            } else {
                assert(s[s.len() - 1] == s.last());
            }
        }
    }
}

pub(crate) proof fn place_found(list: Seq<NodeModel>, uid: Text)
    ensures
        place_of(list, uid) matches Some(i) ==> 0 <= i < list.len() && list[i].unique_id == uid,
        place_of(list, uid) is None ==> forall|i: int| 0 <= i < list.len() ==> (#[trigger] list[i]).unique_id != uid,
    decreases list.len(),
{
    if list.len() > 0 && list[0].unique_id != uid {
        let rest = list.drop_first();
        place_found(rest, uid);
        assert forall|i: int| place_of(list, uid) is None && 0 <= i < list.len() implies (#[trigger] list[i]).unique_id != uid by {
            if i > 0 {
                assert(rest[i - 1] == list[i]);
            }
        }
        if let Some(k) = place_of(rest, uid) {
            assert(rest[k] == list[k + 1]);
        }
    }
}

/// After a selection by id, that id is selected.
pub(crate) proof fn select_lands(a: AppModel, uid: Text)
    requires
        a.ui.model_count == a.active().len(),
        a.lists(uid),
    ensures
        a.select(uid).selected_id() == Some(uid),
{
    place_found(a.active(), uid);
}

/// What is selected can be selected by its id.
proof fn selected_is_listed(a: AppModel)
    ensures
        a.selected_id() matches Some(uid) ==> a.lists(uid),
{
    if let Some(uid) = a.selected_id() {
        place_found(a.active(), uid);
    }
}

pub(crate) proof fn base_from_list(a: AppModel)
    requires
        coherent(a),
    ensures
        all_from(a.base(), a.model_list),
        a.base().len() <= usize::MAX,
{
    reveal(coherent);
    filtered_parts(a);
}

proof fn filtered_parts(a: AppModel)
    requires
        a.model_list.len() <= usize::MAX,
    ensures
        a.filtered() matches Some(l) ==> all_from(l, a.model_list) && l.len() <= usize::MAX,
        all_from(a.model_list, a.model_list),
{
    let p = |n: NodeModel| KeepModel::Untested.keeps(n);
    let q = |n: NodeModel| KeepModel::Bookmarked(a.bookmarks).keeps(n);
    filtered_from(a.model_list, p);
    filtered_from(a.model_list, q);
}

proof fn settle_coherent(a: AppModel, first: Option<Text>, second: Option<Text>)
    requires
        coherent(a),
    ensures
        coherent(a.settle(first, second)),
{
    reveal(coherent);
}

pub(crate) proof fn refiltered_coherent(a: AppModel)
    requires
        a.dag.valid(),
        a.model_list == models_of(a.dag, a.sort),
        a.model_list.len() <= usize::MAX,
        a.filtered_base == a.filtered(),
        !a.ui.list_visible ==> a.ui.focus == crate::ui::Focus::RightPane,
        a.stats == stats_of(a.dag),
        a.diff == (match a.diff_base {
            Some(b) => Some(diff_of(b, a.dag)),
            None => None,
        }),
        a.theme_index < a.themes.len() <= usize::MAX,
        a.list_search() is Some || coherent(a),
    ensures
        coherent(a.refiltered()),
{
    reveal(AppModel::refiltered);
    reveal(coherent);
    if let Some(s) = a.list_search() {
        let p = |n: NodeModel| subsequence(s.query, n.name);
        filtered_parts(a);
        filtered_from(a.base(), p);
        let hits = a.base().filter(p);
        assert(all_from(hits, a.model_list)) by {
            assert forall|i: int| 0 <= i < hits.len() implies a.model_list.contains(#[trigger] hits[i]) by {
                assert(a.base().contains(hits[i]));
                let k = a.base().index_of(hits[i]);
                assert(all_from(a.base(), a.model_list));
                assert(a.model_list.contains(a.base()[k]));
            }
        }
        let b = AppModel { filter: Some(hits), ui: with_count(a.ui, capped(hits.len() as int)), ..a };
        assert(b.filtered() == a.filtered());
        assert(coherent(b));
        settle_coherent(b, a.selected_id(), s.origin_uid);
    }
}

pub(crate) proof fn list_filter_coherent(a: AppModel)
    requires
        a.dag.valid(),
        a.model_list == models_of(a.dag, a.sort),
        a.model_list.len() <= usize::MAX,
        a.filter matches Some(l) ==> all_from(l, a.model_list) && l.len() <= usize::MAX,
        !a.ui.list_visible ==> a.ui.focus == crate::ui::Focus::RightPane,
        a.stats == stats_of(a.dag),
        a.diff == (match a.diff_base {
            Some(b) => Some(diff_of(b, a.dag)),
            None => None,
        }),
        a.theme_index < a.themes.len() <= usize::MAX,
    ensures
        coherent(a.list_filter_applied()),
{
    reveal(AppModel::list_filter_applied);
    reveal(coherent);
    let b = AppModel { filtered_base: a.filtered(), ..a };
    assert(b.filtered() == a.filtered());
    filtered_parts(a);
    if a.list_search() is Some {
        refiltered_coherent(b);
    } else {
        let c = AppModel { ui: with_count(b.ui, capped(b.active().len() as int)), ..b };
        assert(c.filtered() == a.filtered());
        assert(coherent(c));
        settle_coherent(c, a.selected_id(), None);
    }
}

proof fn search_closed_coherent(a: AppModel, uid: Option<Text>)
    requires
        coherent(a),
    ensures
        coherent(a.search_closed(uid)),
{
    reveal(AppModel::search_closed);
    reveal(coherent);
    base_from_list(a);
}

pub(crate) proof fn jumped_coherent(a: AppModel, uid: Text)
    requires
        coherent(a),
    ensures
        coherent(a.jumped(uid)),
{
    reveal(AppModel::jumped);
    reveal(coherent);
}

proof fn sort_cycled_coherent(a: AppModel)
    requires
        coherent(a),
    ensures
        coherent(a.sort_cycled()),
{
    reveal(AppModel::sort_cycled);
    reveal(coherent);
    let sort = next_sort(a.sort);
    let b = AppModel { sort, model_list: models_of(a.dag, sort), ..a };
    models_members(a.dag, a.sort);
    models_members(a.dag, sort);
    if let Some(l) = a.filter {
        assert(all_from(l, b.model_list)) by {
            assert forall|i: int| 0 <= i < l.len() implies b.model_list.contains(#[trigger] l[i]) by {
                assert(a.model_list.contains(l[i]));
            }
        }
    }
    list_filter_coherent(b);
}

/// What the list filter and an open search leave of a list depends only on the
/// models, not on their order.
proof fn same_models_shown(a: AppModel, b: AppModel, n: NodeModel)
    requires
        a.list_filter == b.list_filter,
        a.bookmarks == b.bookmarks,
        a.filtered_base == a.filtered(),
        b.filtered_base == b.filtered(),
        a.model_list.contains(n) <==> b.model_list.contains(n),
        match a.list_search() {
            Some(s) => a.filter == Some(a.base().filter(|m: NodeModel| subsequence(s.query, m.name))) && b.filter == Some(
                b.base().filter(|m: NodeModel| subsequence(s.query, m.name)),
            ),
            None => a.filter is None && b.filter is None,
        },
    ensures
        a.active().contains(n) <==> b.active().contains(n),
{
    match a.list_filter {
        ListFilter::All => {},
        ListFilter::Untested => {
            filter_keeps(a.model_list, |m: NodeModel| KeepModel::Untested.keeps(m), n);
            filter_keeps(b.model_list, |m: NodeModel| KeepModel::Untested.keeps(m), n);
        },
        ListFilter::Bookmarked => {
            let keep = |m: NodeModel| KeepModel::Bookmarked(a.bookmarks).keeps(m);
            filter_keeps(a.model_list, keep, n);
            filter_keeps(b.model_list, keep, n);
        },
    }
    if let Some(s) = a.list_search() {
        let hit = |m: NodeModel| subsequence(s.query, m.name);
        filter_keeps(a.base(), hit, n);
        filter_keeps(b.base(), hit, n);
    }
}

/// Another order shows the same models and keeps the selected one selected,
/// also while a search narrows the list.
pub proof fn sorting_keeps_the_selection(a: AppModel)
    requires
        coherent(a),
        a.selected_id() is Some,
        match a.list_search() {
            Some(s) => a.filter == Some(a.base().filter(|m: NodeModel| subsequence(s.query, m.name))),
            None => a.filter is None,
        },
    ensures
        a.sort_cycled().selected_id() == a.selected_id(),
        forall|n: NodeModel| #[trigger] a.sort_cycled().active().contains(n) <==> a.active().contains(n),
{
    let uid = a.selected_id()->0;
    let node = a.selected()->0;
    let sort = next_sort(a.sort);
    let b = AppModel { sort, model_list: models_of(a.dag, sort), ..a };
    let c = b.list_filter_applied();
    assert(coherent(c)) by {
        reveal(coherent);
        models_members(a.dag, a.sort);
        models_members(a.dag, sort);
        if let Some(l) = a.filter {
            assert(all_from(l, b.model_list)) by {
                assert forall|i: int| 0 <= i < l.len() implies b.model_list.contains(#[trigger] l[i]) by {
                    assert(a.model_list.contains(l[i]));
                }
            }
        }
        list_filter_coherent(b);
    }
    reveal(coherent);
    assert(c.filter == (match a.list_search() {
        Some(s) => Some(c.base().filter(|m: NodeModel| subsequence(s.query, m.name))),
        None => None,
    })) by {
        reveal(AppModel::list_filter_applied);
        reveal(AppModel::refiltered);
    }
    assert(c.model_list == b.model_list && c.list_filter == a.list_filter && c.bookmarks == a.bookmarks) by {
        reveal(AppModel::list_filter_applied);
        reveal(AppModel::refiltered);
    }
    models_members(a.dag, a.sort);
    models_members(a.dag, sort);
    assert forall|n: NodeModel| #[trigger] c.active().contains(n) <==> a.active().contains(n) by {
        assert(models_of(a.dag, a.sort).contains(n) <==> models_of(a.dag, sort).contains(n));
        same_models_shown(a, c, n);
    }
    assert(a.active().contains(node));
    assert(c.active().contains(node));
    place_found(c.active(), uid);
    assert(c.lists(uid)) by {
        let i = c.active().index_of(node);
        assert(c.active()[i].unique_id == uid);
    }
    select_lands(c, uid);
    assert(a.sort_cycled() == c.select(uid)) by {
        reveal(AppModel::sort_cycled);
    }
}

/// The list holds exactly the models of the graph, each once, whatever the
/// order: sorting changes neither which models are listed nor how many.
pub proof fn models_members(d: DagModel, mode: SortMode)
    requires
        d.valid(),
    ensures
        forall|n: NodeModel| #[trigger] models_of(d, mode).contains(n) <==> d.nodes.contains_key(n.unique_id) && d.nodes[n.unique_id] == n
            && n.resource_type == "model"@,
        models_of(d, mode).len() == count_of(d, "model"@),
{
    let ids = listing(d.nodes.dom());
    let p = |u: Text| d.nodes[u].resource_type == "model"@;
    let key = |u: Text| row_of(d.nodes[u], mode);
    let rows = model_rows(d, ids, mode);
    let list = models_of(d, mode);
    listing_exists(d.nodes.dom());
    filtered_from(ids, p);
    in_order_rows_sorted(rows);
    assert forall|n: NodeModel| #[trigger] list.contains(n) <==> d.nodes.contains_key(n.unique_id) && d.nodes[n.unique_id] == n
        && n.resource_type == "model"@ by {
        if list.contains(n) {
            let k = list.index_of(n);
            let r = in_order_rows(rows)[k];
            assert(in_order_rows(rows).contains(r));
            assert(rows.contains(r));
            let j = rows.index_of(r);
            let u = ids.filter(p)[j];
            assert(r == key(u));
            assert(ids.contains(u) && p(u));
            assert(d.nodes.contains_key(u));
            assert(n == d.nodes[u]);
        }
        if d.nodes.contains_key(n.unique_id) && d.nodes[n.unique_id] == n && n.resource_type == "model"@ {
            let u = n.unique_id;
            assert(ids.contains(u));
            kept_by_filter(ids, p, u);
            let j = ids.filter(p).index_of(u);
            assert(rows[j] == key(u));
            assert(rows.contains(key(u)));
            assert(in_order_rows(rows).contains(key(u)));
            let k = in_order_rows(rows).index_of(key(u));
            assert(list[k] == d.nodes[u]);
        }
    }
}

proof fn kept_by_filter(s: Seq<Text>, p: spec_fn(Text) -> bool, u: Text)
    requires
        s.contains(u),
        p(u),
    ensures
        s.filter(p).contains(u),
    decreases s.len(),
{
    reveal(Seq::filter);
    if s.len() > 0 {
        let r = s.drop_last();
        if s.last() == u {
            let f = s.filter(p);
            assert(f[f.len() - 1] == u);
        } else {
            let k = s.index_of(u);
            assert(r[k] == u);
            kept_by_filter(r, p, u);
            let f = r.filter(p);
            let i = f.index_of(u);
            assert(s.filter(p)[i] == u);
        }
    }
}

proof fn cycled_in_range(list: Seq<NodeModel>, start: int, forward: bool, keep: KeepModel, off: int)
    requires
        0 <= start,
        1 <= off,
    ensures
        cycled(list, start, forward, keep, off) matches Some(i) ==> 0 <= i < list.len() && keep.keeps(list[i]),
    decreases list.len() + 1 - off,
{
    let n = list.len() as int;
    if off <= n {
        let i = around(start, off, n, forward);
        assert(0 <= i < n) by (nonlinear_arith)
            requires
                n > 0,
                i == (if forward { (start + off) % n } else { (start + n - off % n) % n }),
        ;
        if !keep.keeps(list[i]) {
            cycled_in_range(list, start, forward, keep, off + 1);
        }
    }
}

/// Cycling lands on a model of the shown list that is kept, or stays put.
pub proof fn cycle_lands_on_kept(a: AppModel, forward: bool, keep: KeepModel)
    requires
        coherent(a),
    ensures
        a.cycled_to(forward, keep) == a || keep.keeps(a.cycled_to(forward, keep).selected()->0) && a.cycled_to(forward, keep).selected() is Some,
{
    reveal(AppModel::cycled_to);
    reveal(coherent);
    cycled_in_range(a.active(), a.ui.selected as int, forward, keep, 1);
}

// ---- every action keeps the state coherent ----

/// The state at the start is coherent.
pub proof fn fresh_is_coherent(d: DagModel, source: SourceModel, root: Text)
    requires
        d.valid(),
        count_of(d, "model"@) <= usize::MAX,
    ensures
        coherent(fresh(d, source, root)),
{
    reveal(coherent);
    models_members(d, SortMode::Layer);
}

// ---- what the other changes keep ----

pub(crate) proof fn notice_coherent(a: AppModel, notice: Option<Text>)
    requires
        coherent(a),
    ensures
        coherent(AppModel { notice, ..a }),
{
    reveal(coherent);
    assert(AppModel { notice, ..a }.filtered() == a.filtered());
}

pub(crate) proof fn cursor_coherent(a: AppModel, cursor: Option<Text>)
    requires
        coherent(a),
    ensures
        coherent(AppModel { cursor, ..a }),
{
    reveal(coherent);
    assert(AppModel { cursor, ..a }.filtered() == a.filtered());
}

pub(crate) proof fn source_coherent(a: AppModel, source: SourceModel, project_root: Text)
    requires
        coherent(a),
    ensures
        coherent(AppModel { source, project_root, ..a }),
{
    reveal(coherent);
    assert(AppModel { source, project_root, ..a }.filtered() == a.filtered());
}

pub(crate) proof fn themes_coherent(a: AppModel, themes: Seq<(Text, ThemeModel)>, theme_index: usize)
    requires
        coherent(a),
        theme_index < themes.len() <= usize::MAX,
    ensures
        coherent(AppModel { themes, theme_index, ..a }),
{
    reveal(coherent);
    assert(AppModel { themes, theme_index, ..a }.filtered() == a.filtered());
}

pub(crate) proof fn baseline_coherent(a: AppModel, base: DagModel, diff_label: Text)
    requires
        coherent(a),
    ensures
        coherent(AppModel { diff_base: Some(base), diff_label, diff: Some(diff_of(base, a.dag)), ..a }),
{
    reveal(coherent);
    assert(AppModel { diff_base: Some(base), diff_label, diff: Some(diff_of(base, a.dag)), ..a }.filtered() == a.filtered());
}

pub(crate) proof fn select_coherent(a: AppModel, uid: Text)
    requires
        coherent(a),
    ensures
        coherent(a.select(uid)),
{
    reveal(coherent);
    assert(a.select(uid).filtered() == a.filtered());
}

pub(crate) proof fn filters_coherent(a: AppModel)
    requires
        coherent(a),
    ensures
        coherent(a.list_filter_applied()),
        coherent(a.refiltered()),
{
    reveal(coherent);
    list_filter_coherent(a);
    refiltered_coherent(a);
}

pub(crate) proof fn clicked_coherent(a: AppModel, uid: Text)
    requires
        coherent(a),
    ensures
        coherent(a.clicked(uid)),
{
    jumped_coherent(a, uid);
    cursor_coherent(a.jumped(uid), None);
    cursor_coherent(a.jumped(uid), Some(uid));
}

/// No action makes the parts of the state disagree.
pub proof fn actions_keep_coherence(a: AppModel, action: Action)
    requires
        coherent(a),
    ensures
        coherent(step(a, action).0),
{
    if action == Action::SearchConfirm && a.mode is Palette {
        let p = a.mode->Palette_0;
        let closed = a.in_mode(ModeModel::Selection);
        mode_coherent(a, ModeModel::Selection);
        if p.selected < crate::action::offers(p.query).len() {
            acted_coherent(closed, crate::action::offers(p.query)[p.selected as int].action);
        }
    } else {
        acted_coherent(a, action);
    }
}

proof fn mode_coherent(a: AppModel, m: ModeModel)
    requires
        coherent(a),
    ensures
        coherent(a.in_mode(m)),
{
    reveal(coherent);
    assert(a.in_mode(m).filtered() == a.filtered());
}

proof fn with_query_coherent(a: AppModel, edit: spec_fn(Text) -> Text)
    requires
        coherent(a),
    ensures
        coherent(a.with_query(edit)),
{
    reveal(AppModel::with_query);
    reveal(coherent);
    match a.mode {
        ModeModel::Search(s) => {
            let b = a.in_mode(ModeModel::Search(SearchModel { query: edit(s.query), match_idx: 0, ..s }));
            mode_coherent(a, b.mode);
            refiltered_coherent(b);
        },
        _ => {},
    }
}

proof fn search_opened_coherent(a: AppModel)
    requires
        coherent(a),
    ensures
        coherent(a.search_opened()),
{
    reveal(AppModel::search_opened);
    let m = ModeModel::Search(
        SearchModel {
            target: if a.ui.focus == crate::ui::Focus::List {
                SearchTarget::List
            } else {
                SearchTarget::Lineage
            },
            query: Seq::empty(),
            origin_uid: a.selected_id(),
            match_idx: 0,
        },
    );
    mode_coherent(a, m);
    reveal(coherent);
    refiltered_coherent(a.in_mode(m));
}

proof fn bookmark_toggled_coherent(a: AppModel)
    requires
        coherent(a),
    ensures
        coherent(a.bookmark_toggled()),
{
    reveal(AppModel::bookmark_toggled);
    reveal(coherent);
    if let Some(uid) = a.selected_id() {
        let name = a.name_of(uid);
        let b = if a.bookmarks.contains(uid) {
            AppModel { bookmarks: a.bookmarks.remove(uid), ..a }.noted("Removed bookmark: "@ + name)
        } else {
            AppModel { bookmarks: a.bookmarks.insert(uid), ..a }.noted("Bookmarked: "@ + name)
        };
        if a.list_filter == ListFilter::Bookmarked {
            list_filter_coherent(b);
        } else {
            assert(b.filtered() == a.filtered());
        }
    }
}

proof fn search_ends_coherent(a: AppModel)
    requires
        coherent(a),
    ensures
        coherent(a.search_cancelled()),
        coherent(a.search_confirmed()),
{
    reveal(AppModel::search_cancelled);
    reveal(AppModel::search_confirmed);
    match a.mode {
        ModeModel::Palette(_) => {
            mode_coherent(a, ModeModel::Selection);
        },
        ModeModel::Search(s) => {
            search_closed_coherent(a, s.origin_uid);
            let b = a.in_mode(ModeModel::Selection);
            mode_coherent(a, ModeModel::Selection);
            if let Some(uid) = a.current_match() {
                jumped_coherent(b, uid);
            }
        },
        _ => {
            search_closed_coherent(a, None);
        },
    }
    search_closed_coherent(a, a.selected_id());
}

proof fn filter_toggled_coherent(a: AppModel, target: ListFilter)
    requires
        coherent(a),
    ensures
        coherent(a.filter_toggled(target)),
{
    reveal(AppModel::filter_toggled);
    reveal(coherent);
    let f = if a.list_filter == target {
        ListFilter::All
    } else {
        target
    };
    list_filter_coherent(AppModel { list_filter: f, ..a });
}

/// `b` is `a` but for what no list and no derived data depends on.
#[verifier::opaque]
pub(crate) open spec fn core_kept(a: AppModel, b: AppModel) -> bool {
    &&& b == (AppModel {
        ui: b.ui,
        mode: b.mode,
        view: b.view,
        cursor: b.cursor,
        notice: b.notice,
        back: b.back,
        forward: b.forward,
        theme_index: b.theme_index,
        ..a
    })
    &&& b.ui.valid()
    &&& b.ui.model_count == a.ui.model_count
    &&& b.theme_index < a.themes.len()
}

pub(crate) proof fn core_coherent(a: AppModel, b: AppModel)
    requires
        coherent(a),
        core_kept(a, b),
    ensures
        coherent(b),
{
    reveal(coherent);
    reveal(core_kept);
    assert(b.filtered() == a.filtered());
}

proof fn reduced_kept(a: AppModel, action: Action)
    requires
        coherent(a),
    ensures
        core_kept(a, a.ui_reduced(action)),
{
    reveal(coherent);
    reveal(core_kept);
    reduced_stays_valid(a.ui, action);
}

proof fn simple_changes_kept(a: AppModel, m: ModeModel, text: Text)
    requires
        coherent(a),
    ensures
        core_kept(a, a),
        core_kept(a, a.in_mode(m)),
        core_kept(a, a.noted(text)),
        core_kept(a, a.cursor_home()),
        core_kept(a, a.upstream_toggled()),
        core_kept(a, a.downstream_toggled()),
        core_kept(a, a.minimap_toggled()),
        core_kept(a, a.density_toggled()),
        core_kept(a, a.view_reset()),
        core_kept(a, a.shallower()),
        core_kept(a, a.deeper()),
        core_kept(a, a.lens_cycled()),
{
    reveal(AppModel::lens_cycled);
    reveal(coherent);
    reveal(core_kept);
}

pub(crate) proof fn moves_kept(a: AppModel, dir: Direction, far: bool)
    requires
        coherent(a),
    ensures
        core_kept(a, a.cursor_moved(dir)),
        core_kept(a, a.cursor_at_extreme(far)),
{
    reveal(AppModel::cursor_moved);
    reveal(AppModel::cursor_at_extreme);
    reveal(coherent);
    reveal(core_kept);
}

pub(crate) proof fn history_kept(a: AppModel)
    requires
        coherent(a),
    ensures
        core_kept(a, a.went_back()),
        core_kept(a, a.went_forward()),
{
    reveal(AppModel::went_back);
    reveal(AppModel::went_forward);
    reveal(coherent);
    reveal(core_kept);
}

pub(crate) proof fn cycles_kept(a: AppModel, forward: bool, keep: KeepModel)
    requires
        coherent(a),
    ensures
        core_kept(a, a.cycled_to(forward, keep)),
        core_kept(a, a.theme_cycled()),
{
    reveal(AppModel::cycled_to);
    reveal(AppModel::theme_cycled);
    reveal(coherent);
    reveal(core_kept);
    theme_in_range(a.theme_index as int, a.themes.len() as int);
}

proof fn copies_kept(a: AppModel, text: Option<Text>, notice: Text)
    requires
        coherent(a),
    ensures
        core_kept(a, a.yanked(text, notice).0),
        core_kept(a, a.exported().0),
{
    reveal(AppModel::exported);
    reveal(coherent);
    reveal(core_kept);
}

proof fn openings_kept(a: AppModel)
    requires
        coherent(a),
    ensures
        core_kept(a, a.help_toggled()),
        core_kept(a, a.sql_opened()),
        core_kept(a, a.diff_opened()),
{
    reveal(AppModel::sql_opened);
    reveal(AppModel::diff_opened);
    reveal(coherent);
    reveal(core_kept);
}

proof fn search_moved_coherent(a: AppModel, dir: Direction)
    requires
        coherent(a),
    ensures
        coherent(a.search_moved(dir)),
{
    reveal(AppModel::search_moved);
    let b = a.search_moved(dir);
    reduced_kept(a, Action::MoveDown);
    reduced_kept(a, Action::MoveUp);
    simple_changes_kept(a, b.mode, Seq::empty());
    assert(b == a || b == a.in_mode(b.mode) || b == a.ui_reduced(Action::MoveDown) || b == a.ui_reduced(Action::MoveUp));
    core_coherent(a, b);
}

/// The state after an action, the command palette aside.
#[verifier::opaque]
spec fn state_after(a: AppModel, action: Action) -> AppModel {
    acted(a, action).0
}

proof fn after_moves(a: AppModel)
    ensures
        state_after(a, Action::Quit) == a,
        state_after(a, Action::JumpTop) == a.ui_reduced(Action::JumpTop),
        state_after(a, Action::JumpBottom) == a.ui_reduced(Action::JumpBottom),
        state_after(a, Action::PageDown) == a.ui_reduced(Action::PageDown),
        state_after(a, Action::PageUp) == a.ui_reduced(Action::PageUp),
        state_after(a, Action::ToggleFocus) == a.ui_reduced(Action::ToggleFocus),
        state_after(a, Action::ToggleListPane) == a.ui_reduced(Action::ToggleListPane),
        state_after(a, Action::LineageLeftmost) == a.cursor_at_extreme(false),
        state_after(a, Action::LineageRightmost) == a.cursor_at_extreme(true),
        state_after(a, Action::HistoryBack) == a.went_back(),
        state_after(a, Action::HistoryForward) == a.went_forward(),
        state_after(a, Action::Recenter) == a.cursor_home(),
{
    reveal(state_after);
}

proof fn after_cycles(a: AppModel)
    ensures
        state_after(a, Action::BookmarkCycle) == a.cycled_to(true, KeepModel::Bookmarked(a.bookmarks)),
        state_after(a, Action::BookmarkCycleBack) == a.cycled_to(false, KeepModel::Bookmarked(a.bookmarks)),
        state_after(a, Action::GapNext) == a.cycled_to(true, KeepModel::Untested),
        state_after(a, Action::GapPrev) == a.cycled_to(false, KeepModel::Untested),
        state_after(a, Action::ThemeCycle) == a.theme_cycled(),
        state_after(a, Action::CycleLens) == a.lens_cycled(),
{
    reveal(state_after);
}

proof fn after_views(a: AppModel)
    ensures
        state_after(a, Action::ToggleUpstream) == a.upstream_toggled(),
        state_after(a, Action::ToggleDownstream) == a.downstream_toggled(),
        state_after(a, Action::DepthDecrease) == a.shallower(),
        state_after(a, Action::DepthIncrease) == a.deeper(),
        state_after(a, Action::ResetView) == a.view_reset(),
        state_after(a, Action::ToggleMinimap) == a.minimap_toggled(),
        state_after(a, Action::ToggleDensity) == a.density_toggled(),
{
    reveal(state_after);
}

proof fn after_copies(a: AppModel)
    ensures
        state_after(a, Action::OpenEditor) == a,
        state_after(a, Action::Reload) == a,
        state_after(a, Action::DbtParse) == a,
        state_after(a, Action::YankId) == a.yanked(a.selected_id(), "Copied unique_id"@).0,
        state_after(a, Action::YankMermaid) == a.yanked(a.mermaid(), "Copied Mermaid lineage"@).0,
        state_after(a, Action::YankDot) == a.yanked(a.dot(), "Copied DOT lineage"@).0,
        state_after(a, Action::YankAscii) == a.yanked(a.ascii(), "Copied ASCII lineage"@).0,
        state_after(a, Action::YankSql) == a.yanked(a.raw_sql(), "Copied raw SQL"@).0,
        state_after(a, Action::YankImpact) == a.yanked(a.impact(), "Copied impact report"@).0,
        state_after(a, Action::ExportLineage) == a.exported().0,
{
    reveal(state_after);
}

proof fn after_modals(a: AppModel)
    ensures
        state_after(a, Action::HelpToggle) == a.help_toggled(),
        state_after(a, Action::DetailClose) == a.in_mode(ModeModel::Selection),
        state_after(a, Action::DetailScrollHome) == a.in_mode(scrolled_to(a.mode, 0)),
        state_after(a, Action::DetailScrollEnd) == a.in_mode(scrolled_to(a.mode, usize::MAX)),
        state_after(a, Action::PaletteOpen) == a.in_mode(ModeModel::Palette(PaletteModel { query: Seq::empty(), selected: 0 })),
        state_after(a, Action::SqlOpen) == a.sql_opened(),
        state_after(a, Action::StatsOpen) == a.in_mode(ModeModel::Stats(stats_view_of(a))),
        state_after(a, Action::DiffOpen) == a.diff_opened(),
{
    reveal(state_after);
}

proof fn after_heavy(a: AppModel)
    ensures
        state_after(a, Action::DetailOpen) == a.detail_opened(),
        state_after(a, Action::SearchOpen) == a.search_opened(),
        state_after(a, Action::SearchBackspace) == a.with_query(|q: Text| backspaced(q)),
        state_after(a, Action::SearchCancel) == a.search_cancelled(),
        state_after(a, Action::SearchConfirm) == a.search_confirmed(),
        state_after(a, Action::BookmarkToggle) == a.bookmark_toggled(),
        state_after(a, Action::ToggleUntestedFilter) == a.filter_toggled(ListFilter::Untested),
        state_after(a, Action::ToggleBookmarkFilter) == a.filter_toggled(ListFilter::Bookmarked),
        state_after(a, Action::SortCycle) == a.sort_cycled(),
{
    reveal(state_after);
}

proof fn after_scroll(a: AppModel, dir: Direction)
    ensures
        state_after(a, Action::DetailScroll(dir)) == a.in_mode(scrolled_by(a.mode, dir, 1)),
        state_after(a, Action::DetailScrollPage(dir)) == a.in_mode(scrolled_by(a.mode, dir, 10)),
        state_after(a, Action::SearchMove(dir)) == a.search_moved(dir),
{
    reveal(state_after);
}

proof fn after_typing(a: AppModel, c: char)
    ensures
        state_after(a, Action::SearchType(c)) == a.with_query(|q: Text| q.push(c)),
{
    reveal(state_after);
}

proof fn after_name(a: AppModel)
    ensures
        core_kept(a, a) && core_kept(a, a.noted("Copied model name"@)) ==> core_kept(a, state_after(a, Action::YankName)),
{
    reveal(state_after);
}

proof fn after_step(a: AppModel, action: Action)
    requires
        action == Action::MoveDown || action == Action::MoveUp || action == Action::MoveLeft || action == Action::MoveRight,
    ensures
        state_after(a, action) == a.cursor_moved(direction_of(action)) || state_after(a, action) == a.ui_reduced(action),
{
    reveal(state_after);
}

proof fn acted_coherent(a: AppModel, action: Action)
    requires
        coherent(a),
    ensures
        coherent(acted(a, action).0),
{
    after_coherent(a, action);
    reveal(state_after);
}

proof fn after_coherent(a: AppModel, action: Action)
    requires
        coherent(a),
    ensures
        coherent(state_after(a, action)),
{
    let b = state_after(a, action);
    match action {
        Action::MoveDown | Action::MoveUp | Action::MoveLeft | Action::MoveRight => {
            after_step(a, action);
            moves_kept(a, direction_of(action), false);
            reduced_kept(a, action);
            core_coherent(a, b);
        },
        Action::JumpTop | Action::JumpBottom | Action::PageDown | Action::PageUp | Action::ToggleFocus
        | Action::ToggleListPane => {
            after_moves(a);
            reduced_kept(a, action);
            core_coherent(a, b);
        },
        Action::Quit | Action::Recenter => {
            after_moves(a);
            simple_changes_kept(a, a.mode, Seq::empty());
            core_coherent(a, b);
        },
        Action::LineageLeftmost | Action::LineageRightmost => {
            after_moves(a);
            moves_kept(a, Direction::Left, action == Action::LineageRightmost);
            core_coherent(a, b);
        },
        Action::HistoryBack | Action::HistoryForward => {
            after_moves(a);
            history_kept(a);
            core_coherent(a, b);
        },
        Action::BookmarkCycle | Action::BookmarkCycleBack => {
            after_cycles(a);
            cycles_kept(a, action == Action::BookmarkCycle, KeepModel::Bookmarked(a.bookmarks));
            core_coherent(a, b);
        },
        Action::GapNext | Action::GapPrev | Action::ThemeCycle => {
            after_cycles(a);
            cycles_kept(a, action == Action::GapNext, KeepModel::Untested);
            core_coherent(a, b);
        },
        Action::CycleLens => {
            after_cycles(a);
            simple_changes_kept(a, a.mode, Seq::empty());
            core_coherent(a, b);
        },
        Action::ToggleUpstream | Action::ToggleDownstream | Action::DepthDecrease | Action::DepthIncrease | Action::ResetView
        | Action::ToggleMinimap | Action::ToggleDensity => {
            after_views(a);
            simple_changes_kept(a, a.mode, Seq::empty());
            core_coherent(a, b);
        },
        Action::OpenEditor | Action::Reload | Action::DbtParse => {
            after_copies(a);
        },
        Action::YankId => {
            after_copies(a);
            copies_kept(a, a.selected_id(), "Copied unique_id"@);
            core_coherent(a, b);
        },
        Action::YankName => {
            after_name(a);
            simple_changes_kept(a, a.mode, "Copied model name"@);
            core_coherent(a, b);
        },
        Action::YankMermaid => {
            after_copies(a);
            copies_kept(a, a.mermaid(), "Copied Mermaid lineage"@);
            core_coherent(a, b);
        },
        Action::YankDot => {
            after_copies(a);
            copies_kept(a, a.dot(), "Copied DOT lineage"@);
            core_coherent(a, b);
        },
        Action::YankAscii => {
            after_copies(a);
            copies_kept(a, a.ascii(), "Copied ASCII lineage"@);
            core_coherent(a, b);
        },
        Action::YankSql => {
            after_copies(a);
            copies_kept(a, a.raw_sql(), "Copied raw SQL"@);
            core_coherent(a, b);
        },
        Action::YankImpact => {
            after_copies(a);
            copies_kept(a, a.impact(), "Copied impact report"@);
            core_coherent(a, b);
        },
        Action::ExportLineage => {
            after_copies(a);
            copies_kept(a, None, Seq::empty());
            core_coherent(a, b);
        },
        Action::HelpToggle | Action::SqlOpen | Action::DiffOpen => {
            after_modals(a);
            openings_kept(a);
            core_coherent(a, b);
        },
        Action::DetailClose => {
            after_modals(a);
            mode_coherent(a, ModeModel::Selection);
        },
        Action::DetailScrollHome => {
            after_modals(a);
            mode_coherent(a, scrolled_to(a.mode, 0));
        },
        Action::DetailScrollEnd => {
            after_modals(a);
            mode_coherent(a, scrolled_to(a.mode, usize::MAX));
        },
        Action::PaletteOpen => {
            after_modals(a);
            mode_coherent(a, ModeModel::Palette(PaletteModel { query: Seq::empty(), selected: 0 }));
        },
        Action::StatsOpen => {
            after_modals(a);
            mode_coherent(a, ModeModel::Stats(stats_view_of(a)));
        },
        Action::DetailScroll(dir) => {
            after_scroll(a, dir);
            mode_coherent(a, scrolled_by(a.mode, dir, 1));
        },
        Action::DetailScrollPage(dir) => {
            after_scroll(a, dir);
            mode_coherent(a, scrolled_by(a.mode, dir, 10));
        },
        Action::SearchMove(dir) => {
            after_scroll(a, dir);
            search_moved_coherent(a, dir);
        },
        Action::SearchType(c) => {
            after_typing(a, c);
            with_query_coherent(a, |q: Text| q.push(c));
        },
        Action::SearchBackspace => {
            after_heavy(a);
            with_query_coherent(a, |q: Text| backspaced(q));
        },
        Action::DetailOpen => {
            after_heavy(a);
            detail_opened_coherent(a);
        },
        Action::SearchOpen => {
            after_heavy(a);
            search_opened_coherent(a);
        },
        Action::SearchCancel | Action::SearchConfirm => {
            after_heavy(a);
            search_ends_coherent(a);
        },
        Action::BookmarkToggle => {
            after_heavy(a);
            bookmark_toggled_coherent(a);
        },
        Action::ToggleUntestedFilter => {
            after_heavy(a);
            filter_toggled_coherent(a, ListFilter::Untested);
        },
        Action::ToggleBookmarkFilter => {
            after_heavy(a);
            filter_toggled_coherent(a, ListFilter::Bookmarked);
        },
        Action::SortCycle => {
            after_heavy(a);
            sort_cycled_coherent(a);
        },
    }
}

proof fn detail_opened_coherent(a: AppModel)
    requires
        coherent(a),
    ensures
        coherent(a.detail_opened()),
{
    reveal(AppModel::detail_opened);
    if let Some(uid) = a.focus_id() {
        jumped_coherent(a, uid);
        mode_coherent(a, ModeModel::Detail(a.detail_of(uid)));
    }
}

proof fn theme_in_range(i: int, n: int)
    requires
        0 <= i < n,
    ensures
        0 <= (i + 1) % n < n,
{
    assert(0 <= (i + 1) % n < n) by (nonlinear_arith)
        requires
            n > 0,
    ;
}

/// A reload leaves a coherent state over the new graph.
pub proof fn reload_keeps_coherence(a: AppModel, d: DagModel)
    requires
        coherent(a),
        d.valid(),
        count_of(d, "model"@) <= usize::MAX,
    ensures
        coherent(a.reloaded(d)),
        a.reloaded(d).dag == d,
{
    reveal(AppModel::list_filter_applied);
    reveal(AppModel::refiltered);
    reveal(coherent);
    models_members(d, a.sort);
    let b = AppModel {
        dag: d,
        model_list: models_of(d, a.sort),
        stats: stats_of(d),
        bookmarks: a.bookmarks.intersect(d.nodes.dom()),
        back: crate::app::surviving(a.back, d),
        forward: crate::app::surviving(a.forward, d),
        filter: None,
        mode: ModeModel::Selection,
        cursor: None,
        diff: match a.diff_base {
            Some(b) => Some(diff_of(b, d)),
            None => None,
        },
        ..a
    };
    list_filter_coherent(b);
}

/// The state over the new graph before the selection is restored.
spec fn rebuilt(a: AppModel, d: DagModel) -> AppModel {
    AppModel {
        dag: d,
        model_list: models_of(d, a.sort),
        stats: stats_of(d),
        bookmarks: a.bookmarks.intersect(d.nodes.dom()),
        back: crate::app::surviving(a.back, d),
        forward: crate::app::surviving(a.forward, d),
        filter: None,
        mode: ModeModel::Selection,
        cursor: None,
        diff: match a.diff_base {
            Some(b) => Some(diff_of(b, d)),
            None => None,
        },
        ..a
    }.list_filter_applied()
}

/// A reload keeps the selection on the same model, where the list still shows
/// it.
pub proof fn reload_keeps_the_selection(a: AppModel, d: DagModel)
    requires
        coherent(a),
        d.valid(),
        count_of(d, "model"@) <= usize::MAX,
        a.selected_id() is Some,
        a.reloaded(d).lists(a.selected_id()->0),
    ensures
        a.reloaded(d).selected_id() == a.selected_id(),
{
    let uid = a.selected_id()->0;
    let b = rebuilt(a, d);
    models_members(d, a.sort);
    reveal(coherent);
    list_filter_coherent(
        AppModel {
            dag: d,
            model_list: models_of(d, a.sort),
            stats: stats_of(d),
            bookmarks: a.bookmarks.intersect(d.nodes.dom()),
            back: crate::app::surviving(a.back, d),
            forward: crate::app::surviving(a.forward, d),
            filter: None,
            mode: ModeModel::Selection,
            cursor: None,
            diff: match a.diff_base {
                Some(b) => Some(diff_of(b, d)),
                None => None,
            },
            ..a
        },
    );
    assert(a.reloaded(d) == b.select(uid));
    assert(b.select(uid).active() == b.active());
    select_lands(b, uid);
}

proof fn without_repeats_members(s: Seq<Text>)
    ensures
        forall|i: int| 0 <= i < crate::app::without_repeats(s).len() ==> s.contains(#[trigger] crate::app::without_repeats(s)[i]),
        forall|i: int| 0 <= i < crate::app::without_repeats(s).len() - 1 ==> #[trigger] crate::app::without_repeats(s)[i]
            != crate::app::without_repeats(s)[i + 1],
    decreases s.len(),
{
    if s.len() > 0 {
        let rest = s.drop_last();
        without_repeats_members(rest);
        let r = crate::app::without_repeats(rest);
        let t = crate::app::without_repeats(s);
        assert(s[s.len() - 1] == s.last());
        assert forall|i: int| 0 <= i < t.len() implies s.contains(#[trigger] t[i]) by {
            if i < r.len() {
                assert(rest.contains(r[i]));
                let k = rest.index_of(r[i]);
                assert(s[k] == r[i]);
            }
        }
        assert forall|i: int| 0 <= i < t.len() - 1 implies #[trigger] t[i] != t[i + 1] by {
            if i + 1 < r.len() {
                assert(r[i] != r[i + 1]);
            }
        }
    }
}

proof fn surviving_exist(s: Seq<Text>, d: DagModel)
    ensures
        forall|i: int| 0 <= i < crate::app::surviving(s, d).len() ==> d.nodes.contains_key(#[trigger] crate::app::surviving(s, d)[i]),
        forall|i: int| 0 <= i < crate::app::surviving(s, d).len() - 1 ==> #[trigger] crate::app::surviving(s, d)[i]
            != crate::app::surviving(s, d)[i + 1],
{
    let p = |u: Text| d.nodes.contains_key(u);
    let f = s.filter(p);
    filtered_from(s, p);
    without_repeats_members(f);
    let t = crate::app::surviving(s, d);
    assert forall|i: int| 0 <= i < t.len() implies d.nodes.contains_key(#[trigger] t[i]) by {
        assert(f.contains(t[i]));
        let k = f.index_of(t[i]);
        assert(p(f[k]));
    }
}

/// After a reload every bookmark and every step of the history is a node of
/// the new graph, no step leads to where it starts, and the cursor is at home.
pub proof fn reload_leaves_nothing_stale(a: AppModel, d: DagModel)
    ensures
        a.reloaded(d).bookmarks.subset_of(d.nodes.dom()),
        a.reloaded(d).bookmarks.subset_of(a.bookmarks),
        forall|i: int| 0 <= i < a.reloaded(d).back.len() ==> d.nodes.contains_key(#[trigger] a.reloaded(d).back[i]),
        forall|i: int| 0 <= i < a.reloaded(d).forward.len() ==> d.nodes.contains_key(#[trigger] a.reloaded(d).forward[i]),
        forall|i: int| 0 <= i < a.reloaded(d).back.len() - 1 ==> #[trigger] a.reloaded(d).back[i] != a.reloaded(d).back[i + 1],
        a.reloaded(d).cursor is None,
        a.reloaded(d).filter is None,
{
    reveal(AppModel::list_filter_applied);
    reveal(AppModel::refiltered);
    surviving_exist(a.back, d);
    surviving_exist(a.forward, d);
}

// ---- history ----

/// A step back after a re-root returns to where it began, and a step forward
/// after that to where the re-root led.
pub proof fn history_undoes_a_jump(a: AppModel, uid: Text)
    requires
        coherent(a),
        a.lists(uid),
        a.selected_id() is Some,
        a.selected_id() != Some(uid),
    ensures
        a.jumped(uid).selected_id() == Some(uid),
        a.jumped(uid).went_back().selected_id() == a.selected_id(),
        a.jumped(uid).went_back().back == a.back,
        a.jumped(uid).went_back().forward == seq![uid],
        a.jumped(uid).went_back().went_forward().selected_id() == Some(uid),
        a.jumped(uid).went_back().went_forward().back == a.jumped(uid).back,
        a.jumped(uid).went_back().went_forward().forward == a.jumped(uid).forward,
{
    reveal(AppModel::went_back);
    reveal(AppModel::went_forward);
    reveal(AppModel::jumped);
    reveal(coherent);
    let cur = a.selected_id()->0;
    selected_is_listed(a);
    select_lands(a, uid);
    let j = a.jumped(uid);
    assert(j.active() == a.active());
    assert(j.back.drop_last() =~= a.back);
    let b0 = AppModel { back: j.back.drop_last(), forward: j.forward.push(uid), ..j };
    assert(j.went_back() == b0.select(cur));
    select_lands(b0, cur);
    let b = j.went_back();
    assert(b.forward =~= seq![uid]);
    assert(b.forward.drop_last() =~= j.forward);
    assert(b.back.push(cur) =~= j.back);
    let f0 = AppModel { forward: b.forward.drop_last(), back: b.back.push(cur), ..b };
    assert(b.went_forward() == f0.select(uid));
    select_lands(f0, uid);
}

/// A step forward undoes a step back, and without a step back to undo it does
/// nothing.
pub proof fn forward_undoes_back(a: AppModel)
    requires
        coherent(a),
    ensures
        a.back.len() > 0 && a.selected_id() is Some && a.lists(a.back.last()) ==> {
            &&& a.went_back().selected_id() == Some(a.back.last())
            &&& a.went_back().went_forward().selected_id() == a.selected_id()
            &&& a.went_back().went_forward().back == a.back
            &&& a.went_back().went_forward().forward == a.forward
        },
        a.forward.len() == 0 ==> a.went_forward() == a,
        a.back.len() == 0 ==> a.went_back() == a,
{
    reveal(AppModel::went_back);
    reveal(AppModel::went_forward);
    reveal(coherent);
    if a.back.len() > 0 && a.selected_id() is Some && a.lists(a.back.last()) {
        let cur = a.selected_id()->0;
        let prev = a.back.last();
        selected_is_listed(a);
        let b0 = AppModel { back: a.back.drop_last(), forward: a.forward.push(cur), ..a };
        assert(a.went_back() == b0.select(prev));
        select_lands(b0, prev);
        let b = a.went_back();
        assert(b.active() == a.active());
        assert(b.forward.drop_last() =~= a.forward);
        assert(b.back.push(prev) =~= a.back);
        let f0 = AppModel { forward: b.forward.drop_last(), back: b.back.push(prev), ..b };
        assert(b.went_forward() == f0.select(cur));
        select_lands(f0, cur);
    }
}

// ---- searching ----

proof fn subsequence_prefix(q: Text, c: char, s: Text)
    requires
        subsequence(q.push(c), s),
    ensures
        subsequence(q, s),
    decreases s.len(),
{
    if q.len() > 0 {
        assert(q.push(c)[0] == q[0]);
        if s.len() > 0 {
            if q[0] == s[0] {
                assert(q.push(c).drop_first() =~= q.drop_first().push(c));
                subsequence_prefix(q.drop_first(), c, s.drop_first());
            } else {
                subsequence_prefix(q, c, s.drop_first());
            }
        }
    }
}

/// Typing only ever narrows a search: what matches the longer query matched the
/// shorter one.
pub proof fn typing_narrows(query: Text, c: char, n: NodeModel)
    requires
        KeepModel::Named(query.push(c)).keeps(n),
    ensures
        KeepModel::Named(query).keeps(n),
{
    subsequence_prefix(query, c, n.name);
}

/// Giving up a search brings back the list that it narrowed and the selection
/// that it began with.
pub proof fn cancel_restores(a: AppModel)
    requires
        coherent(a),
        a.mode is Search,
    ensures
        a.search_cancelled().mode == ModeModel::Selection,
        a.search_cancelled().filter is None,
        a.search_cancelled().active() == a.base(),
        a.mode->Search_0.origin_uid matches Some(uid) ==> (place_of(a.base(), uid) is Some ==> a.search_cancelled().selected_id() == Some(
            uid,
        )),
{
    reveal(AppModel::search_closed);
    reveal(AppModel::search_cancelled);
    reveal(coherent);
    let s = a.mode->Search_0;
    base_from_list(a);
    let b = AppModel {
        filter: None,
        mode: ModeModel::Selection,
        ui: with_count(a.ui, capped(a.base().len() as int)),
        ..a
    };
    assert(b.active() == a.base());
    if let Some(uid) = s.origin_uid {
        if place_of(a.base(), uid) is Some {
            select_lands(b, uid);
        }
    }
}

// ---- the cursor ----

proof fn pick_is_ok(keys: Seq<Text>, ok: spec_fn(Text) -> bool, lt: spec_fn(Text, Text) -> bool)
    ensures
        pick(keys, ok, lt) matches Some(u) ==> ok(u) && keys.contains(u),
    decreases keys.len(),
{
    if keys.len() > 0 {
        pick_is_ok(keys.drop_last(), ok, lt);
        assert(keys[keys.len() - 1] == keys.last());
        if let Some(u) = pick(keys.drop_last(), ok, lt) {
            let k = keys.drop_last().index_of(u);
            assert(keys[k] == u);
        }
    }
}

/// The selected model is a node of the graph.
pub proof fn selection_is_known(a: AppModel)
    requires
        coherent(a),
    ensures
        a.selected_id() matches Some(uid) ==> a.dag.nodes.contains_key(uid),
{
    reveal(coherent);
    if let Some(n) = a.selected() {
        base_from_list(a);
        models_members(a.dag, a.sort);
        assert(a.model_list.contains(n));
    }
}

/// Wherever the cursor is said to be, that is a node of the lineage.
pub proof fn cursor_is_in_the_lineage(a: AppModel)
    requires
        coherent(a),
    ensures
        a.cursor_id() matches Some(c) ==> a.subgraph().has(c),
        a.cursor_id() is Some == a.selected_id() is Some,
        !(a.cursor is Some && a.subgraph().has(a.cursor->0)) ==> a.cursor_id() == a.selected_id(),
{
    reveal(coherent);
    selection_is_known(a);
    if let Some(uid) = a.selected_id() {
        subgraph_members(a.dag, uid, a.view.upstream, a.view.downstream, a.view.depth);
    } else {
        assert(a.subgraph().nodes.len() == 0);
    }
}

/// A cursor step leads to a node of the lineage, or nowhere.
pub proof fn cursor_steps_stay_in_the_lineage(a: AppModel, dir: Direction)
    ensures
        a.cursor_moved(dir) == a || a.cursor_moved(dir).cursor is Some && a.subgraph().has(a.cursor_moved(dir).cursor->0),
{
    reveal(AppModel::cursor_moved);
    let l = a.diagram();
    layout_covers(a.display_subgraph(), a.glyphs, a.ui.density);
    if let Some(cur) = a.cursor_id() {
        if let Some(u) = step_target(l, cur, dir) {
            let keys = listing(l.rects.dom());
            let c = l.columns[cur];
            pick_is_ok(
                keys,
                |u: Text| in_column(l, u, c) && crate::app::lineage::above(l, cur, u),
                |x: Text, y: Text| crate::app::lineage::above(l, x, y),
            );
            pick_is_ok(
                keys,
                |u: Text| in_column(l, u, c) && crate::app::lineage::above(l, u, cur),
                |x: Text, y: Text| crate::app::lineage::above(l, y, x),
            );
            let mid = crate::layout::middle(l.rects[cur]);
            if dir == Direction::Left && c > 0 {
                let t = (c - 1) as usize;
                pick_is_ok(
                    keys,
                    |u: Text| in_column(l, u, t),
                    |x: Text, y: Text| crate::app::lineage::nearer(l, mid, x, y),
                );
            }
            let r = capped(c + 1);
            pick_is_ok(
                keys,
                |u: Text| in_column(l, u, r),
                |x: Text, y: Text| crate::app::lineage::nearer(l, mid, x, y),
            );
            assert(l.columns.contains_key(u));
            assert(a.display_subgraph().has(u));
            assert(a.display_subgraph().nodes == a.subgraph().nodes);
            let i = choose|i: int| 0 <= i < a.display_subgraph().nodes.len() && (#[trigger] a.display_subgraph().nodes[i]).unique_id == u;
            assert(a.subgraph().nodes[i].unique_id == u);
        }
    }
}

// ---- toggles ----

/// Toggling a side of the lineage, the minimap or the density twice changes
/// nothing.
pub proof fn toggles_undo_themselves(a: AppModel)
    ensures
        a.upstream_toggled().upstream_toggled() == a,
        a.downstream_toggled().downstream_toggled() == a,
        a.minimap_toggled().minimap_toggled() == a,
        a.density_toggled().density_toggled() == a,
{
}

/// Bookmarking a model twice leaves it as it was.
pub proof fn bookmark_toggle_undoes_itself(a: AppModel)
    requires
        a.list_filter != ListFilter::Bookmarked,
    ensures
        a.bookmark_toggled().bookmark_toggled().bookmarks == a.bookmarks,
        a.bookmark_toggled().selected_id() == a.selected_id(),
{
    reveal(AppModel::bookmark_toggled);
    if let Some(uid) = a.selected_id() {
        let b = a.bookmark_toggled();
        assert(b.selected_id() == a.selected_id());
        if a.bookmarks.contains(uid) {
            assert(a.bookmarks.remove(uid).insert(uid) =~= a.bookmarks);
        } else {
            assert(a.bookmarks.insert(uid).remove(uid) =~= a.bookmarks);
        }
    }
}

// ---- coverage ----

proof fn counts_split(s: Seq<Text>, d: DagModel)
    ensures
        s.filter(|u: Text| passes(d, NodeTest::Testable, u)).len() == s.filter(|u: Text| passes(d, NodeTest::Tested, u)).len()
            + s.filter(|u: Text| is_gap(d.nodes[u])).len(),
    decreases s.len(),
{
    reveal(Seq::filter);
    if s.len() > 0 {
        counts_split(s.drop_last(), d);
    }
}

/// What the dashboard calls untested are exactly the coverage gaps that the
/// lens marks and the list filter shows.
pub proof fn untested_are_the_gaps(d: DagModel)
    ensures
        passing(d, NodeTest::Testable).len() - passing(d, NodeTest::Tested).len() == listing(d.nodes.dom()).filter(
            |u: Text| is_gap(d.nodes[u]),
        ).len(),
{
    counts_split(listing(d.nodes.dom()), d);
}

} // verus!
