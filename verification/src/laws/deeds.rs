//! What the actions do to the state, and what they leave alone.

use vstd::prelude::*;

use super::rows::{cycling_goes_to_the_next, cycling_goes_to_the_previous, kept_at};
use super::stats::impact_is_counted;
use crate::action::{Action, Direction, ModeModel, SearchTarget};
use crate::app::analysis::{breakdown, diff_view_of, stats_view_of};
use crate::app::arms::{scrolled_by, scrolled_to};
use crate::app::{coherent, AppModel, LineageView, ListFilter};
use crate::dag::NodeModel;
use crate::effect::EffectModel;
use crate::graph::{reach, reach_stays};
use crate::layout::LineageLens;
use crate::model_list::{cycled, KeepModel, SortMode};
use crate::reducer::{acted, step};
use crate::text::{trimmed, Text};
use crate::ui::{Focus, UiModel};

verus! {

// ---- the way out ----

/// Only quitting quits, and it changes nothing and has no effect.
pub proof fn only_quit_quits(a: AppModel, action: Action)
    requires
        !(action == Action::SearchConfirm && a.mode is Palette),
    ensures
        step(a, action).1.quit <==> action == Action::Quit,
        action == Action::Quit ==> step(a, action).0 == a && step(a, action).1.effects.len() == 0,
{
    reveal(AppModel::exported);
}

// ---- effects ----

/// The actions that reach outside.
pub open spec fn reaches_out(action: Action) -> bool {
    match action {
        Action::OpenEditor | Action::YankId | Action::YankName | Action::YankMermaid | Action::YankDot | Action::YankAscii
        | Action::YankSql | Action::YankImpact | Action::ExportLineage | Action::Reload | Action::DbtParse => true,
        _ => false,
    }
}

/// No other action has an effect, and none has more than one. Those that reach
/// outside change no more than the message.
pub proof fn few_actions_reach_out(a: AppModel, action: Action)
    requires
        !(action == Action::SearchConfirm && a.mode is Palette),
    ensures
        !reaches_out(action) ==> step(a, action).1.effects.len() == 0,
        step(a, action).1.effects.len() <= 1,
        reaches_out(action) ==> step(a, action).0 == (AppModel { notice: step(a, action).0.notice, ..a }),
{
    reveal(AppModel::exported);
}

/// With a model selected, copying gives its id, its name, and its SQL where
/// that is not blank.
pub proof fn copies_are_of_the_selected(a: AppModel, n: NodeModel)
    requires
        a.selected() == Some(n),
    ensures
        step(a, Action::YankId).1.effects == seq![EffectModel::Yank(n.unique_id)],
        step(a, Action::YankName).1.effects == seq![EffectModel::Yank(n.name)],
        step(a, Action::Reload).1.effects == seq![EffectModel::ReloadManifest],
        step(a, Action::DbtParse).1.effects == seq![EffectModel::DbtParse],
        ({
            let has = a.dag.sql.contains_key(n.unique_id) && trimmed(a.dag.sql[n.unique_id]).len() > 0;
            step(a, Action::YankSql).1.effects == if has {
                seq![EffectModel::Yank(a.dag.sql[n.unique_id])]
            } else {
                seq![]
            }
        }),
{
    reveal(AppModel::raw_sql);
}

/// Without a selection there is nothing to copy, export or open.
pub proof fn nothing_to_copy(a: AppModel, action: Action)
    requires
        a.selected() is None,
        reaches_out(action),
        action != Action::Reload,
        action != Action::DbtParse,
    ensures
        step(a, action).0 == a,
        step(a, action).1.effects.len() == 0,
{
    reveal(AppModel::exported);
    reveal(AppModel::mermaid);
    reveal(AppModel::dot);
    reveal(AppModel::ascii);
    reveal(AppModel::raw_sql);
    reveal(AppModel::impact);
    reveal(AppModel::file_path);
}

// ---- the view ----

/// Narrowing starts at three hops and takes one away each time, down to one.
/// Widening adds one, up to eight, and then lifts the limit. Neither changes
/// anything else, and a reset lifts the limit and shows both sides.
pub proof fn depth_goes_by_one(a: AppModel)
    ensures
        ({
            let less = step(a, Action::DepthDecrease).0;
            let more = step(a, Action::DepthIncrease).0;
            let all = step(a, Action::ResetView).0;
            &&& less == (AppModel { view: LineageView { depth: less.view.depth, ..a.view }, ..a })
            &&& more == (AppModel { view: LineageView { depth: more.view.depth, ..a.view }, ..a })
            &&& a.view.depth is None ==> less.view.depth == Some(3usize) && more.view.depth is None
            &&& a.view.depth matches Some(n) ==> {
                &&& n > 1 ==> less.view.depth == Some((n - 1) as usize)
                &&& n <= 1 ==> less.view.depth == Some(1usize)
                &&& n < 8 ==> more.view.depth == Some((n + 1) as usize)
                &&& n >= 8 ==> more.view.depth is None
            }
            &&& all == (AppModel { view: all.view, ..a })
            &&& all.view.upstream && all.view.downstream && all.view.depth is None
        }),
{
}

/// Widening undoes narrowing, between one hop and eight.
pub proof fn widening_undoes_narrowing(a: AppModel, n: usize)
    requires
        a.view.depth == Some(n),
        1 < n <= 8,
    ensures
        step(step(a, Action::DepthDecrease).0, Action::DepthIncrease).0 == a,
{
}

/// Hiding a side of the lineage flips that side and nothing else.
pub proof fn sides_are_flipped(a: AppModel)
    ensures
        step(a, Action::ToggleUpstream).0 == (AppModel { view: LineageView { upstream: !a.view.upstream, ..a.view }, ..a }),
        step(a, Action::ToggleDownstream).0 == (AppModel { view: LineageView { downstream: !a.view.downstream, ..a.view }, ..a }),
        step(a, Action::ToggleMinimap).0 == (AppModel { ui: UiModel { minimap: !a.ui.minimap, ..a.ui }, ..a }),
        step(a, Action::ToggleDensity).0.ui.density != a.ui.density,
        step(a, Action::Recenter).0 == (AppModel { cursor: None, ..a }),
{
}

// ---- overlays ----

/// The same overlay with another scroll position.
pub open spec fn same_but_scrolled(m: ModeModel, n: ModeModel) -> bool {
    match (m, n) {
        (ModeModel::Help { scroll: _ }, ModeModel::Help { scroll: _ }) => true,
        (ModeModel::Detail(x), ModeModel::Detail(y)) => x == (crate::action::DetailViewModel { scroll: x.scroll, ..y }),
        (ModeModel::Sql(x), ModeModel::Sql(y)) => x == (crate::action::SqlModel { scroll: x.scroll, ..y }),
        (ModeModel::Stats(x), ModeModel::Stats(y)) => x == (crate::action::StatsViewModel { scroll: x.scroll, ..y }),
        (ModeModel::Diff(x), ModeModel::Diff(y)) => x == (crate::action::DiffViewModel { scroll: x.scroll, ..y }),
        _ => m == n,
    }
}

/// The line that an overlay is scrolled to.
pub open spec fn top_line(m: ModeModel) -> int {
    match m {
        ModeModel::Help { scroll } => scroll as int,
        ModeModel::Detail(x) => x.scroll as int,
        ModeModel::Sql(x) => x.scroll as int,
        ModeModel::Stats(x) => x.scroll as int,
        ModeModel::Diff(x) => x.scroll as int,
        _ => -1,
    }
}

/// Scrolling moves an overlay by one line or by ten, or to the top, and changes
/// neither what it shows nor anything around it.
pub proof fn scrolling_moves_the_overlay(a: AppModel)
    ensures
        ({
            let t = top_line(a.mode);
            let down = step(a, Action::DetailScroll(Direction::Down)).0;
            let up = step(a, Action::DetailScroll(Direction::Up)).0;
            let page_down = step(a, Action::DetailScrollPage(Direction::Down)).0;
            let page_up = step(a, Action::DetailScrollPage(Direction::Up)).0;
            let home = step(a, Action::DetailScrollHome).0;
            let end = step(a, Action::DetailScrollEnd).0;
            &&& forall|b: AppModel| b == down || b == up || b == page_down || b == page_up || b == home || b == end ==> same_but_scrolled(
                a.mode,
                b.mode,
            ) && #[trigger] a.in_mode(b.mode) == b
            &&& t >= 0 ==> {
                &&& t + 10 <= usize::MAX ==> top_line(down.mode) == t + 1 && top_line(page_down.mode) == t + 10
                &&& top_line(up.mode) == if t >= 1 { t - 1 } else { 0 }
                &&& top_line(page_up.mode) == if t >= 10 { t - 10 } else { 0 }
                &&& top_line(home.mode) == 0
                &&& top_line(end.mode) == usize::MAX
            }
        }),
{
    reveal(scrolled_by);
    reveal(scrolled_to);
}

/// Closing an overlay leaves it for the selection and changes nothing else.
pub proof fn closing_leaves_the_overlay(a: AppModel)
    ensures
        step(a, Action::DetailClose).0 == (AppModel { mode: ModeModel::Selection, ..a }),
        a.mode is Help ==> step(a, Action::HelpToggle).0 == (AppModel { mode: ModeModel::Selection, ..a }),
        !(a.mode is Help) ==> step(a, Action::HelpToggle).0 == (AppModel { mode: ModeModel::Help { scroll: 0 }, ..a }),
{
}

/// The SQL preview shows the recorded SQL, name and file of the node that has
/// the focus, from the top.
pub proof fn preview_shows_the_sql(a: AppModel, u: Text)
    requires
        a.focus_id() == Some(u),
        a.dag.nodes.contains_key(u),
        a.dag.sql.contains_key(u),
        a.dag.details.contains_key(u),
    ensures
        ({
            let b = step(a, Action::SqlOpen).0;
            &&& b == (AppModel { mode: b.mode, ..a })
            &&& b.mode is Sql
            &&& b.mode->Sql_0.model_id == u
            &&& b.mode->Sql_0.name == a.dag.nodes[u].name
            &&& b.mode->Sql_0.sql == a.dag.sql[u]
            &&& b.mode->Sql_0.path == a.dag.details[u].original_file_path
            &&& b.mode->Sql_0.scroll == 0
        }),
{
    reveal(AppModel::sql_opened);
}

/// The structure of the node that has the focus is shown with its recorded
/// details and tests, and with how many nodes are up- and downstream of it,
/// exposures aside.
pub proof fn structure_shows_the_details(a: AppModel, u: Text)
    requires
        a.dag.valid(),
        a.dag.nodes.dom().len() <= usize::MAX,
        a.focus_id() == Some(u),
        a.selected_id() == Some(u) || a.dag.nodes[u].resource_type != "model"@,
        a.dag.nodes.contains_key(u),
        a.dag.details.contains_key(u),
        a.dag.tests.contains_key(u),
    ensures
        ({
            let b = step(a, Action::DetailOpen).0;
            let v = b.mode->Detail_0;
            let down = reach(a.dag.children, u, None);
            &&& b == (AppModel { mode: b.mode, ..a })
            &&& b.mode is Detail
            &&& v.model_id == u
            &&& v.name == a.dag.nodes[u].name
            &&& v.detail == a.dag.details[u]
            &&& v.tests == a.dag.tests[u]
            &&& v.upstream_count == reach(a.dag.parents, u, None).len()
            &&& v.downstream_count == down.filter(|w: Text| a.dag.nodes[w].resource_type != "exposure"@).len()
            &&& v.scroll == 0
        }),
{
    let d = a.dag;
    reveal(AppModel::detail_opened);
    impact_is_counted(d, u);
    reach_stays(d.children, u, None, d.nodes.dom());
    reach_stays(d.parents, u, None, d.nodes.dom());
    vstd::set_lib::lemma_len_subset(reach(d.children, u, None), d.nodes.dom());
    vstd::set_lib::lemma_len_subset(reach(d.parents, u, None), d.nodes.dom());
    let down = reach(d.children, u, None);
    let others = down.filter(|w: Text| d.nodes[w].resource_type != "exposure"@);
    assert(down.filter(|w: Text| a.dag.nodes[w].resource_type != "exposure"@) =~= others);
    vstd::set_lib::lemma_len_subset(others, down);
    assert(breakdown(d, u).0 == others.len());
}

/// An overlay opens on the cursor where the lineage has the focus, else on the
/// selected model.
pub proof fn overlays_open_on_the_focus(a: AppModel)
    ensures
        a.ui.focus == Focus::List ==> a.focus_id() == a.selected_id(),
        a.ui.focus == Focus::RightPane && a.cursor is None ==> a.focus_id() == a.selected_id(),
        a.ui.focus == Focus::RightPane && a.cursor is Some && a.subgraph().has(a.cursor->0) ==> a.focus_id() == a.cursor,
        a.ui.focus == Focus::RightPane && a.cursor is Some && !a.subgraph().has(a.cursor->0) ==> a.focus_id() == a.selected_id(),
{
}

/// The dashboard and the difference open as overlays over an unchanged state;
/// without a baseline there is only a message.
pub proof fn dashboards_open_over_the_state(a: AppModel)
    ensures
        step(a, Action::StatsOpen).0 == (AppModel { mode: ModeModel::Stats(stats_view_of(a)), ..a }),
        a.diff is Some ==> step(a, Action::DiffOpen).0 == (AppModel { mode: ModeModel::Diff(diff_view_of(a)->0), ..a }),
        a.diff is None ==> step(a, Action::DiffOpen).0 == (AppModel { notice: step(a, Action::DiffOpen).0.notice, ..a }),
{
    reveal(AppModel::diff_opened);
}

// ---- searching ----

/// The query that is being typed.
pub open spec fn typed(m: ModeModel) -> Option<Text> {
    match m {
        ModeModel::Search(s) => Some(s.query),
        ModeModel::Palette(p) => Some(p.query),
        _ => None,
    }
}

proof fn refiltered_keeps_mode(a: AppModel)
    ensures
        a.refiltered().mode == a.mode,
        a.refiltered().dag == a.dag,
{
    reveal(AppModel::refiltered);
}

/// A typed character is put behind the query, a backspace takes the last one
/// away, and so undoes it.
pub proof fn typing_edits_the_query(a: AppModel, c: char)
    requires
        typed(a.mode) is Some,
    ensures
        ({
            let q = typed(a.mode)->0;
            let b = step(a, Action::SearchType(c)).0;
            let e = step(a, Action::SearchBackspace).0;
            &&& typed(b.mode) == Some(q.push(c))
            &&& q.len() > 0 ==> typed(e.mode) == Some(q.drop_last())
            &&& q.len() == 0 ==> typed(e.mode) == Some(q)
            &&& typed(step(b, Action::SearchBackspace).0.mode) == Some(q)
        }),
{
    reveal(AppModel::with_query);
    let b = step(a, Action::SearchType(c)).0;
    let q = typed(a.mode)->0;
    assert(q.push(c).drop_last() =~= q);
    let f = |q: Text| q.push(c);
    let g = |q: Text| crate::app::arms::backspaced(q);
    match a.mode {
        ModeModel::Search(s) => {
            let m = a.in_mode(ModeModel::Search(crate::action::SearchModel { query: f(s.query), match_idx: 0, ..s }));
            refiltered_keeps_mode(m);
            let n = a.in_mode(ModeModel::Search(crate::action::SearchModel { query: g(s.query), match_idx: 0, ..s }));
            refiltered_keeps_mode(n);
            assert(b == m.refiltered());
            let t = b.mode->Search_0;
            let o = b.in_mode(ModeModel::Search(crate::action::SearchModel { query: g(t.query), match_idx: 0, ..t }));
            refiltered_keeps_mode(o);
        },
        _ => {},
    }
}

/// A search opens on the pane that has the focus, with nothing typed, and
/// remembers where it began.
pub proof fn searches_begin_empty(a: AppModel)
    ensures
        ({
            let b = step(a, Action::SearchOpen).0;
            &&& b.mode is Search
            &&& b.mode->Search_0.query.len() == 0
            &&& b.mode->Search_0.match_idx == 0
            &&& b.mode->Search_0.origin_uid == a.selected_id()
            &&& b.mode->Search_0.target == SearchTarget::List <==> a.ui.focus == Focus::List
            &&& step(a, Action::PaletteOpen).0 == (AppModel { mode: step(a, Action::PaletteOpen).0.mode, ..a })
            &&& typed(step(a, Action::PaletteOpen).0.mode) == Some(Seq::<char>::empty())
        }),
{
    reveal(AppModel::search_opened);
    reveal(AppModel::refiltered);
}

/// Moving through the matches of a lineage search goes one on or back, around
/// the ends, and changes nothing else; back undoes on.
pub proof fn matches_are_walked_in_turn(a: AppModel)
    requires
        a.mode is Search,
        a.mode->Search_0.target == SearchTarget::Lineage,
        a.matches_of(a.mode->Search_0.query).len() > 0,
        a.mode->Search_0.match_idx < a.matches_of(a.mode->Search_0.query).len(),
        a.matches_of(a.mode->Search_0.query).len() <= usize::MAX,
    ensures
        ({
            let s = a.mode->Search_0;
            let n = a.matches_of(s.query).len();
            let on = step(a, Action::SearchMove(Direction::Down)).0;
            let back = step(a, Action::SearchMove(Direction::Up)).0;
            &&& on == (AppModel { mode: on.mode, ..a })
            &&& on.mode is Search && back.mode is Search
            &&& on.mode->Search_0.query == s.query
            &&& s.match_idx + 1 < n ==> on.mode->Search_0.match_idx == s.match_idx + 1
            &&& s.match_idx + 1 == n ==> on.mode->Search_0.match_idx == 0
            &&& s.match_idx > 0 ==> back.mode->Search_0.match_idx == s.match_idx - 1
            &&& s.match_idx == 0 ==> back.mode->Search_0.match_idx == n - 1
            &&& a.current_match() == Some(a.matches_of(s.query)[s.match_idx as int])
        }),
{
    reveal(AppModel::search_moved);
    let s = a.mode->Search_0;
    let n = a.matches_of(s.query).len() as int;
    let i = s.match_idx as int;
    vstd::arithmetic::div_mod::lemma_small_mod(s.match_idx as nat, n as nat);
    if i + 1 < n {
        vstd::arithmetic::div_mod::lemma_small_mod((i + 1) as nat, n as nat);
    } else {
        vstd::arithmetic::div_mod::lemma_mod_self_0(n);
    }
    assert((i + n - 1) % n == if i == 0 { n - 1 } else { i - 1 }) by (nonlinear_arith)
        requires
            0 <= i < n,
    ;
}

/// The matches of a lineage search are the nodes of the lineage whose names the
/// query matches, in the order of the lineage.
pub proof fn matches_are_in_the_lineage(a: AppModel, q: Text, u: Text)
    requires
        trimmed(q).len() > 0,
    ensures
        a.matches_of(q).contains(u) <==> exists|i: int|
            0 <= i < a.subgraph().nodes.len() && (#[trigger] a.subgraph().nodes[i]).unique_id == u && exists|places: Seq<nat>|
                super::rows::found_at(q, a.subgraph().nodes[i].name, places),
        trimmed(q).len() > 0,
{
    let ns = a.subgraph().nodes;
    let p = |n: NodeModel| crate::model_list::subsequence(q, n.name);
    let hits = ns.filter(p);
    let ids = a.matches_of(q);
    if ids.contains(u) {
        let k = ids.index_of(u);
        assert(hits[k].unique_id == u);
        assert(hits.contains(hits[k]));
        crate::sorted::filter_keeps(ns, p, hits[k]);
        let i = ns.index_of(hits[k]);
        assert(ns[i] == hits[k]);
        super::rows::queries_match_in_order(q, ns[i].name);
    }
    if exists|i: int|
        0 <= i < ns.len() && (#[trigger] ns[i]).unique_id == u && exists|places: Seq<nat>| super::rows::found_at(q, ns[i].name, places) {
        let i = choose|i: int|
            0 <= i < ns.len() && (#[trigger] ns[i]).unique_id == u && exists|places: Seq<nat>| super::rows::found_at(q, ns[i].name, places);
        super::rows::queries_match_in_order(q, ns[i].name);
        crate::sorted::filter_keeps(ns, p, ns[i]);
        assert(ns.contains(ns[i]));
        let k = hits.index_of(ns[i]);
        assert(ids[k] == u);
    }
}

// ---- the list ----

/// Moving in the list: by one, by ten, or to an end, never past the ends, and
/// nothing else changes.
pub proof fn moves_stay_in_the_list(a: AppModel)
    requires
        a.ui.focus == Focus::List,
        a.ui.selected < a.ui.model_count,
    ensures
        ({
            let i = a.ui.selected as int;
            let last = a.ui.model_count - 1;
            let down = step(a, Action::MoveDown).0;
            let up = step(a, Action::MoveUp).0;
            let page_down = step(a, Action::PageDown).0;
            let page_up = step(a, Action::PageUp).0;
            let top = step(a, Action::JumpTop).0;
            let bottom = step(a, Action::JumpBottom).0;
            &&& down.ui.selected == if i < last { i + 1 } else { last }
            &&& up.ui.selected == if i > 0 { i - 1 } else { 0 }
            &&& page_down.ui.selected == if i + 10 < last { i + 10 } else { last }
            &&& page_up.ui.selected == if i > 10 { i - 10 } else { 0 }
            &&& top.ui.selected == 0
            &&& bottom.ui.selected == last
            &&& forall|b: AppModel|
                b == down || b == up || b == page_down || b == page_up || b == top || b == bottom ==> #[trigger] moved_to(a, b.ui.selected) == b
        }),
{
}

/// The state with another row selected.
pub open spec fn moved_to(a: AppModel, i: usize) -> AppModel {
    AppModel { ui: UiModel { selected: i, ..a.ui }, ..a }
}

/// The focus goes to the other pane and back; a hidden list gives it away and
/// gets it back when it is shown again.
pub proof fn focus_goes_to_the_other_pane(a: AppModel)
    ensures
        ({
            let b = step(a, Action::ToggleFocus).0;
            let h = step(a, Action::ToggleListPane).0;
            &&& a.ui.list_visible ==> b.ui.focus != a.ui.focus && b == (AppModel { ui: UiModel { focus: b.ui.focus, ..a.ui }, ..a })
            &&& !a.ui.list_visible ==> b == a
            &&& h.ui.list_visible == !a.ui.list_visible
            &&& h.ui.focus == if h.ui.list_visible { Focus::List } else { Focus::RightPane }
            &&& h == (AppModel { ui: UiModel { focus: h.ui.focus, list_visible: h.ui.list_visible, ..a.ui }, ..a })
        }),
{
}

/// A bookmark goes on or off the selected model alone.
pub proof fn bookmarks_change_for_the_selected(a: AppModel, v: Text)
    ensures
        ({
            let b = step(a, Action::BookmarkToggle).0;
            if a.selected_id() == Some(v) {
                b.bookmarks.contains(v) == !a.bookmarks.contains(v)
            } else {
                b.bookmarks.contains(v) == a.bookmarks.contains(v)
            }
        }),
{
    reveal(AppModel::bookmark_toggled);
    reveal(AppModel::list_filter_applied);
    reveal(AppModel::refiltered);
}

/// A filter goes on, in place of another one, or off where it was on.
pub proof fn filters_go_on_and_off(a: AppModel)
    ensures
        ({
            let t = step(a, Action::ToggleUntestedFilter).0.list_filter;
            let b = step(a, Action::ToggleBookmarkFilter).0.list_filter;
            &&& t == if a.list_filter == ListFilter::Untested { ListFilter::All } else { ListFilter::Untested }
            &&& b == if a.list_filter == ListFilter::Bookmarked { ListFilter::All } else { ListFilter::Bookmarked }
        }),
{
    reveal(AppModel::filter_toggled);
    reveal(AppModel::list_filter_applied);
    reveal(AppModel::refiltered);
}

/// The next untested or bookmarked model below the selected one is selected,
/// around the end of the list; the state stays as it is where there is none.
pub proof fn cycling_selects_the_next(a: AppModel, keep: KeepModel)
    requires
        coherent(a),
        a.ui.selected < a.active().len(),
    ensures
        ({
            let i = a.ui.selected as int;
            let l = a.active();
            let b = a.cycled_to(true, keep);
            let j = b.ui.selected as int;
            let c = a.cycled_to(false, keep);
            let k = c.ui.selected as int;
            &&& b == moved_to(a, b.ui.selected) && c == moved_to(a, c.ui.selected)
            &&& if exists|m: int| #[trigger] kept_at(l, keep, m) {
                &&& kept_at(l, keep, j) && kept_at(l, keep, k)
                &&& j > i ==> forall|m: int| i < m && #[trigger] kept_at(l, keep, m) ==> j <= m
                &&& j <= i ==> forall|m: int| #[trigger] kept_at(l, keep, m) ==> j <= m <= i
                &&& k < i ==> forall|m: int| m < i && #[trigger] kept_at(l, keep, m) ==> m <= k
                &&& k >= i ==> forall|m: int| #[trigger] kept_at(l, keep, m) ==> i <= m <= k
            } else {
                b == a && c == a
            }
        }),
{
    reveal(AppModel::cycled_to);
    reveal(coherent);
    cycling_goes_to_the_next(a.active(), a.ui.selected as int, keep);
    cycling_goes_to_the_previous(a.active(), a.ui.selected as int, keep);
    let f = cycled(a.active(), a.ui.selected as int, true, keep, 1);
    let g = cycled(a.active(), a.ui.selected as int, false, keep, 1);
    if let Some(x) = f {
        assert(kept_at(a.active(), keep, x));
    }
    if let Some(x) = g {
        assert(kept_at(a.active(), keep, x));
    }
}

/// What the cycling keys look for.
pub proof fn cycling_keys_look_for(a: AppModel)
    ensures
        step(a, Action::GapNext).0 == a.cycled_to(true, KeepModel::Untested),
        step(a, Action::GapPrev).0 == a.cycled_to(false, KeepModel::Untested),
        step(a, Action::BookmarkCycle).0 == a.cycled_to(true, KeepModel::Bookmarked(a.bookmarks)),
        step(a, Action::BookmarkCycleBack).0 == a.cycled_to(false, KeepModel::Bookmarked(a.bookmarks)),
        forall|n: NodeModel| #[trigger]
            KeepModel::Untested.keeps(n) <==> (n.resource_type == "model"@ || n.resource_type == "snapshot"@ || n.resource_type == "seed"@)
                && n.test_count == 0,
        forall|n: NodeModel| #[trigger] KeepModel::Bookmarked(a.bookmarks).keeps(n) <==> a.bookmarks.contains(n.unique_id),
{
}

// ---- cycles ----

/// The lenses come one after the other and around; the diff lens is passed over
/// without a baseline. Nothing else changes.
pub proof fn lenses_come_in_turn(a: AppModel)
    ensures
        ({
            let b = step(a, Action::CycleLens).0;
            &&& b == (AppModel { ui: UiModel { lens: b.ui.lens, ..a.ui }, ..a })
            &&& a.ui.lens == LineageLens::Off ==> b.ui.lens == LineageLens::Coverage
            &&& a.ui.lens == LineageLens::Coverage ==> b.ui.lens == LineageLens::DegreeHeat
            &&& a.ui.lens == LineageLens::DegreeHeat ==> b.ui.lens == LineageLens::Layer
            &&& a.ui.lens == LineageLens::Layer ==> b.ui.lens == LineageLens::LayerViolation
            &&& a.ui.lens == LineageLens::LayerViolation ==> b.ui.lens == if a.diff is Some { LineageLens::Diff } else { LineageLens::Off }
            &&& a.ui.lens == LineageLens::Diff ==> b.ui.lens == LineageLens::Off
        }),
{
    reveal(AppModel::lens_cycled);
}

/// The orders of the list come one after the other and around.
pub proof fn orders_come_in_turn(a: AppModel)
    ensures
        ({
            let b = step(a, Action::SortCycle).0;
            &&& a.sort == SortMode::Layer ==> b.sort == SortMode::Downstream
            &&& a.sort == SortMode::Downstream ==> b.sort == SortMode::Tests
            &&& a.sort == SortMode::Tests ==> b.sort == SortMode::Layer
        }),
{
    reveal(AppModel::sort_cycled);
    reveal(AppModel::list_filter_applied);
    reveal(AppModel::refiltered);
}

/// The themes come one after the other and around, each named in the message.
pub proof fn themes_come_in_turn(a: AppModel)
    requires
        a.theme_index < a.themes.len() <= usize::MAX,
    ensures
        ({
            let b = step(a, Action::ThemeCycle).0;
            let last = a.themes.len() - 1;
            &&& b.theme_index == if a.theme_index < last { a.theme_index + 1 } else { 0 }
            &&& b == (AppModel { theme_index: b.theme_index, notice: Some("theme: "@ + a.themes[b.theme_index as int].0), ..a })
        }),
{
    reveal(AppModel::theme_cycled);
    let n = a.themes.len() as int;
    let i = a.theme_index as int;
    if i + 1 < n {
        vstd::arithmetic::div_mod::lemma_small_mod((i + 1) as nat, n as nat);
    } else {
        vstd::arithmetic::div_mod::lemma_mod_self_0(n);
    }
}

// ---- what stays ----

/// The same graph from the same source, with the same baseline, themes and
/// glyphs.
pub open spec fn same_ground(a: AppModel, b: AppModel) -> bool {
    &&& b.dag == a.dag
    &&& b.stats == a.stats
    &&& b.source == a.source
    &&& b.project_root == a.project_root
    &&& b.diff_base == a.diff_base
    &&& b.diff_label == a.diff_label
    &&& b.diff == a.diff
    &&& b.themes == a.themes
    &&& b.glyphs == a.glyphs
}

/// No action changes the graph, where it came from, the baseline, or the
/// themes and glyphs to choose from.
pub proof fn actions_keep_the_graph(a: AppModel, action: Action)
    ensures
        same_ground(a, step(a, action).0),
{
    if action == Action::SearchConfirm && a.mode is Palette {
        let p = a.mode->Palette_0;
        let closed = a.in_mode(ModeModel::Selection);
        if p.selected < crate::action::offers(p.query).len() {
            acting_keeps_the_graph(closed, crate::action::offers(p.query)[p.selected as int].action);
        }
    } else {
        acting_keeps_the_graph(a, action);
    }
}

proof fn refiltering_keeps_the_graph(a: AppModel)
    ensures
        same_ground(a, a.refiltered()),
        same_ground(a, a.list_filter_applied()),
{
    reveal(AppModel::refiltered);
    reveal(AppModel::list_filter_applied);
}

proof fn jumping_keeps_the_graph(a: AppModel, uid: Text)
    ensures
        same_ground(a, a.jumped(uid)),
        same_ground(a, a.search_closed(Some(uid))),
        same_ground(a, a.search_closed(None)),
        same_ground(a, a.went_back()),
        same_ground(a, a.went_forward()),
{
    reveal(AppModel::jumped);
    reveal(AppModel::search_closed);
    reveal(AppModel::went_back);
    reveal(AppModel::went_forward);
}

proof fn searching_keeps_the_graph(a: AppModel, edit: spec_fn(Text) -> Text, dir: Direction)
    ensures
        same_ground(a, a.search_opened()),
        same_ground(a, a.with_query(edit)),
        same_ground(a, a.search_moved(dir)),
        same_ground(a, a.search_cancelled()),
        same_ground(a, a.search_confirmed()),
{
    reveal(AppModel::search_opened);
    reveal(AppModel::with_query);
    reveal(AppModel::search_moved);
    reveal(AppModel::search_cancelled);
    reveal(AppModel::search_confirmed);
    let target = if a.ui.focus == Focus::List {
        SearchTarget::List
    } else {
        SearchTarget::Lineage
    };
    let s = crate::action::SearchModel { target, query: Seq::empty(), origin_uid: a.selected_id(), match_idx: 0 };
    refiltering_keeps_the_graph(a.in_mode(ModeModel::Search(s)));
    jumping_keeps_the_graph(a, a.selected_id().unwrap_or(Seq::empty()));
    if let ModeModel::Search(s) = a.mode {
        let t = crate::action::SearchModel { query: edit(s.query), match_idx: 0, ..s };
        refiltering_keeps_the_graph(a.in_mode(ModeModel::Search(t)));
        if let Some(u) = s.origin_uid {
            jumping_keeps_the_graph(a, u);
        }
        if let Some(u) = a.current_match() {
            jumping_keeps_the_graph(a.in_mode(ModeModel::Selection), u);
        }
    }
}

proof fn listing_keeps_the_graph(a: AppModel, target: ListFilter, forward: bool, keep: KeepModel)
    ensures
        same_ground(a, a.bookmark_toggled()),
        same_ground(a, a.filter_toggled(target)),
        same_ground(a, a.cycled_to(forward, keep)),
        same_ground(a, a.sort_cycled()),
{
    reveal(AppModel::bookmark_toggled);
    reveal(AppModel::filter_toggled);
    reveal(AppModel::cycled_to);
    reveal(AppModel::sort_cycled);
    let sort = crate::model_list::next_sort(a.sort);
    refiltering_keeps_the_graph(AppModel { sort, model_list: crate::model_list::models_of(a.dag, sort), ..a });
    refiltering_keeps_the_graph(AppModel { list_filter: if a.list_filter == target { ListFilter::All } else { target }, ..a });
    if let Some(uid) = a.selected_id() {
        let name = a.name_of(uid);
        refiltering_keeps_the_graph(AppModel { bookmarks: a.bookmarks.remove(uid), ..a }.noted("Removed bookmark: "@ + name));
        refiltering_keeps_the_graph(AppModel { bookmarks: a.bookmarks.insert(uid), ..a }.noted("Bookmarked: "@ + name));
    }
}

proof fn showing_keeps_the_graph(a: AppModel, dir: Direction, right: bool)
    ensures
        same_ground(a, a.cursor_moved(dir)),
        same_ground(a, a.cursor_at_extreme(right)),
        same_ground(a, a.detail_opened()),
        same_ground(a, a.sql_opened()),
        same_ground(a, a.lens_cycled()),
        same_ground(a, a.theme_cycled()),
        same_ground(a, a.diff_opened()),
        same_ground(a, a.exported().0),
{
    reveal(AppModel::cursor_moved);
    reveal(AppModel::cursor_at_extreme);
    reveal(AppModel::detail_opened);
    reveal(AppModel::sql_opened);
    reveal(AppModel::lens_cycled);
    reveal(AppModel::theme_cycled);
    reveal(AppModel::diff_opened);
    reveal(AppModel::exported);
    if let Some(u) = a.focus_id() {
        jumping_keeps_the_graph(a, u);
    }
}

proof fn acting_keeps_the_graph(a: AppModel, action: Action)
    ensures
        same_ground(a, acted(a, action).0),
{
    match action {
        Action::SearchType(c) => searching_keeps_the_graph(a, |q: Text| q.push(c), Direction::Up),
        Action::SearchMove(dir) => searching_keeps_the_graph(a, |q: Text| q, dir),
        _ => searching_keeps_the_graph(a, |q: Text| crate::app::arms::backspaced(q), Direction::Up),
    }
    jumping_keeps_the_graph(a, Seq::empty());
    match action {
        Action::ToggleUntestedFilter => listing_keeps_the_graph(a, ListFilter::Untested, true, KeepModel::Untested),
        Action::ToggleBookmarkFilter => listing_keeps_the_graph(a, ListFilter::Bookmarked, true, KeepModel::Untested),
        Action::BookmarkCycle => listing_keeps_the_graph(a, ListFilter::All, true, KeepModel::Bookmarked(a.bookmarks)),
        Action::BookmarkCycleBack => listing_keeps_the_graph(a, ListFilter::All, false, KeepModel::Bookmarked(a.bookmarks)),
        Action::GapPrev => listing_keeps_the_graph(a, ListFilter::All, false, KeepModel::Untested),
        _ => listing_keeps_the_graph(a, ListFilter::All, true, KeepModel::Untested),
    }
    match action {
        Action::LineageLeftmost => showing_keeps_the_graph(a, Direction::Up, false),
        _ => showing_keeps_the_graph(a, crate::reducer::direction_of(action), true),
    }
}

} // verus!
