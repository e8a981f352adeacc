//! What every action does to the application, and the reducer that does it.

use vstd::prelude::*;

use crate::action::{offers, Action, Direction, Mode, ModeModel, PaletteModel, PaletteState};
use crate::app::analysis::stats_view_of;
use crate::app::arms::{backspaced, scrolled_by, scrolled_to, without_last};
use crate::app::{coherent, go_on, go_on_with, App, AppModel, LineageView, ListFilter, Outcome, OutcomeModel};
use crate::effect::{Effect, EffectModel};
use crate::model_list::KeepModel;
use crate::text::Text;
use crate::ui::Focus;

verus! {

/// The direction of a movement action.
pub open spec fn direction_of(action: Action) -> Direction {
    match action {
        Action::MoveDown => Direction::Down,
        Action::MoveUp => Direction::Up,
        Action::MoveLeft => Direction::Left,
        _ => Direction::Right,
    }
}

/// What an action does, the command palette aside.
pub open spec fn acted(a: AppModel, action: Action) -> (AppModel, OutcomeModel) {
    match action {
        Action::Quit => (a, OutcomeModel { quit: true, effects: Seq::empty() }),
        Action::MoveDown | Action::MoveUp | Action::MoveLeft | Action::MoveRight => if a.ui.focus == Focus::RightPane {
            (a.cursor_moved(direction_of(action)), go_on())
        } else {
            (a.ui_reduced(action), go_on())
        },
        Action::JumpTop | Action::JumpBottom | Action::PageDown | Action::PageUp | Action::ToggleFocus
        | Action::ToggleListPane => (a.ui_reduced(action), go_on()),
        Action::LineageLeftmost => (a.cursor_at_extreme(false), go_on()),
        Action::LineageRightmost => (a.cursor_at_extreme(true), go_on()),
        Action::HelpToggle => (a.help_toggled(), go_on()),
        Action::DetailOpen => (a.detail_opened(), go_on()),
        Action::DetailClose => (a.in_mode(ModeModel::Selection), go_on()),
        Action::DetailScroll(dir) => (a.in_mode(scrolled_by(a.mode, dir, 1)), go_on()),
        Action::DetailScrollPage(dir) => (a.in_mode(scrolled_by(a.mode, dir, 10)), go_on()),
        Action::DetailScrollHome => (a.in_mode(scrolled_to(a.mode, 0)), go_on()),
        Action::DetailScrollEnd => (a.in_mode(scrolled_to(a.mode, usize::MAX)), go_on()),
        Action::PaletteOpen => (
            a.in_mode(ModeModel::Palette(PaletteModel { query: Seq::empty(), selected: 0 })),
            go_on(),
        ),
        Action::SearchOpen => (a.search_opened(), go_on()),
        Action::SearchType(c) => (a.with_query(|q: Text| q.push(c)), go_on()),
        Action::SearchBackspace => (a.with_query(|q: Text| backspaced(q)), go_on()),
        Action::SearchMove(dir) => (a.search_moved(dir), go_on()),
        Action::SearchCancel => (a.search_cancelled(), go_on()),
        Action::SearchConfirm => (a.search_confirmed(), go_on()),
        Action::OpenEditor => match a.file_path() {
            Some(p) => (a, go_on_with(EffectModel::OpenEditor(p))),
            None => (a, go_on()),
        },
        Action::YankId => a.yanked(a.selected_id(), "Copied unique_id"@),
        Action::YankName => a.yanked(
            match a.selected() {
                Some(n) => Some(n.name),
                None => None,
            },
            "Copied model name"@,
        ),
        Action::YankMermaid => a.yanked(a.mermaid(), "Copied Mermaid lineage"@),
        Action::YankDot => a.yanked(a.dot(), "Copied DOT lineage"@),
        Action::YankAscii => a.yanked(a.ascii(), "Copied ASCII lineage"@),
        Action::YankSql => a.yanked(a.raw_sql(), "Copied raw SQL"@),
        Action::YankImpact => a.yanked(a.impact(), "Copied impact report"@),
        Action::ExportLineage => a.exported(),
        Action::Reload => (a, go_on_with(EffectModel::ReloadManifest)),
        Action::DbtParse => (a, go_on_with(EffectModel::DbtParse)),
        Action::Recenter => (a.cursor_home(), go_on()),
        Action::ToggleUpstream => (a.upstream_toggled(), go_on()),
        Action::ToggleDownstream => (a.downstream_toggled(), go_on()),
        Action::DepthDecrease => (a.shallower(), go_on()),
        Action::DepthIncrease => (a.deeper(), go_on()),
        Action::ResetView => (a.view_reset(), go_on()),
        Action::HistoryBack => (a.went_back(), go_on()),
        Action::HistoryForward => (a.went_forward(), go_on()),
        Action::SqlOpen => (a.sql_opened(), go_on()),
        Action::StatsOpen => (a.in_mode(ModeModel::Stats(stats_view_of(a))), go_on()),
        Action::CycleLens => (a.lens_cycled(), go_on()),
        Action::BookmarkToggle => (a.bookmark_toggled(), go_on()),
        Action::ToggleUntestedFilter => (a.filter_toggled(ListFilter::Untested), go_on()),
        Action::ToggleBookmarkFilter => (a.filter_toggled(ListFilter::Bookmarked), go_on()),
        Action::BookmarkCycle => (a.cycled_to(true, KeepModel::Bookmarked(a.bookmarks)), go_on()),
        Action::BookmarkCycleBack => (a.cycled_to(false, KeepModel::Bookmarked(a.bookmarks)), go_on()),
        Action::GapNext => (a.cycled_to(true, KeepModel::Untested), go_on()),
        Action::GapPrev => (a.cycled_to(false, KeepModel::Untested), go_on()),
        Action::SortCycle => (a.sort_cycled(), go_on()),
        Action::ToggleMinimap => (a.minimap_toggled(), go_on()),
        Action::ToggleDensity => (a.density_toggled(), go_on()),
        Action::ThemeCycle => (a.theme_cycled(), go_on()),
        Action::DiffOpen => (a.diff_opened(), go_on()),
    }
}

/// What an action does. Confirming the palette closes it and then does what
/// the highlighted command does.
pub open spec fn step(a: AppModel, action: Action) -> (AppModel, OutcomeModel) {
    if action == Action::SearchConfirm && a.mode is Palette {
        let p = a.mode->Palette_0;
        let closed = a.in_mode(ModeModel::Selection);
        if p.selected < offers(p.query).len() {
            acted(closed, offers(p.query)[p.selected as int].action)
        } else {
            (closed, go_on())
        }
    } else {
        acted(a, action)
    }
}

/// Does what an action does, the command palette aside.
fn act(app: &mut App, action: Action) -> (r: Outcome)
    requires
        old(app).parts(),
    ensures
        final(app).parts(),
        (final(app).deep_view(), r.deep_view()) == acted(old(app).deep_view(), action),
{
    proof {
        app.fields_in_view();
    }
    match action {
        Action::Quit => Outcome::quit(),
        Action::MoveDown | Action::MoveUp | Action::MoveLeft | Action::MoveRight => {
            if app.ui_state.focus() == Focus::RightPane {
                let dir = match action {
                    Action::MoveDown => Direction::Down,
                    Action::MoveUp => Direction::Up,
                    Action::MoveLeft => Direction::Left,
                    _ => Direction::Right,
                };
                app.move_lineage_cursor(dir);
            } else {
                app.reduce_ui(action);
            }
            Outcome::cont()
        },
        Action::JumpTop | Action::JumpBottom | Action::PageDown | Action::PageUp | Action::ToggleFocus
        | Action::ToggleListPane => {
            app.reduce_ui(action);
            Outcome::cont()
        },
        Action::LineageLeftmost => {
            app.move_lineage_cursor_extreme(false);
            Outcome::cont()
        },
        Action::LineageRightmost => {
            app.move_lineage_cursor_extreme(true);
            Outcome::cont()
        },
        Action::Recenter => {
            app.reset_lineage_cursor();
            Outcome::cont()
        },
        Action::HistoryBack => {
            app.history_back();
            Outcome::cont()
        },
        Action::HistoryForward => {
            app.history_forward();
            Outcome::cont()
        },
        Action::BookmarkCycle => {
            app.cycle_bookmarks(true);
            Outcome::cont()
        },
        Action::BookmarkCycleBack => {
            app.cycle_bookmarks(false);
            Outcome::cont()
        },
        Action::GapNext => {
            app.cycle_gaps(true);
            Outcome::cont()
        },
        Action::GapPrev => {
            app.cycle_gaps(false);
            Outcome::cont()
        },
        Action::HelpToggle => {
            app.toggle_help();
            Outcome::cont()
        },
        Action::DetailOpen => {
            app.open_detail();
            Outcome::cont()
        },
        Action::DetailClose => {
            app.set_mode(Mode::Selection);
            Outcome::cont()
        },
        Action::DetailScroll(dir) => {
            app.scroll_modal(dir, 1);
            Outcome::cont()
        },
        Action::DetailScrollPage(dir) => {
            app.scroll_modal(dir, 10);
            Outcome::cont()
        },
        Action::DetailScrollHome => {
            app.scroll_modal_to(0);
            Outcome::cont()
        },
        Action::DetailScrollEnd => {
            app.scroll_modal_to(usize::MAX);
            Outcome::cont()
        },
        Action::SqlOpen => {
            app.open_sql();
            Outcome::cont()
        },
        Action::StatsOpen => {
            let view = app.compute_stats_view();
            app.set_mode(Mode::Stats(view));
            Outcome::cont()
        },
        Action::DiffOpen => {
            app.open_diff();
            Outcome::cont()
        },
        Action::PaletteOpen => {
            app.set_mode(Mode::Palette(PaletteState::default()));
            Outcome::cont()
        },
        Action::SearchOpen => {
            app.open_search();
            Outcome::cont()
        },
        Action::SearchType(c) => {
            let mut query = app.query();
            query.push(c);
            app.set_query(query, Ghost(|q: Text| q.push(c)));
            Outcome::cont()
        },
        Action::SearchBackspace => {
            let query = without_last(app.query().as_str());
            app.set_query(query, Ghost(|q: Text| backspaced(q)));
            Outcome::cont()
        },
        Action::SearchMove(dir) => {
            app.move_search(dir);
            Outcome::cont()
        },
        Action::SearchCancel => {
            app.cancel_search();
            Outcome::cont()
        },
        Action::SearchConfirm => {
            app.confirm_search();
            Outcome::cont()
        },
        Action::OpenEditor => match app.selected_file_path() {
            Some(path) => Outcome::effect(Effect::OpenEditor(path)),
            None => Outcome::cont(),
        },
        Action::YankId => {
            let text = app.selected_unique_id();
            app.yank(text, "Copied unique_id")
        },
        Action::YankName => {
            let text = app.selected_name();
            app.yank(text, "Copied model name")
        },
        Action::YankMermaid => {
            let text = app.lineage_mermaid();
            app.yank(text, "Copied Mermaid lineage")
        },
        Action::YankDot => {
            let text = app.lineage_dot();
            app.yank(text, "Copied DOT lineage")
        },
        Action::YankAscii => {
            let text = app.lineage_ascii();
            app.yank(text, "Copied ASCII lineage")
        },
        Action::YankSql => {
            let text = app.selected_raw_sql();
            app.yank(text, "Copied raw SQL")
        },
        Action::YankImpact => {
            let text = app.impact_report();
            app.yank(text, "Copied impact report")
        },
        Action::ExportLineage => app.export_lineage(),
        Action::Reload => Outcome::effect(Effect::ReloadManifest),
        Action::DbtParse => Outcome::effect(Effect::DbtParse),
        Action::ToggleUpstream => {
            let v = app.lineage_view;
            app.set_view(LineageView { upstream: !v.upstream, downstream: v.downstream, depth: v.depth });
            Outcome::cont()
        },
        Action::ToggleDownstream => {
            let v = app.lineage_view;
            app.set_view(LineageView { upstream: v.upstream, downstream: !v.downstream, depth: v.depth });
            Outcome::cont()
        },
        Action::DepthDecrease => {
            app.less_depth();
            Outcome::cont()
        },
        Action::DepthIncrease => {
            app.more_depth();
            Outcome::cont()
        },
        Action::ResetView => {
            app.set_view(LineageView::default());
            Outcome::cont()
        },
        Action::CycleLens => {
            app.cycle_lens();
            Outcome::cont()
        },
        Action::BookmarkToggle => {
            app.toggle_bookmark();
            Outcome::cont()
        },
        Action::ToggleUntestedFilter => {
            app.toggle_filter(ListFilter::Untested);
            Outcome::cont()
        },
        Action::ToggleBookmarkFilter => {
            app.toggle_filter(ListFilter::Bookmarked);
            Outcome::cont()
        },
        Action::SortCycle => {
            app.cycle_sort();
            Outcome::cont()
        },
        Action::ToggleMinimap => {
            app.flip_minimap();
            Outcome::cont()
        },
        Action::ToggleDensity => {
            app.flip_density();
            Outcome::cont()
        },
        Action::ThemeCycle => {
            app.cycle_theme();
            Outcome::cont()
        },
    }
}

/// Applies an action. What only the event loop can do comes back as an effect.
/// The state stays well-formed.
pub fn apply_action(app: &mut App, action: Action) -> (r: Outcome)
    requires
        old(app).parts(),
    ensures
        final(app).parts(),
        old(app).wf() ==> final(app).wf(),
        (final(app).deep_view(), r.deep_view()) == step(old(app).deep_view(), action),
{
    proof {
        if coherent(app.deep_view()) {
            crate::laws::actions_keep_coherence(app.deep_view(), action);
        }
    }
    if action == Action::SearchConfirm {
        if let Some(chosen) = app.palette_choice() {
            app.set_mode(Mode::Selection);
            return match chosen {
                Some(a) => act(app, a),
                None => Outcome::cont(),
            };
        }
    }
    act(app, action)
}

} // verus!
