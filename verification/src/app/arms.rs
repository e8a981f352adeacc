//! What the actions do to the application, one by one.

use vstd::prelude::*;

use crate::action::{
    offers, palette_candidates, Action, DetailView, DetailViewModel, Direction, Mode, ModeModel, PaletteModel,
    SearchModel, SearchState, SearchTarget, SqlModel, SqlView,
};
use crate::dag::{at, blank_detail, NodeDetail, TestInfo};
use crate::effect::{Effect, EffectModel};
use crate::layout::{capped, plus, LineageLens};
use crate::model_list::{build_model_list, cycle_to, cycled, models_of, next_sort, Keep, KeepModel};
use crate::text::{chars_of, clone_opt, str_eq, string_of, Text};
use crate::ui::{next_lens, other_density, reduce_selection, reduced, with_selected, Focus, UiModel};
use super::analysis::{breakdown, diff_view_of};
use super::export::{file_name, safe_file_name};
use super::{go_on, go_on_with, App, AppModel, LineageView, ListFilter, Outcome, OutcomeModel};

verus! {

/// The scroll position of the open modal; none in a mode without one.
pub open spec fn scroll_of(m: ModeModel) -> Option<usize> {
    match m {
        ModeModel::Help { scroll } => Some(scroll),
        ModeModel::Detail(v) => Some(v.scroll),
        ModeModel::Sql(v) => Some(v.scroll),
        ModeModel::Stats(v) => Some(v.scroll),
        ModeModel::Diff(v) => Some(v.scroll),
        _ => None,
    }
}

/// The mode with its modal scrolled to `s`.
#[verifier::opaque]
pub open spec fn scrolled_to(m: ModeModel, s: usize) -> ModeModel {
    match m {
        ModeModel::Help { scroll } => ModeModel::Help { scroll: s },
        ModeModel::Detail(v) => ModeModel::Detail(DetailViewModel { scroll: s, ..v }),
        ModeModel::Sql(v) => ModeModel::Sql(SqlModel { scroll: s, ..v }),
        ModeModel::Stats(v) => ModeModel::Stats(crate::action::StatsViewModel { scroll: s, ..v }),
        ModeModel::Diff(v) => ModeModel::Diff(crate::action::DiffViewModel { scroll: s, ..v }),
        _ => m,
    }
}

/// The mode with its modal scrolled by some lines, down or up.
#[verifier::opaque]
pub open spec fn scrolled_by(m: ModeModel, dir: Direction, lines: usize) -> ModeModel {
    match scroll_of(m) {
        Some(s) => scrolled_to(
            m,
            if dir == Direction::Down {
                capped(s + lines)
            } else if s < lines {
                0
            } else {
                (s - lines) as usize
            },
        ),
        None => m,
    }
}

/// A text without its last character.
pub open spec fn backspaced(s: Text) -> Text {
    if s.len() == 0 {
        s
    } else {
        s.drop_last()
    }
}

/// What the preview shows where there is no SQL.
pub open spec fn no_sql_text(kind: Text) -> Text {
    "(no SQL for this "@ + kind + ")"@
}

impl AppModel {
    /// In another mode.
    pub open spec fn in_mode(self, m: ModeModel) -> AppModel {
        AppModel { mode: m, ..self }
    }

    /// With a text copied and the message for it; nothing where there is none.
    pub open spec fn yanked(self, text: Option<Text>, notice: Text) -> (AppModel, OutcomeModel) {
        match text {
            Some(t) => (self.noted(notice), go_on_with(EffectModel::Yank(t))),
            None => (self, go_on()),
        }
    }

    /// What the structure modal shows of a node.
    pub open spec fn detail_of(self, uid: Text) -> DetailViewModel {
        DetailViewModel {
            model_id: uid,
            name: self.name_of(uid),
            detail: if self.dag.details.contains_key(uid) {
                self.dag.details[uid]
            } else {
                blank_detail()
            },
            tests: at(self.dag.tests, uid),
            downstream_count: breakdown(self.dag, uid).0 as usize,
            upstream_count: breakdown(self.dag, uid).1 as usize,
            scroll: 0,
        }
    }

    /// After `Enter`: on a model other than the root, re-rooted to it; on any
    /// other node, its structure.
    #[verifier::opaque]
    pub open spec fn detail_opened(self) -> AppModel {
        match self.focus_id() {
            None => self,
            Some(uid) => if self.selected_id() != Some(uid) && self.dag.nodes.contains_key(uid) && self.dag.nodes[uid].resource_type
                == "model"@ {
                self.jumped(uid)
            } else {
                self.in_mode(ModeModel::Detail(self.detail_of(uid)))
            },
        }
    }

    /// What the SQL preview shows of a node.
    pub open spec fn sql_view_of(self, uid: Text) -> SqlModel {
        let kind = if self.dag.nodes.contains_key(uid) {
            self.dag.nodes[uid].resource_type
        } else {
            "node"@
        };
        SqlModel {
            model_id: uid,
            name: self.name_of(uid),
            sql: if self.dag.sql.contains_key(uid) {
                self.dag.sql[uid]
            } else {
                no_sql_text(kind)
            },
            path: if self.dag.details.contains_key(uid) {
                self.dag.details[uid].original_file_path
            } else {
                None
            },
            scroll: 0,
        }
    }

    /// With the SQL preview open on the node that has the focus.
    #[verifier::opaque]
    pub open spec fn sql_opened(self) -> AppModel {
        match self.focus_id() {
            Some(uid) => self.in_mode(ModeModel::Sql(self.sql_view_of(uid))),
            None => self,
        }
    }

    /// With a search open on the pane that has the focus.
    #[verifier::opaque]
    pub open spec fn search_opened(self) -> AppModel {
        self.in_mode(
            ModeModel::Search(
                SearchModel {
                    target: if self.ui.focus == Focus::List {
                        SearchTarget::List
                    } else {
                        SearchTarget::Lineage
                    },
                    query: Seq::empty(),
                    origin_uid: self.selected_id(),
                    match_idx: 0,
                },
            ),
        ).refiltered()
    }

    /// With another query in the open search or palette, from the top again.
    #[verifier::opaque]
    pub open spec fn with_query(self, edit: spec_fn(Text) -> Text) -> AppModel {
        match self.mode {
            ModeModel::Search(s) => self.in_mode(
                ModeModel::Search(SearchModel { query: edit(s.query), match_idx: 0, ..s }),
            ).refiltered(),
            ModeModel::Palette(p) => self.in_mode(
                ModeModel::Palette(PaletteModel { query: edit(p.query), selected: 0 }),
            ),
            _ => self,
        }
    }

    /// The next candidate of the palette, the next row of a list search, or the
    /// next match of a lineage search.
    #[verifier::opaque]
    pub open spec fn search_moved(self, dir: Direction) -> AppModel {
        match self.mode {
            ModeModel::Palette(p) => {
                let n = offers(p.query).len();
                if n == 0 {
                    self
                } else {
                    let next = match dir {
                        Direction::Down => if p.selected + 1 < n {
                            (p.selected + 1) as usize
                        } else {
                            (n - 1) as usize
                        },
                        Direction::Up => if p.selected == 0 {
                            0
                        } else {
                            (p.selected - 1) as usize
                        },
                        _ => p.selected,
                    };
                    self.in_mode(ModeModel::Palette(PaletteModel { selected: next, ..p }))
                }
            },
            ModeModel::Search(s) => match s.target {
                SearchTarget::List => match dir {
                    Direction::Down => AppModel { ui: reduced(self.ui, Action::MoveDown), ..self },
                    Direction::Up => AppModel { ui: reduced(self.ui, Action::MoveUp), ..self },
                    _ => self,
                },
                SearchTarget::Lineage => {
                    let n = self.matches_of(s.query).len() as int;
                    if n == 0 {
                        self
                    } else {
                        let next = match dir {
                            Direction::Down => ((s.match_idx + 1) % n) as usize,
                            Direction::Up => ((s.match_idx + n - 1) % n) as usize,
                            _ => s.match_idx,
                        };
                        self.in_mode(ModeModel::Search(SearchModel { match_idx: next, ..s }))
                    }
                },
            },
            _ => self,
        }
    }

    /// After the palette or a search was given up: back to where it began.
    #[verifier::opaque]
    pub open spec fn search_cancelled(self) -> AppModel {
        match self.mode {
            ModeModel::Palette(_) => self.in_mode(ModeModel::Selection),
            ModeModel::Search(s) => self.search_closed(s.origin_uid),
            _ => self.search_closed(None),
        }
    }

    /// After a search was confirmed: on the match of a lineage search, or on
    /// the selected row of a list search.
    #[verifier::opaque]
    pub open spec fn search_confirmed(self) -> AppModel {
        match self.mode {
            ModeModel::Search(s) => match s.target {
                SearchTarget::Lineage => {
                    let a = self.in_mode(ModeModel::Selection);
                    match self.current_match() {
                        Some(uid) => a.jumped(uid),
                        None => a,
                    }
                },
                SearchTarget::List => self.search_closed(self.selected_id()),
            },
            _ => self.search_closed(self.selected_id()),
        }
    }

    /// After an export of the diagram.
    #[verifier::opaque]
    pub open spec fn exported(self) -> (AppModel, OutcomeModel) {
        match (self.selected(), self.ascii()) {
            (Some(n), Some(contents)) => {
                let path = file_name(n.name) + "_lineage.txt"@;
                (
                    self.noted("Exported "@ + path),
                    go_on_with(EffectModel::WriteFile { path, contents }),
                )
            },
            _ => (self, go_on()),
        }
    }

    /// With the bookmark of the selected model set or taken away.
    #[verifier::opaque]
    pub open spec fn bookmark_toggled(self) -> AppModel {
        match self.selected_id() {
            None => self,
            Some(uid) => {
                let name = self.name_of(uid);
                let a = if self.bookmarks.contains(uid) {
                    AppModel { bookmarks: self.bookmarks.remove(uid), ..self }.noted("Removed bookmark: "@ + name)
                } else {
                    AppModel { bookmarks: self.bookmarks.insert(uid), ..self }.noted("Bookmarked: "@ + name)
                };
                if self.list_filter == ListFilter::Bookmarked {
                    a.list_filter_applied()
                } else {
                    a
                }
            },
        }
    }

    /// With a list filter on, or off where it was on.
    #[verifier::opaque]
    pub open spec fn filter_toggled(self, target: ListFilter) -> AppModel {
        AppModel {
            list_filter: if self.list_filter == target {
                ListFilter::All
            } else {
                target
            },
            ..self
        }.list_filter_applied()
    }

    /// With the selection on the next model that `keep` keeps.
    #[verifier::opaque]
    pub open spec fn cycled_to(self, forward: bool, keep: KeepModel) -> AppModel {
        match cycled(self.active(), self.ui.selected as int, forward, keep, 1) {
            Some(i) => AppModel { ui: with_selected(self.ui, capped(i)), ..self },
            None => self,
        }
    }

    /// With the list in the next order and the selection on the same model.
    #[verifier::opaque]
    pub open spec fn sort_cycled(self) -> AppModel {
        let sort = next_sort(self.sort);
        let a = AppModel { sort, model_list: models_of(self.dag, sort), ..self }.list_filter_applied();
        match self.selected_id() {
            Some(uid) => a.select(uid),
            None => a,
        }
    }

    /// With the next lens; the diff lens only where there is a baseline.
    #[verifier::opaque]
    pub open spec fn lens_cycled(self) -> AppModel {
        let next = next_lens(self.ui.lens);
        let lens = if next == LineageLens::Diff && self.diff is None {
            next_lens(next)
        } else {
            next
        };
        AppModel { ui: UiModel { lens, ..self.ui }, ..self }
    }

    /// With the upstream side shown or hidden.
    pub open spec fn upstream_toggled(self) -> AppModel {
        AppModel { view: LineageView { upstream: !self.view.upstream, ..self.view }, ..self }
    }

    /// With the downstream side shown or hidden.
    pub open spec fn downstream_toggled(self) -> AppModel {
        AppModel { view: LineageView { downstream: !self.view.downstream, ..self.view }, ..self }
    }

    /// With the minimap shown or hidden.
    pub open spec fn minimap_toggled(self) -> AppModel {
        AppModel { ui: UiModel { minimap: !self.ui.minimap, ..self.ui }, ..self }
    }

    /// With the other density.
    pub open spec fn density_toggled(self) -> AppModel {
        AppModel { ui: UiModel { density: other_density(self.ui.density), ..self.ui }, ..self }
    }

    /// With the panes after an action.
    pub open spec fn ui_reduced(self, action: Action) -> AppModel {
        AppModel { ui: reduced(self.ui, action), ..self }
    }

    /// With the cursor at home.
    pub open spec fn cursor_home(self) -> AppModel {
        AppModel { cursor: None, ..self }
    }

    /// With the whole lineage shown.
    pub open spec fn view_reset(self) -> AppModel {
        AppModel { view: super::full_view(), ..self }
    }

    /// With the help opened, or closed where it was open.
    pub open spec fn help_toggled(self) -> AppModel {
        self.in_mode(
            if self.mode is Help {
                ModeModel::Selection
            } else {
                ModeModel::Help { scroll: 0 }
            },
        )
    }

    /// With another depth limit: fewer hops, at least one, starting at three.
    pub open spec fn shallower(self) -> AppModel {
        let depth = match self.view.depth {
            None => Some(3),
            Some(n) => Some(if n <= 2 { 1 } else { (n - 1) as usize }),
        };
        AppModel { view: LineageView { depth, ..self.view }, ..self }
    }

    /// With another depth limit: more hops, beyond eight without limit.
    pub open spec fn deeper(self) -> AppModel {
        let depth = match self.view.depth {
            None => None,
            Some(n) => if n >= 8 {
                None
            } else {
                Some((n + 1) as usize)
            },
        };
        AppModel { view: LineageView { depth, ..self.view }, ..self }
    }

    /// With the summary of the difference open; without a baseline, with a
    /// message on how to load one.
    #[verifier::opaque]
    pub open spec fn diff_opened(self) -> AppModel {
        match diff_view_of(self) {
            Some(v) => self.in_mode(ModeModel::Diff(v)),
            None => self.noted("No baseline loaded (start with --diff)"@),
        }
    }
}

/// A text without its last character.
pub(crate) fn without_last(s: &str) -> (r: String)
    ensures
        r@ == backspaced(s@),
{
    let cs = chars_of(s);
    if cs.len() == 0 {
        return s.to_owned();
    }
    let r = string_of(&cs, 0, cs.len() - 1);
    assert(r@ =~= s@.drop_last());
    r
}

/// The scroll position of the open modal.
fn modal_scroll(mode: &Mode) -> (r: Option<usize>)
    ensures
        r == scroll_of(mode.deep_view()),
{
    match mode {
        Mode::Help { scroll } => Some(*scroll),
        Mode::Detail(v) => Some(v.scroll),
        Mode::Sql(v) => Some(v.scroll),
        Mode::Stats(v) => Some(v.scroll),
        Mode::Diff(v) => Some(v.scroll),
        _ => None,
    }
}

/// Scrolls the open modal.
fn set_modal_scroll(mode: &mut Mode, s: usize)
    ensures
        final(mode).deep_view() == scrolled_to(old(mode).deep_view(), s),
{
    proof {
        reveal(scrolled_to);
    }
    match mode {
        Mode::Help { scroll } => {
            *scroll = s;
        },
        Mode::Detail(v) => {
            v.scroll = s;
        },
        Mode::Sql(v) => {
            v.scroll = s;
        },
        Mode::Stats(v) => {
            v.scroll = s;
        },
        Mode::Diff(v) => {
            v.scroll = s;
        },
        _ => {},
    }
}

impl App {
    /// Copies a text and says so; nothing where there is none.
    pub(crate) fn yank(&mut self, text: Option<String>, notice: &str) -> (r: Outcome)
        requires
            old(self).parts(),
        ensures
            final(self).parts(),
            (final(self).deep_view(), r.deep_view()) == old(self).deep_view().yanked(text.deep_view(), notice@),
    {
        match text {
            Some(t) => {
                self.set_notice(notice.to_owned());
                Outcome::effect(Effect::Yank(t))
            },
            None => Outcome::cont(),
        }
    }

    pub(crate) fn set_mode(&mut self, mode: Mode)
        requires
            old(self).parts(),
        ensures
            final(self).parts(),
            final(self).deep_view() == old(self).deep_view().in_mode(mode.deep_view()),
    {
        self.mode = mode;
    }

    pub(crate) fn scroll_modal(&mut self, dir: Direction, lines: usize)
        requires
            old(self).parts(),
        ensures
            final(self).parts(),
            final(self).deep_view() == old(self).deep_view().in_mode(scrolled_by(old(self).deep_view().mode, dir, lines)),
    {
        proof {
            reveal(scrolled_by);
        }
        if let Some(s) = modal_scroll(&self.mode) {
            let to = if dir == Direction::Down {
                plus(s, lines)
            } else if s < lines {
                0
            } else {
                s - lines
            };
            set_modal_scroll(&mut self.mode, to);
        }
    }

    pub(crate) fn open_detail(&mut self)
        requires
            old(self).parts(),
        ensures
            final(self).parts(),
            final(self).deep_view() == old(self).deep_view().detail_opened(),
    {
        proof {
            reveal(AppModel::detail_opened);
        }
        let uid = match self.focus_target() {
            Some(u) => u,
            None => {
                return;
            },
        };
        let at_root = match self.selected_unique_id() {
            Some(s) => str_eq(s.as_str(), uid.as_str()),
            None => false,
        };
        let model = match self.dag.get(uid.as_str()) {
            Some(n) => str_eq(n.resource_type.as_str(), "model"),
            None => false,
        };
        if !at_root && model {
            self.jump_to(uid.as_str());
            return;
        }
        let name = self.node_name_or_uid(uid.as_str());
        let detail = match self.dag.detail(uid.as_str()) {
            Some(d) => d.clone(),
            None => NodeDetail::default(),
        };
        let recorded = self.dag.tests(uid.as_str());
        let mut tests: Vec<TestInfo> = Vec::new();
        let mut i: usize = 0;
        while i < recorded.len()
            invariant
                i <= recorded@.len(),
                tests@.len() == i,
                forall|j: int| 0 <= j < i ==> (#[trigger] tests@[j]).deep_view() == recorded@[j].deep_view(),
            decreases recorded@.len() - i,
        {
            tests.push(recorded[i].clone());
            i = i + 1;
        }
        assert(tests.deep_view() =~= recorded.deep_view());
        let (downstream_count, upstream_count) = self.impact_counts_for(uid.as_str());
        self.set_mode(
            Mode::Detail(
                DetailView { model_id: uid, name, detail, tests, downstream_count, upstream_count, scroll: 0 },
            ),
        );
    }

    pub(crate) fn open_sql(&mut self)
        requires
            old(self).parts(),
        ensures
            final(self).parts(),
            final(self).deep_view() == old(self).deep_view().sql_opened(),
    {
        proof {
            reveal(AppModel::sql_opened);
        }
        let uid = match self.focus_target() {
            Some(u) => u,
            None => {
                return;
            },
        };
        let name = self.node_name_or_uid(uid.as_str());
        let sql = match self.dag.raw_code(uid.as_str()) {
            Some(code) => code.to_owned(),
            None => {
                let mut text = "(no SQL for this ".to_owned();
                match self.dag.get(uid.as_str()) {
                    Some(n) => text.append(n.resource_type.as_str()),
                    None => text.append("node"),
                }
                text.append(")");
                text
            },
        };
        let path = match self.dag.detail(uid.as_str()) {
            Some(d) => clone_opt(&d.original_file_path),
            None => None,
        };
        self.set_mode(Mode::Sql(SqlView { model_id: uid, name, sql, path, scroll: 0 }));
    }

    pub(crate) fn open_search(&mut self)
        requires
            old(self).parts(),
        ensures
            final(self).parts(),
            final(self).deep_view() == old(self).deep_view().search_opened(),
    {
        proof {
            reveal(AppModel::search_opened);
        }
        let target = if self.ui_state.focus() == Focus::List {
            SearchTarget::List
        } else {
            SearchTarget::Lineage
        };
        let origin_uid = self.selected_unique_id();
        self.set_mode(Mode::Search(SearchState { target, query: String::new(), origin_uid, match_idx: 0 }));
        self.refilter();
    }

    /// Puts another query into the open search or palette.
    pub(crate) fn set_query(&mut self, query: String, edit: Ghost<spec_fn(Text) -> Text>)
        requires
            old(self).parts(),
            match old(self).deep_view().mode {
                ModeModel::Search(s) => query@ == edit@(s.query),
                ModeModel::Palette(p) => query@ == edit@(p.query),
                _ => true,
            },
        ensures
            final(self).parts(),
            final(self).deep_view() == old(self).deep_view().with_query(edit@),
    {
        proof {
            reveal(AppModel::with_query);
        }
        let mut searching = false;
        match &mut self.mode {
            Mode::Search(s) => {
                s.query = query;
                s.match_idx = 0;
                searching = true;
            },
            Mode::Palette(p) => {
                p.query = query;
                p.selected = 0;
            },
            _ => {},
        }
        if searching {
            self.refilter();
        }
    }

    /// The query of the open search or palette; empty without one.
    pub(crate) fn query(&self) -> (r: String)
        ensures
            match self.deep_view().mode {
                ModeModel::Search(s) => r@ == s.query,
                ModeModel::Palette(p) => r@ == p.query,
                _ => true,
            },
    {
        match &self.mode {
            Mode::Search(s) => s.query.clone(),
            Mode::Palette(p) => p.query.clone(),
            _ => String::new(),
        }
    }

    pub(crate) fn move_search(&mut self, dir: Direction)
        requires
            old(self).parts(),
        ensures
            final(self).parts(),
            final(self).deep_view() == old(self).deep_view().search_moved(dir),
    {
        proof {
            reveal(AppModel::search_moved);
        }
        let ghost a = self.deep_view();
        let mut palette: Option<usize> = None;
        let mut list = false;
        let mut matches: Option<usize> = None;
        match &self.mode {
            Mode::Palette(p) => {
                palette = Some(palette_candidates(p.query.as_str()).len());
            },
            Mode::Search(s) => match s.target {
                SearchTarget::List => {
                    list = true;
                },
                SearchTarget::Lineage => {
                    matches = Some(self.lineage_matches(s.query.as_str()).len());
                },
            },
            _ => {},
        }
        if let Some(n) = palette {
            if n > 0 {
                if let Mode::Palette(p) = &mut self.mode {
                    p.selected = match dir {
                        Direction::Down => if p.selected < n - 1 {
                            p.selected + 1
                        } else {
                            n - 1
                        },
                        Direction::Up => if p.selected == 0 {
                            0
                        } else {
                            p.selected - 1
                        },
                        _ => p.selected,
                    };
                }
            }
        }
        if list {
            match dir {
                Direction::Down => reduce_selection(&mut self.ui_state, Action::MoveDown),
                Direction::Up => reduce_selection(&mut self.ui_state, Action::MoveUp),
                _ => {},
            }
        }
        if let Some(n) = matches {
            if n > 0 {
                if let Mode::Search(s) = &mut self.mode {
                    let idx: usize = s.match_idx;
                    let next: usize = match dir {
                        Direction::Down => next_match(idx, n),
                        Direction::Up => previous_match(idx, n),
                        _ => idx,
                    };
                    s.match_idx = next;
                }
            }
        }
    }

    pub(crate) fn cancel_search(&mut self)
        requires
            old(self).parts(),
        ensures
            final(self).parts(),
            final(self).deep_view() == old(self).deep_view().search_cancelled(),
    {
        proof {
            reveal(AppModel::search_cancelled);
        }
        let mut palette = false;
        let mut origin: Option<String> = None;
        match &self.mode {
            Mode::Palette(_) => {
                palette = true;
            },
            Mode::Search(s) => {
                origin = clone_opt(&s.origin_uid);
            },
            _ => {},
        }
        if palette {
            self.set_mode(Mode::Selection);
        } else {
            self.close_search(origin);
        }
    }

    pub(crate) fn confirm_search(&mut self)
        requires
            old(self).parts(),
        ensures
            final(self).parts(),
            final(self).deep_view() == old(self).deep_view().search_confirmed(),
    {
        proof {
            reveal(AppModel::search_confirmed);
        }
        let lineage = match &self.mode {
            Mode::Search(s) => s.target == SearchTarget::Lineage,
            _ => false,
        };
        if lineage {
            let hit = self.current_lineage_match();
            self.set_mode(Mode::Selection);
            if let Some(uid) = hit {
                self.jump_to(uid.as_str());
            }
        } else {
            let chosen = self.selected_unique_id();
            self.close_search(chosen);
        }
    }

    pub(crate) fn export_lineage(&mut self) -> (r: Outcome)
        requires
            old(self).parts(),
        ensures
            final(self).parts(),
            (final(self).deep_view(), r.deep_view()) == old(self).deep_view().exported(),
    {
        proof {
            reveal(AppModel::exported);
        }
        match (self.selected_name(), self.lineage_ascii()) {
            (Some(name), Some(contents)) => {
                let mut path = safe_file_name(name.as_str());
                path.append("_lineage.txt");
                let mut text = "Exported ".to_owned();
                text.append(path.as_str());
                self.set_notice(text);
                Outcome::effect(Effect::WriteFile { path, contents })
            },
            _ => Outcome::cont(),
        }
    }

    pub(crate) fn toggle_bookmark(&mut self)
        requires
            old(self).parts(),
        ensures
            final(self).parts(),
            final(self).deep_view() == old(self).deep_view().bookmark_toggled(),
    {
        proof {
            reveal(AppModel::bookmark_toggled);
        }
        let ghost marks = self.bookmarks@;
        if let Some(uid) = self.selected_unique_id() {
            let name = self.node_name_or_uid(uid.as_str());
            let id = uid.clone();
            if self.bookmarks.insert(uid) {
                let mut text = "Bookmarked: ".to_owned();
                text.append(name.as_str());
                self.set_notice(text);
            } else {
                self.bookmarks.remove(id.as_str());
                assert(self.bookmarks@ =~= marks.remove(id@));
                let mut text = "Removed bookmark: ".to_owned();
                text.append(name.as_str());
                self.set_notice(text);
            }
            if self.list_filter == ListFilter::Bookmarked {
                self.apply_list_filter();
            }
        }
    }

    pub(crate) fn toggle_filter(&mut self, target: ListFilter)
        requires
            old(self).parts(),
        ensures
            final(self).parts(),
            final(self).deep_view() == old(self).deep_view().filter_toggled(target),
    {
        proof {
            reveal(AppModel::filter_toggled);
        }
        self.list_filter = if self.list_filter == target {
            ListFilter::All
        } else {
            target
        };
        self.apply_list_filter();
    }

    pub(crate) fn cycle_bookmarks(&mut self, forward: bool)
        requires
            old(self).parts(),
        ensures
            final(self).parts(),
            final(self).deep_view() == old(self).deep_view().cycled_to(
                forward,
                KeepModel::Bookmarked(old(self).deep_view().bookmarks),
            ),
    {
        proof {
            reveal(AppModel::cycled_to);
        }
        let target = {
            let keep = Keep::Bookmarked(&self.bookmarks);
            cycle_to(self.active_list(), self.ui_state.selected(), forward, &keep)
        };
        if let Some(i) = target {
            self.ui_state.set_selected(i);
        }
    }

    pub(crate) fn cycle_gaps(&mut self, forward: bool)
        requires
            old(self).parts(),
        ensures
            final(self).parts(),
            final(self).deep_view() == old(self).deep_view().cycled_to(forward, KeepModel::Untested),
    {
        proof {
            reveal(AppModel::cycled_to);
        }
        let keep = Keep::Untested;
        let target = cycle_to(self.active_list(), self.ui_state.selected(), forward, &keep);
        if let Some(i) = target {
            self.ui_state.set_selected(i);
        }
    }

    pub(crate) fn cycle_sort(&mut self)
        requires
            old(self).parts(),
        ensures
            final(self).parts(),
            final(self).deep_view() == old(self).deep_view().sort_cycled(),
    {
        proof {
            reveal(AppModel::sort_cycled);
        }
        let current = self.selected_unique_id();
        self.sort = self.sort.next();
        self.model_list = build_model_list(&self.dag, self.sort);
        self.apply_list_filter();
        if let Some(uid) = current {
            self.select_by_unique_id(uid.as_str());
        }
    }

    pub(crate) fn cycle_lens(&mut self)
        requires
            old(self).parts(),
        ensures
            final(self).parts(),
            final(self).deep_view() == old(self).deep_view().lens_cycled(),
    {
        proof {
            reveal(AppModel::lens_cycled);
        }
        self.ui_state.cycle_lens();
        if self.ui_state.lens() == LineageLens::Diff && self.diff.is_none() {
            self.ui_state.cycle_lens();
        }
    }

    /// The command that the open palette highlights; `None` without a palette,
    /// `Some(None)` where nothing is highlighted.
    pub(crate) fn palette_choice(&self) -> (r: Option<Option<Action>>)
        ensures
            match self.deep_view().mode {
                ModeModel::Palette(p) => r == Some(
                    if p.selected < offers(p.query).len() {
                        Some(offers(p.query)[p.selected as int].action)
                    } else {
                        None
                    },
                ),
                _ => r is None,
            },
    {
        match &self.mode {
            Mode::Palette(p) => {
                let candidates = palette_candidates(p.query.as_str());
                let ghost cs = candidates.deep_view();
                if p.selected < candidates.len() {
                    assert(cs[p.selected as int] == candidates@[p.selected as int].deep_view());
                    Some(Some(candidates[p.selected].action))
                } else {
                    Some(None)
                }
            },
            _ => None,
        }
    }

    pub(crate) fn toggle_help(&mut self)
        requires
            old(self).parts(),
        ensures
            final(self).parts(),
            final(self).deep_view() == old(self).deep_view().help_toggled(),
    {
        let open = match &self.mode {
            Mode::Help { .. } => true,
            _ => false,
        };
        if open {
            self.mode = Mode::Selection;
        } else {
            self.mode = Mode::Help { scroll: 0 };
        }
    }

    pub(crate) fn set_view(&mut self, view: LineageView)
        requires
            old(self).parts(),
        ensures
            final(self).parts(),
            final(self).deep_view() == (AppModel { view, ..old(self).deep_view() }),
    {
        self.lineage_view = view;
    }

    pub(crate) fn less_depth(&mut self)
        requires
            old(self).parts(),
        ensures
            final(self).parts(),
            final(self).deep_view() == old(self).deep_view().shallower(),
    {
        let v = self.lineage_view;
        let depth = match v.depth {
            None => Some(3),
            Some(n) => Some(
                if n <= 2 {
                    1
                } else {
                    n - 1
                },
            ),
        };
        self.set_view(LineageView { upstream: v.upstream, downstream: v.downstream, depth });
    }

    pub(crate) fn more_depth(&mut self)
        requires
            old(self).parts(),
        ensures
            final(self).parts(),
            final(self).deep_view() == old(self).deep_view().deeper(),
    {
        let v = self.lineage_view;
        let depth = match v.depth {
            None => None,
            Some(n) => if n >= 8 {
                None
            } else {
                Some(n + 1)
            },
        };
        self.set_view(LineageView { upstream: v.upstream, downstream: v.downstream, depth });
    }

    pub(crate) fn flip_minimap(&mut self)
        requires
            old(self).parts(),
        ensures
            final(self).parts(),
            final(self).deep_view() == old(self).deep_view().minimap_toggled(),
    {
        self.ui_state.toggle_minimap();
    }

    pub(crate) fn flip_density(&mut self)
        requires
            old(self).parts(),
        ensures
            final(self).parts(),
            final(self).deep_view() == old(self).deep_view().density_toggled(),
    {
        self.ui_state.toggle_density();
    }

    pub(crate) fn reduce_ui(&mut self, action: Action)
        requires
            old(self).parts(),
        ensures
            final(self).parts(),
            final(self).deep_view() == old(self).deep_view().ui_reduced(action),
    {
        reduce_selection(&mut self.ui_state, action);
    }

    pub(crate) fn scroll_modal_to(&mut self, s: usize)
        requires
            old(self).parts(),
        ensures
            final(self).parts(),
            final(self).deep_view() == old(self).deep_view().in_mode(scrolled_to(old(self).deep_view().mode, s)),
    {
        proof {
            reveal(scrolled_to);
        }
        set_modal_scroll(&mut self.mode, s);
    }

    pub(crate) fn open_diff(&mut self)
        requires
            old(self).parts(),
        ensures
            final(self).parts(),
            final(self).deep_view() == old(self).deep_view().diff_opened(),
    {
        proof {
            reveal(AppModel::diff_opened);
        }
        match self.compute_diff_view() {
            Some(v) => self.set_mode(Mode::Diff(v)),
            None => self.set_notice("No baseline loaded (start with --diff)".to_owned()),
        }
    }
}

/// The match after `idx` of `n`, around.
fn next_match(idx: usize, n: usize) -> (r: usize)
    requires
        n > 0,
    ensures
        r == (idx + 1) % n as int,
{
    let i: usize = idx % n;
    proof {
        vstd::arithmetic::div_mod::lemma_add_mod_noop(idx as int, 1, n as int);
        vstd::arithmetic::div_mod::lemma_add_mod_noop(i as int, 1, n as int);
        vstd::arithmetic::div_mod::lemma_mod_twice(idx as int, n as int);
    }
    if i < n - 1 {
        assert((i + 1) % (n as int) == i + 1) by (nonlinear_arith)
            requires
                0 <= i + 1 < n,
        ;
        i + 1
    } else {
        proof {
            vstd::arithmetic::div_mod::lemma_mod_self_0(n as int);
        }
        0
    }
}

/// The match before `idx` of `n`, around.
fn previous_match(idx: usize, n: usize) -> (r: usize)
    requires
        n > 0,
    ensures
        r == (idx + n - 1) % n as int,
{
    let i: usize = idx % n;
    proof {
        vstd::arithmetic::div_mod::lemma_add_mod_noop(idx as int, n - 1, n as int);
        vstd::arithmetic::div_mod::lemma_add_mod_noop(i as int, n - 1, n as int);
        vstd::arithmetic::div_mod::lemma_mod_twice(idx as int, n as int);
    }
    if i == 0 {
        assert((n - 1) % (n as int) == n - 1) by (nonlinear_arith)
            requires
                0 <= n - 1 < n,
        ;
        n - 1
    } else {
        assert((i + n - 1) % (n as int) == i - 1) by (nonlinear_arith)
            requires
                n <= i + n - 1 < 2 * n,
        ;
        i - 1
    }
}

} // verus!
