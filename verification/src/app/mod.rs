//! The application: the graph, the lists over it and the panes in one owner.
//!
//! The state changes only through the methods here and through
//! [`apply_action`](crate::reducer::apply_action). What they do is stated over
//! [`AppModel`], a value for each state of the application. Side effects are
//! never performed: they come back as data.

use vstd::prelude::*;

use crate::action::{Mode, ModeModel, SearchModel, SearchTarget};
use crate::dag::{at, project_of, Dag, DagModel, NodeInfo, NodeModel};
use crate::diff::{compute_diff, diff_of, no_difference, DagDiff, DiffModel};
use crate::effect::{Effect, EffectModel};
use crate::layout::{capped, GlyphMode};
use crate::model_list::{
    build_filtered_model_list, build_model_list, filter_model_list, models_of, subsequence, Keep, KeepModel, ModelList,
    SortMode,
};
use crate::paths::{derive_project_root, is_below, join_path, joined_path, root_of, stays_below};
use crate::sorted::{listing, StrSet};
use crate::text::{clone_opt, decimal, push_decimal, str_eq, Text};
use crate::ui::{
    fresh_ui, preset_themes, presets, with_count, with_selected, Theme, ThemeModel, UiModel, UiState,
};

pub mod analysis;
pub mod arms;
pub mod export;
pub mod impact;
pub mod lineage;
pub mod report;
pub mod styles;

verus! {

/// What the event loop does after an action: run the effects, and go on or quit.
#[derive(Debug, PartialEq, Eq)]
pub struct Outcome {
    pub quit: bool,
    pub effects: Vec<Effect>,
}

/// Model of [`Outcome`].
pub struct OutcomeModel {
    pub quit: bool,
    pub effects: Seq<EffectModel>,
}

impl DeepView for Outcome {
    type V = OutcomeModel;

    open spec fn deep_view(&self) -> OutcomeModel {
        OutcomeModel { quit: self.quit, effects: self.effects.deep_view() }
    }
}

/// Go on, without effects.
pub open spec fn go_on() -> OutcomeModel {
    OutcomeModel { quit: false, effects: Seq::empty() }
}

/// Go on after one effect.
pub open spec fn go_on_with(e: EffectModel) -> OutcomeModel {
    OutcomeModel { quit: false, effects: seq![e] }
}

impl Outcome {
    /// Go on, without effects.
    pub fn cont() -> (r: Outcome)
        ensures
            r.deep_view() == go_on(),
    {
        let r = Outcome { quit: false, effects: Vec::new() };
        assert(r.effects.deep_view() =~= Seq::empty());
        r
    }

    /// Quit.
    pub fn quit() -> (r: Outcome)
        ensures
            r.deep_view() == (OutcomeModel { quit: true, effects: Seq::empty() }),
    {
        let r = Outcome { quit: true, effects: Vec::new() };
        assert(r.effects.deep_view() =~= Seq::empty());
        r
    }

    /// Go on after one effect.
    pub fn effect(e: Effect) -> (r: Outcome)
        ensures
            r.deep_view() == go_on_with(e.deep_view()),
    {
        let ghost ev = e.deep_view();
        let mut effects: Vec<Effect> = Vec::new();
        effects.push(e);
        assert(effects.deep_view() =~= seq![ev]);
        Outcome { quit: false, effects }
    }
}

/// Which sides of the lineage are shown, and how many hops deep.
#[derive(Debug, Clone, Copy, PartialEq, Eq, Structural)]
pub struct LineageView {
    pub upstream: bool,
    pub downstream: bool,
    pub depth: Option<usize>,
}

/// Both sides, without limit.
pub open spec fn full_view() -> LineageView {
    LineageView { upstream: true, downstream: true, depth: None }
}

impl Default for LineageView {
    fn default() -> (r: LineageView)
        ensures
            r == full_view(),
    {
        LineageView { upstream: true, downstream: true, depth: None }
    }
}

/// The persistent filter of the list.
#[derive(Debug, Clone, Copy, PartialEq, Eq, Structural)]
pub enum ListFilter {
    All,
    Untested,
    Bookmarked,
}

impl Default for ListFilter {
    fn default() -> (r: ListFilter)
        ensures
            r == ListFilter::All,
    {
        ListFilter::All
    }
}

/// The project's name and resource counts, for the title bar.
#[derive(Debug, PartialEq, Eq)]
pub struct AppStats {
    pub project: String,
    pub models: usize,
    pub sources: usize,
    pub seeds: usize,
    pub snapshots: usize,
    pub exposures: usize,
}

/// Model of [`AppStats`].
pub struct AppStatsModel {
    pub project: Text,
    pub models: nat,
    pub sources: nat,
    pub seeds: nat,
    pub snapshots: nat,
    pub exposures: nat,
}

impl DeepView for AppStats {
    type V = AppStatsModel;

    open spec fn deep_view(&self) -> AppStatsModel {
        AppStatsModel {
            project: self.project@,
            models: self.models as nat,
            sources: self.sources as nat,
            seeds: self.seeds as nat,
            snapshots: self.snapshots as nat,
            exposures: self.exposures as nat,
        }
    }
}

/// Where the graph was loaded from.
#[derive(Debug, PartialEq, Eq)]
pub enum DataSource {
    /// A compiled manifest at this path.
    Manifest(String),
    /// A project directory, parsed from source.
    Project(String),
}

/// Model of [`DataSource`].
pub enum SourceModel {
    Manifest(Text),
    Project(Text),
}

impl DeepView for DataSource {
    type V = SourceModel;

    open spec fn deep_view(&self) -> SourceModel {
        match self {
            DataSource::Manifest(p) => SourceModel::Manifest(p@),
            DataSource::Project(p) => SourceModel::Project(p@),
        }
    }
}

/// Why a graph could not be loaded.
#[derive(Debug, PartialEq, Eq)]
pub struct LoadError {
    pub message: String,
}

/// The whole application state.
pub struct App {
    pub dag: Dag,
    /// Every model, in list order.
    pub model_list: ModelList,
    /// What a list search leaves of the base list, while one is open.
    pub filter: Option<ModelList>,
    pub list_filter: ListFilter,
    pub(crate) filtered_base: Option<ModelList>,
    pub sort: SortMode,
    pub bookmarks: StrSet,
    pub ui_state: UiState,
    pub mode: Mode,
    pub stats: AppStats,
    pub lineage_view: LineageView,
    pub glyph_mode: GlyphMode,
    /// The node under the lineage cursor; the root where there is none.
    pub lineage_cursor: Option<String>,
    pub(crate) notice: Option<String>,
    /// The earlier roots, the latest last.
    pub back: Vec<String>,
    pub(crate) forward: Vec<String>,
    pub(crate) source: DataSource,
    pub(crate) project_root: String,
    pub(crate) diff_base: Option<Dag>,
    pub(crate) diff_label: String,
    pub(crate) diff: Option<DagDiff>,
    pub(crate) themes: Vec<(String, Theme)>,
    pub(crate) theme_index: usize,
}

/// Model of [`App`].
pub struct AppModel {
    pub dag: DagModel,
    pub model_list: Seq<NodeModel>,
    pub filter: Option<Seq<NodeModel>>,
    pub list_filter: ListFilter,
    pub filtered_base: Option<Seq<NodeModel>>,
    pub sort: SortMode,
    pub bookmarks: Set<Text>,
    pub ui: UiModel,
    pub mode: ModeModel,
    pub stats: AppStatsModel,
    pub view: LineageView,
    pub glyphs: GlyphMode,
    pub cursor: Option<Text>,
    pub notice: Option<Text>,
    pub back: Seq<Text>,
    pub forward: Seq<Text>,
    pub source: SourceModel,
    pub project_root: Text,
    pub diff_base: Option<DagModel>,
    pub diff_label: Text,
    pub diff: Option<DiffModel>,
    pub themes: Seq<(Text, ThemeModel)>,
    pub theme_index: usize,
}

impl DeepView for App {
    type V = AppModel;

    closed spec fn deep_view(&self) -> AppModel {
        AppModel {
            dag: self.dag.deep_view(),
            model_list: self.model_list.deep_view(),
            filter: self.filter.deep_view(),
            list_filter: self.list_filter,
            filtered_base: self.filtered_base.deep_view(),
            sort: self.sort,
            bookmarks: self.bookmarks@,
            ui: self.ui_state.deep_view(),
            mode: self.mode.deep_view(),
            stats: self.stats.deep_view(),
            view: self.lineage_view,
            glyphs: self.glyph_mode,
            cursor: self.lineage_cursor.deep_view(),
            notice: self.notice.deep_view(),
            back: self.back.deep_view(),
            forward: self.forward.deep_view(),
            source: self.source.deep_view(),
            project_root: self.project_root@,
            diff_base: self.diff_base.deep_view(),
            diff_label: self.diff_label@,
            diff: self.diff.deep_view(),
            themes: self.themes.deep_view(),
            theme_index: self.theme_index,
        }
    }
}

// ---- the state in words ----

/// All of `part` stand in `whole`.
pub open spec fn all_from(part: Seq<NodeModel>, whole: Seq<NodeModel>) -> bool {
    forall|i: int| 0 <= i < part.len() ==> whole.contains(#[trigger] part[i])
}

/// The parts of the state agree with each other: the list shows the models of
/// the graph in the chosen order, the filters show parts of it, the panes know
/// how long the shown list is, and what is derived from the graph and the
/// baseline is up to date.
#[verifier::opaque]
pub open spec fn coherent(a: AppModel) -> bool {
    &&& a.dag.valid()
    &&& a.model_list == models_of(a.dag, a.sort)
    &&& a.model_list.len() <= usize::MAX
    &&& a.filtered_base == a.filtered()
    &&& (a.filter matches Some(l) ==> all_from(l, a.model_list) && l.len() <= usize::MAX)
    &&& a.ui.valid()
    &&& a.ui.model_count == a.active().len()
    &&& a.stats == stats_of(a.dag)
    &&& a.diff == (match a.diff_base {
        Some(b) => Some(diff_of(b, a.dag)),
        None => None,
    })
    &&& a.theme_index < a.themes.len() <= usize::MAX
}

/// How many nodes have a resource type.
pub open spec fn count_of(d: DagModel, resource_type: Text) -> nat {
    listing(d.nodes.dom()).filter(|u: Text| d.nodes[u].resource_type == resource_type).len()
}

/// The title-bar stats of a graph.
pub open spec fn stats_of(d: DagModel) -> AppStatsModel {
    AppStatsModel {
        project: match project_of(d) {
            Some(p) => p,
            None => Seq::empty(),
        },
        models: count_of(d, "model"@),
        sources: count_of(d, "source"@),
        seeds: count_of(d, "seed"@),
        snapshots: count_of(d, "snapshot"@),
        exposures: count_of(d, "exposure"@),
    }
}

/// The first place of an id in a list.
pub open spec fn place_of(list: Seq<NodeModel>, uid: Text) -> Option<int>
    decreases list.len(),
{
    if list.len() == 0 {
        None
    } else if list[0].unique_id == uid {
        Some(0)
    } else {
        match place_of(list.drop_first(), uid) {
            Some(i) => Some(i + 1),
            None => None,
        }
    }
}

/// Without entries that equal the one before them.
pub open spec fn without_repeats(s: Seq<Text>) -> Seq<Text>
    decreases s.len(),
{
    if s.len() == 0 {
        s
    } else {
        let r = without_repeats(s.drop_last());
        if r.len() > 0 && r.last() == s.last() {
            r
        } else {
            r.push(s.last())
        }
    }
}

/// A history with only the ids of a graph, and no step to the same node.
pub open spec fn surviving(s: Seq<Text>, d: DagModel) -> Seq<Text> {
    without_repeats(s.filter(|u: Text| d.nodes.contains_key(u)))
}

impl AppModel {
    /// The list that a search narrows.
    pub open spec fn base(self) -> Seq<NodeModel> {
        match self.filtered_base {
            Some(l) => l,
            None => self.model_list,
        }
    }

    /// The list that drives the left pane.
    pub open spec fn active(self) -> Seq<NodeModel> {
        match self.filter {
            Some(l) => l,
            None => self.base(),
        }
    }

    /// The selected model.
    pub open spec fn selected(self) -> Option<NodeModel> {
        if self.ui.selected < self.active().len() {
            Some(self.active()[self.ui.selected as int])
        } else {
            None
        }
    }

    /// The id of the selected model.
    pub open spec fn selected_id(self) -> Option<Text> {
        match self.selected() {
            Some(n) => Some(n.unique_id),
            None => None,
        }
    }

    /// With the selection on an id of the active list; as before where the
    /// list lacks it.
    pub open spec fn select(self, uid: Text) -> AppModel {
        match place_of(self.active(), uid) {
            Some(i) => AppModel { ui: with_selected(self.ui, capped(i)), ..self },
            None => self,
        }
    }

    /// Whether the active list has an id.
    pub open spec fn lists(self, uid: Text) -> bool {
        place_of(self.active(), uid) is Some
    }

    /// With the selection on the first of these ids that the active list has,
    /// else at the top.
    pub open spec fn settle(self, first: Option<Text>, second: Option<Text>) -> AppModel {
        if first is Some && self.lists(first->0) {
            self.select(first->0)
        } else if second is Some && self.lists(second->0) {
            self.select(second->0)
        } else {
            AppModel { ui: with_selected(self.ui, 0), ..self }
        }
    }

    /// The query of an open list search.
    pub open spec fn list_search(self) -> Option<SearchModel> {
        match self.mode {
            ModeModel::Search(s) => if s.target == SearchTarget::List {
                Some(s)
            } else {
                None
            },
            _ => None,
        }
    }

    /// With the list narrowed anew by the open list search; the selection stays
    /// on its model, else goes to where the search began, else to the top.
    #[verifier::opaque]
    pub open spec fn refiltered(self) -> AppModel {
        match self.list_search() {
            Some(s) => {
                let hits = self.base().filter(|n: NodeModel| subsequence(s.query, n.name));
                let a = AppModel { filter: Some(hits), ui: with_count(self.ui, capped(hits.len() as int)), ..self };
                a.settle(self.selected_id(), s.origin_uid)
            },
            None => self,
        }
    }

    /// What the persistent filter leaves of the model list.
    pub open spec fn filtered(self) -> Option<Seq<NodeModel>> {
        match self.list_filter {
            ListFilter::All => None,
            ListFilter::Untested => Some(self.model_list.filter(|n: NodeModel| KeepModel::Untested.keeps(n))),
            ListFilter::Bookmarked => Some(
                self.model_list.filter(|n: NodeModel| KeepModel::Bookmarked(self.bookmarks).keeps(n)),
            ),
        }
    }

    /// With the persistent filter applied anew; the selection stays on its
    /// model, else goes to the top.
    #[verifier::opaque]
    pub open spec fn list_filter_applied(self) -> AppModel {
        let a = AppModel { filtered_base: self.filtered(), ..self };
        if self.list_search() is Some {
            a.refiltered()
        } else {
            AppModel { ui: with_count(a.ui, capped(a.active().len() as int)), ..a }.settle(self.selected_id(), None)
        }
    }

    /// Without the search: the base list again, and the selection on `uid`.
    #[verifier::opaque]
    pub open spec fn search_closed(self, uid: Option<Text>) -> AppModel {
        let a = AppModel {
            filter: None,
            mode: ModeModel::Selection,
            ui: with_count(self.ui, capped(self.base().len() as int)),
            ..self
        };
        match uid {
            Some(u) => a.select(u),
            None => a,
        }
    }

    /// Re-rooted to `uid`, with the old root on the back stack.
    #[verifier::opaque]
    pub open spec fn jumped(self, uid: Text) -> AppModel {
        if self.lists(uid) {
            let a = self.select(uid);
            match self.selected_id() {
                Some(cur) => if cur != uid {
                    AppModel { back: self.back.push(cur), forward: Seq::empty(), ..a }
                } else {
                    a
                },
                None => a,
            }
        } else {
            self
        }
    }

    /// One step back in the history.
    #[verifier::opaque]
    pub open spec fn went_back(self) -> AppModel {
        if self.back.len() == 0 {
            self
        } else {
            AppModel {
                back: self.back.drop_last(),
                forward: match self.selected_id() {
                    Some(cur) => self.forward.push(cur),
                    None => self.forward,
                },
                ..self
            }.select(self.back.last())
        }
    }

    /// One step forward in the history.
    #[verifier::opaque]
    pub open spec fn went_forward(self) -> AppModel {
        if self.forward.len() == 0 {
            self
        } else {
            AppModel {
                forward: self.forward.drop_last(),
                back: match self.selected_id() {
                    Some(cur) => self.back.push(cur),
                    None => self.back,
                },
                ..self
            }.select(self.forward.last())
        }
    }

    /// With another graph in place of the old one. The selection, the
    /// bookmarks and the history keep the ids that still exist.
    pub open spec fn reloaded(self, d: DagModel) -> AppModel {
        let a = AppModel {
            dag: d,
            model_list: models_of(d, self.sort),
            stats: stats_of(d),
            bookmarks: self.bookmarks.intersect(d.nodes.dom()),
            back: surviving(self.back, d),
            forward: surviving(self.forward, d),
            filter: None,
            mode: ModeModel::Selection,
            cursor: None,
            diff: match self.diff_base {
                Some(b) => Some(diff_of(b, d)),
                None => None,
            },
            ..self
        }.list_filter_applied();
        match self.selected_id() {
            Some(uid) => a.select(uid),
            None => a,
        }
    }

    /// With a message for the user.
    pub open spec fn noted(self, text: Text) -> AppModel {
        AppModel { notice: Some(text), ..self }
    }

    /// The display name of an id; the id itself where it is unknown.
    pub open spec fn name_of(self, uid: Text) -> Text {
        if self.dag.nodes.contains_key(uid) {
            self.dag.nodes[uid].name
        } else {
            uid
        }
    }

    /// The file of the selected model, below the project root.
    #[verifier::opaque]
    pub open spec fn file_path(self) -> Option<Text> {
        match self.selected_id() {
            Some(uid) => if self.dag.details.contains_key(uid) {
                match self.dag.details[uid].original_file_path {
                    Some(p) => if stays_below(p) {
                        Some(joined_path(self.project_root, p))
                    } else {
                        None
                    },
                    None => None,
                }
            } else {
                None
            },
            None => None,
        }
    }

    /// The next theme, with a message that names it.
    #[verifier::opaque]
    pub open spec fn theme_cycled(self) -> AppModel {
        let i = ((self.theme_index + 1) % self.themes.len() as int) as usize;
        AppModel { theme_index: i, ..self }.noted("theme: "@ + self.themes[i as int].0)
    }
}

/// The state at the start.
pub open spec fn fresh(d: DagModel, source: SourceModel, root: Text) -> AppModel {
    AppModel {
        dag: d,
        model_list: models_of(d, SortMode::Layer),
        filter: None,
        list_filter: ListFilter::All,
        filtered_base: None,
        sort: SortMode::Layer,
        bookmarks: Set::empty(),
        ui: fresh_ui(capped(models_of(d, SortMode::Layer).len() as int)),
        mode: ModeModel::Selection,
        stats: stats_of(d),
        view: full_view(),
        glyphs: GlyphMode::Unicode,
        cursor: None,
        notice: None,
        back: Seq::empty(),
        forward: Seq::empty(),
        source,
        project_root: root,
        diff_base: None,
        diff_label: Seq::empty(),
        diff: None,
        themes: preset_themes(),
        theme_index: 0,
    }
}

/// The graph of what a manifest load brought.
pub fn load_dag(loaded: Result<crate::manifest::RawManifest, LoadError>) -> (r: Result<Dag, LoadError>)
    requires
        loaded matches Ok(m) ==> m.wf(),
    ensures
        loaded matches Ok(m) ==> r matches Ok(d) && d.wf() && d.deep_view() == crate::dag::dag_of(m.deep_view()),
        loaded matches Err(e) ==> r == Err::<Dag, LoadError>(e),
{
    match loaded {
        Ok(m) => Ok(Dag::build(&m)),
        Err(e) => Err(e),
    }
}

/// The title-bar stats of a graph.
fn compute_stats(dag: &Dag) -> (r: AppStats)
    requires
        dag.wf(),
    ensures
        r.deep_view() == stats_of(dag.deep_view()),
{
    AppStats {
        project: match dag.project_name() {
            Some(p) => p,
            None => String::new(),
        },
        models: dag.count_by_resource_type("model"),
        sources: dag.count_by_resource_type("source"),
        seeds: dag.count_by_resource_type("seed"),
        snapshots: dag.count_by_resource_type("snapshot"),
        exposures: dag.count_by_resource_type("exposure"),
    }
}

/// The members of `ids` that the graph has, without repeats in a row.
fn keep_known(ids: &Vec<String>, dag: &Dag) -> (r: Vec<String>)
    requires
        dag.wf(),
    ensures
        r.deep_view() == surviving(ids.deep_view(), dag.deep_view()),
{
    let ghost d = dag.deep_view();
    let ghost all = ids.deep_view();
    let ghost p = |u: Text| d.nodes.contains_key(u);
    let mut out: Vec<String> = Vec::new();
    let mut i: usize = 0;
    proof {
        reveal(Seq::filter);
        assert(out.deep_view() =~= without_repeats(all.take(0).filter(p)));
    }
    while i < ids.len()
        invariant
            dag.wf(),
            d == dag.deep_view(),
            i <= ids@.len(),
            all == ids.deep_view(),
            p == (|u: Text| d.nodes.contains_key(u)),
            out.deep_view() == without_repeats(all.take(i as int).filter(p)),
        decreases ids@.len() - i,
    {
        let ghost before = out.deep_view();
        let ghost f = all.take(i as int).filter(p);
        let ghost u = ids@[i as int]@;
        proof {
            reveal(Seq::filter);
            assert(all[i as int] == u);
            assert(all.take(i + 1).drop_last() =~= all.take(i as int));
            assert(f.push(u).drop_last() =~= f);
        }
        if dag.contains(ids[i].as_str()) {
            let repeated = out.len() > 0 && str_eq(out[out.len() - 1].as_str(), ids[i].as_str());
            proof {
                if out@.len() > 0 {
                    assert(before.last() == out@[out@.len() - 1]@);
                }
            }
            if !repeated {
                out.push(ids[i].clone());
                assert(out.deep_view() =~= before.push(u));
            }
        }
        i = i + 1;
    }
    assert(all.take(all.len() as int) =~= all);
    out
}

fn place_in(list: &ModelList, uid: &str) -> (r: Option<usize>)
    ensures
        match r {
            Some(i) => place_of(list.deep_view(), uid@) == Some(i as int) && i < list.deep_view().len(),
            None => place_of(list.deep_view(), uid@) is None,
        },
{
    let ghost all = list.deep_view();
    let mut i: usize = 0;
    assert(all.skip(0) =~= all);
    while i < list.models.len()
        invariant
            i <= list.models@.len(),
            all == list.deep_view(),
            place_of(all, uid@) == (match place_of(all.skip(i as int), uid@) {
                Some(k) => Some(k + i),
                None => None,
            }),
        decreases list.models@.len() - i,
    {
        assert(all.skip(i as int).drop_first() =~= all.skip(i + 1));
        assert(all[i as int] == list.models@[i as int].deep_view());
        if str_eq(list.models[i].unique_id.as_str(), uid) {
            return Some(i);
        }
        i = i + 1;
    }
    None
}

impl App {
    /// The invariant of the state: its parts keep their own, and they agree with
    /// each other.
    pub open spec fn wf(&self) -> bool {
        self.parts() && coherent(self.deep_view())
    }

    /// The parts keep their own invariants, and there is an active theme.
    pub closed spec fn parts(&self) -> bool {
        &&& self.dag.wf()
        &&& self.bookmarks.wf()
        &&& (self.diff_base matches Some(b) ==> b.wf())
        &&& (self.diff matches Some(d) ==> d.wf())
        &&& self.theme_index < self.themes@.len()
    }

    /// What the model of the state says of each field.
    pub(crate) proof fn fields_in_view(&self)
        ensures
            self.deep_view().dag == self.dag.deep_view(),
            self.deep_view().model_list == self.model_list.deep_view(),
            self.deep_view().filter == self.filter.deep_view(),
            self.deep_view().list_filter == self.list_filter,
            self.deep_view().filtered_base == self.filtered_base.deep_view(),
            self.deep_view().sort == self.sort,
            self.deep_view().bookmarks == self.bookmarks@,
            self.deep_view().ui == self.ui_state.deep_view(),
            self.deep_view().mode == self.mode.deep_view(),
            self.deep_view().stats == self.stats.deep_view(),
            self.deep_view().view == self.lineage_view,
            self.deep_view().glyphs == self.glyph_mode,
            self.deep_view().cursor == self.lineage_cursor.deep_view(),
            self.deep_view().notice == self.notice.deep_view(),
            self.deep_view().back == self.back.deep_view(),
            self.deep_view().forward == self.forward.deep_view(),
            self.deep_view().source == self.source.deep_view(),
            self.deep_view().project_root == self.project_root@,
            self.deep_view().diff_base == self.diff_base.deep_view(),
            self.deep_view().diff_label == self.diff_label@,
            self.deep_view().diff == self.diff.deep_view(),
            self.deep_view().themes == self.themes.deep_view(),
            self.deep_view().theme_index == self.theme_index,
    {
    }

    /// What the invariants of the parts say of each field.
    pub(crate) proof fn fields_well_formed(&self)
        ensures
            self.parts() <==> {
                &&& self.dag.wf()
                &&& self.bookmarks.wf()
                &&& (self.diff_base matches Some(b) ==> b.wf())
                &&& (self.diff matches Some(d) ==> d.wf())
                &&& self.theme_index < self.themes@.len()
            },
    {
    }

    /// What the invariants of the parts mean for the state.
    pub broadcast proof fn parts_valid(&self)
        requires
            #[trigger] self.parts(),
        ensures
            self.deep_view().dag.valid(),
            self.deep_view().theme_index < self.deep_view().themes.len(),
            self.deep_view().bookmarks.finite(),
    {
        self.dag.wf_valid();
        self.bookmarks.items_listed();
    }

    /// The application over a graph that was loaded from a manifest.
    pub fn new(dag: Dag, manifest_path: String) -> (r: App)
        requires
            dag.wf(),
        ensures
            r.wf(),
            r.deep_view() == fresh(
                dag.deep_view(),
                SourceModel::Manifest(manifest_path@),
                root_of(manifest_path@),
            ),
    {
        let root = derive_project_root(manifest_path.as_str());
        App::with_source(dag, DataSource::Manifest(manifest_path), root)
    }

    /// The application over a graph that was parsed from a project directory.
    pub fn from_source(dag: Dag, project_dir: String) -> (r: App)
        requires
            dag.wf(),
        ensures
            r.wf(),
            r.deep_view() == fresh(
                dag.deep_view(),
                SourceModel::Project(project_dir@),
                project_dir@,
            ),
    {
        let root = project_dir.clone();
        App::with_source(dag, DataSource::Project(project_dir), root)
    }

    fn with_source(dag: Dag, source: DataSource, project_root: String) -> (r: App)
        requires
            dag.wf(),
        ensures
            r.wf(),
            r.deep_view() == fresh(dag.deep_view(), source.deep_view(), project_root@),
    {
        let sort = SortMode::default();
        let model_list = build_model_list(&dag, sort);
        let ui_state = UiState::new(model_list.len());
        let stats = compute_stats(&dag);
        let r = App {
            dag,
            model_list,
            filter: None,
            list_filter: ListFilter::default(),
            filtered_base: None,
            sort,
            bookmarks: StrSet::new(),
            ui_state,
            mode: Mode::Selection,
            stats,
            lineage_view: LineageView::default(),
            glyph_mode: GlyphMode::default(),
            lineage_cursor: None,
            notice: None,
            back: Vec::new(),
            forward: Vec::new(),
            source,
            project_root,
            diff_base: None,
            diff_label: String::new(),
            diff: None,
            themes: presets(),
            theme_index: 0,
        };
        proof {
            assert(r.back.deep_view() =~= Seq::empty());
            assert(r.forward.deep_view() =~= Seq::empty());
            assert(r.themes.deep_view().len() == 5);
            r.parts_valid();
            assert(r.stats.deep_view().models <= usize::MAX);
            crate::laws::fresh_is_coherent(r.dag.deep_view(), source.deep_view(), project_root@);
        }
        r
    }

    /// Compares with a baseline from now on.
    pub fn set_diff_base(&mut self, base: Dag, label: String)
        requires
            old(self).parts(),
            base.wf(),
        ensures
            final(self).parts(),
            old(self).wf() ==> final(self).wf(),
            final(self).deep_view() == (AppModel {
                diff_base: Some(base.deep_view()),
                diff_label: label@,
                diff: Some(diff_of(base.deep_view(), old(self).deep_view().dag)),
                ..old(self).deep_view()
            }),
    {
        proof {
            if coherent(self.deep_view()) {
                crate::laws::baseline_coherent(self.deep_view(), base.deep_view(), label@);
            }
        }
        self.diff = Some(compute_diff(&base, &self.dag));
        self.diff_base = Some(base);
        self.diff_label = label;
    }

    /// The difference to the baseline; `None` without one.
    pub fn diff(&self) -> (r: Option<&DagDiff>)
        requires
            self.parts(),
        ensures
            r.deep_view() == self.deep_view().diff,
            r matches Some(d) ==> d.wf(),
    {
        match &self.diff {
            Some(d) => Some(d),
            None => None,
        }
    }

    /// Where the baseline came from; empty without one.
    pub fn diff_label(&self) -> (r: &str)
        ensures
            r@ == self.deep_view().diff_label,
    {
        self.diff_label.as_str()
    }

    /// The status chip of the difference: the numbers of added, modified and
    /// removed nodes, or that the graphs match. `None` without a baseline.
    pub fn diff_status_label(&self) -> (r: Option<String>)
        requires
            self.parts(),
        ensures
            r.deep_view() == diff_chip(self.deep_view().diff),
    {
        match &self.diff {
            None => None,
            Some(d) => {
                if d.is_empty() {
                    return Some("diff clean".to_owned());
                }
                let c = d.counts();
                let mut out = "diff +".to_owned();
                push_decimal(&mut out, c.0);
                out.append(" ~");
                push_decimal(&mut out, c.1);
                out.append(" -");
                push_decimal(&mut out, c.2);
                Some(out)
            },
        }
    }

    /// The active theme.
    pub fn active_theme(&self) -> (r: &Theme)
        requires
            self.parts(),
        ensures
            r.deep_view() == self.deep_view().themes[self.deep_view().theme_index as int].1,
    {
        &self.themes[self.theme_index].1
    }

    /// The name of the active theme.
    pub fn theme_name(&self) -> (r: &str)
        requires
            self.parts(),
        ensures
            r@ == self.deep_view().themes[self.deep_view().theme_index as int].0,
    {
        self.themes[self.theme_index].0.as_str()
    }

    /// Replaces the themes. An empty list is ignored, and an index behind the
    /// end means the last theme.
    pub fn set_themes(&mut self, themes: Vec<(String, Theme)>, index: usize)
        requires
            old(self).parts(),
        ensures
            final(self).parts(),
            old(self).wf() ==> final(self).wf(),
            final(self).deep_view() == ({
                let list = if themes@.len() > 0 { themes.deep_view() } else { old(self).deep_view().themes };
                AppModel {
                    themes: list,
                    theme_index: crate::ui::clamped(index, capped(list.len() as int)),
                    ..old(self).deep_view()
                }
            }),
    {
        let ghost a = self.deep_view();
        if themes.len() > 0 {
            self.themes = themes;
        }
        self.theme_index = if index < self.themes.len() {
            index
        } else {
            self.themes.len() - 1
        };
        proof {
            if coherent(a) {
                crate::laws::themes_coherent(a, self.themes.deep_view(), self.theme_index);
            }
        }
    }

    /// Steps to the next theme and says which it is.
    pub fn cycle_theme(&mut self)
        requires
            old(self).parts(),
        ensures
            final(self).parts(),
            old(self).wf() ==> final(self).wf(),
            final(self).deep_view() == old(self).deep_view().theme_cycled(),
    {
        proof {
            if coherent(self.deep_view()) {
                crate::laws::cycles_kept(self.deep_view(), true, KeepModel::Untested);
                crate::laws::core_coherent(self.deep_view(), self.deep_view().theme_cycled());
            }
        }
        proof {
            reveal(AppModel::theme_cycled);
        }
        let n: usize = self.themes.len();
        let next: usize = if self.theme_index + 1 < n {
            self.theme_index + 1
        } else {
            0
        };
        proof {
            let i = self.theme_index as int;
            if i + 1 < n {
                assert((i + 1) % (n as int) == i + 1) by (nonlinear_arith)
                    requires
                        0 <= i + 1 < n,
                ;
            } else {
                vstd::arithmetic::div_mod::lemma_mod_self_0(n as int);
            }
        }
        self.theme_index = next;
        let mut text = "theme: ".to_owned();
        text.append(self.themes[next].0.as_str());
        self.set_notice(text);
    }

    /// Leaves a message for the user; the last one counts.
    pub fn set_notice(&mut self, text: String)
        requires
            old(self).parts(),
        ensures
            final(self).parts(),
            old(self).wf() ==> final(self).wf(),
            final(self).deep_view() == old(self).deep_view().noted(text@),
    {
        proof {
            if coherent(self.deep_view()) {
                crate::laws::notice_coherent(self.deep_view(), Some(text@));
            }
        }
        self.notice = Some(text);
    }

    /// Takes the pending message.
    pub fn take_notice(&mut self) -> (r: Option<String>)
        requires
            old(self).parts(),
        ensures
            final(self).parts(),
            old(self).wf() ==> final(self).wf(),
            r.deep_view() == old(self).deep_view().notice,
            final(self).deep_view() == (AppModel { notice: None, ..old(self).deep_view() }),
    {
        proof {
            if coherent(self.deep_view()) {
                crate::laws::notice_coherent(self.deep_view(), None);
            }
        }
        self.notice.take()
    }

    /// The list that drives the left pane: the search's, else the persistent
    /// filter's, else all models.
    pub fn active_list(&self) -> (r: &ModelList)
        ensures
            r.deep_view() == self.deep_view().active(),
    {
        match &self.filter {
            Some(l) => l,
            None => self.base_list(),
        }
    }

    fn base_list(&self) -> (r: &ModelList)
        ensures
            r.deep_view() == self.deep_view().base(),
    {
        match &self.filtered_base {
            Some(l) => l,
            None => &self.model_list,
        }
    }

    /// The selected model.
    pub fn selected_node(&self) -> (r: Option<&NodeInfo>)
        ensures
            r.deep_view() == self.deep_view().selected(),
    {
        self.active_list().model_at(self.ui_state.selected())
    }

    /// The id of the selected model.
    pub fn selected_unique_id(&self) -> (r: Option<String>)
        ensures
            r.deep_view() == self.deep_view().selected_id(),
    {
        match self.selected_node() {
            Some(n) => Some(n.unique_id.clone()),
            None => None,
        }
    }

    /// The name of the selected model.
    pub fn selected_name(&self) -> (r: Option<String>)
        ensures
            r.deep_view() == (match self.deep_view().selected() {
                Some(n) => Some(n.name),
                None => None,
            }),
    {
        match self.selected_node() {
            Some(n) => Some(n.name.clone()),
            None => None,
        }
    }

    /// Moves the selection to an id of the active list; whether it was there.
    pub fn select_by_unique_id(&mut self, unique_id: &str) -> (r: bool)
        requires
            old(self).parts(),
        ensures
            final(self).parts(),
            old(self).wf() ==> final(self).wf(),
            r == old(self).deep_view().lists(unique_id@),
            final(self).deep_view() == old(self).deep_view().select(unique_id@),
    {
        proof {
            if coherent(self.deep_view()) {
                crate::laws::select_coherent(self.deep_view(), unique_id@);
            }
        }
        match place_in(self.active_list(), unique_id) {
            Some(i) => {
                self.ui_state.set_selected(i);
                true
            },
            None => false,
        }
    }

    /// Moves the selection to the first model with this name; whether there is
    /// one.
    pub fn select_by_name(&mut self, name: &str) -> (r: bool)
        requires
            old(self).parts(),
        ensures
            final(self).parts(),
            old(self).wf() ==> final(self).wf(),
            match first_named(old(self).deep_view().active(), name@) {
                Some(uid) => r == old(self).deep_view().lists(uid) && final(self).deep_view() == old(self).deep_view().select(uid),
                None => !r && final(self).deep_view() == old(self).deep_view(),
            },
    {
        let ghost all = self.deep_view().active();
        let mut found: Option<String> = None;
        let mut i: usize = 0;
        let n: usize = self.active_list().len();
        assert(all.skip(0) =~= all);
        while i < n && found.is_none()
            invariant
                i <= n,
                n == all.len(),
                all == self.deep_view().active(),
                found is Some ==> first_named(all, name@) == Some(found->0@),
                found is None ==> first_named(all, name@) == first_named(all.skip(i as int), name@),
            decreases n - i, (if found is None { 1int } else { 0int }),
        {
            assert(all.skip(i as int).drop_first() =~= all.skip(i + 1));
            let list = self.active_list();
            assert(all[i as int] == list.models@[i as int].deep_view());
            if str_eq(list.models[i].name.as_str(), name) {
                found = Some(list.models[i].unique_id.clone());
            } else {
                i = i + 1;
            }
        }
        match found {
            Some(uid) => self.select_by_unique_id(uid.as_str()),
            None => false,
        }
    }

    /// The short name of the persistent filter; `None` where there is none.
    pub fn list_filter_label(&self) -> (r: Option<&'static str>)
        ensures
            r.deep_view() == (match self.deep_view().list_filter {
                ListFilter::All => None,
                ListFilter::Untested => Some("untested"@),
                ListFilter::Bookmarked => Some("marked"@),
            }),
    {
        match self.list_filter {
            ListFilter::All => None,
            ListFilter::Untested => Some("untested"),
            ListFilter::Bookmarked => Some("marked"),
        }
    }

    /// Puts the selection on the first of two ids that the active list has,
    /// else at the top.
    fn settle_on(&mut self, first: &Option<String>, second: &Option<String>)
        requires
            old(self).parts(),
        ensures
            final(self).parts(),
            final(self).deep_view() == old(self).deep_view().settle(first.deep_view(), second.deep_view()),
    {
        if let Some(uid) = first {
            if self.select_by_unique_id(uid.as_str()) {
                return;
            }
        }
        if let Some(uid) = second {
            if self.select_by_unique_id(uid.as_str()) {
                return;
            }
        }
        self.ui_state.set_selected(0);
    }

    /// Applies the persistent filter anew. The selection stays on its model,
    /// else goes to the top; with a list search open, the search decides.
    pub fn apply_list_filter(&mut self)
        requires
            old(self).parts(),
        ensures
            final(self).parts(),
            old(self).wf() ==> final(self).wf(),
            final(self).deep_view() == old(self).deep_view().list_filter_applied(),
    {
        proof {
            if coherent(self.deep_view()) {
                crate::laws::filters_coherent(self.deep_view());
            }
        }
        proof {
            reveal(AppModel::list_filter_applied);
        }
        let current = self.selected_unique_id();
        self.filtered_base = match self.list_filter {
            ListFilter::All => None,
            ListFilter::Untested => {
                let keep = Keep::Untested;
                let l = filter_model_list(&self.model_list, &keep);
                assert((|n: NodeModel| keep.deep_view().keeps(n)) =~= (|n: NodeModel| KeepModel::Untested.keeps(n)));
                Some(l)
            },
            ListFilter::Bookmarked => {
                let keep = Keep::Bookmarked(&self.bookmarks);
                let l = filter_model_list(&self.model_list, &keep);
                assert((|n: NodeModel| keep.deep_view().keeps(n)) =~= (|n: NodeModel| KeepModel::Bookmarked(self.bookmarks@).keeps(n)));
                Some(l)
            },
        };
        let searching = match &self.mode {
            Mode::Search(s) => s.target == SearchTarget::List,
            _ => false,
        };
        if searching {
            self.refilter();
            return;
        }
        let n: usize = self.active_list().len();
        self.ui_state.set_model_count(n);
        self.settle_on(&current, &None);
    }

    /// Narrows the list anew by the open list search; nothing without one.
    pub fn refilter(&mut self)
        requires
            old(self).parts(),
        ensures
            final(self).parts(),
            old(self).wf() ==> final(self).wf(),
            final(self).deep_view() == old(self).deep_view().refiltered(),
    {
        proof {
            if coherent(self.deep_view()) {
                crate::laws::filters_coherent(self.deep_view());
            }
        }
        proof {
            reveal(AppModel::refiltered);
        }
        let search = match &self.mode {
            Mode::Search(s) => if s.target == SearchTarget::List {
                Some((s.query.clone(), clone_opt(&s.origin_uid)))
            } else {
                None
            },
            _ => None,
        };
        match search {
            Some((query, origin)) => {
                let current = self.selected_unique_id();
                let hits = build_filtered_model_list(self.base_list(), query.as_str());
                self.ui_state.set_model_count(hits.len());
                self.filter = Some(hits);
                self.settle_on(&current, &origin);
            },
            None => {},
        }
    }

    /// Ends a search and selects `restore_uid` in the base list.
    fn close_search(&mut self, restore_uid: Option<String>)
        requires
            old(self).parts(),
        ensures
            final(self).parts(),
            final(self).deep_view() == old(self).deep_view().search_closed(restore_uid.deep_view()),
    {
        proof {
            reveal(AppModel::search_closed);
        }
        self.filter = None;
        self.mode = Mode::Selection;
        let n: usize = self.base_list().len();
        self.ui_state.set_model_count(n);
        if let Some(uid) = restore_uid {
            self.select_by_unique_id(uid.as_str());
        }
    }

    /// Re-roots the lineage to a listed model and remembers where it was;
    /// nothing for any other id.
    pub fn jump_to(&mut self, unique_id: &str)
        requires
            old(self).parts(),
        ensures
            final(self).parts(),
            old(self).wf() ==> final(self).wf(),
            final(self).deep_view() == old(self).deep_view().jumped(unique_id@),
    {
        proof {
            if coherent(self.deep_view()) {
                crate::laws::jumped_coherent(self.deep_view(), unique_id@);
            }
        }
        proof {
            reveal(AppModel::jumped);
        }
        let current = self.selected_unique_id();
        if self.select_by_unique_id(unique_id) {
            if let Some(cur) = current {
                if !str_eq(cur.as_str(), unique_id) {
                    let ghost b = self.back.deep_view();
                    let ghost c = cur@;
                    self.back.push(cur);
                    self.forward.clear();
                    assert(self.back.deep_view() =~= b.push(c));
                    assert(self.forward.deep_view() =~= Seq::empty());
                }
            }
        }
    }

    /// One step back in the history.
    pub fn history_back(&mut self)
        requires
            old(self).parts(),
        ensures
            final(self).parts(),
            old(self).wf() ==> final(self).wf(),
            final(self).deep_view() == old(self).deep_view().went_back(),
    {
        proof {
            if coherent(self.deep_view()) {
                crate::laws::history_kept(self.deep_view());
                crate::laws::core_coherent(self.deep_view(), self.deep_view().went_back());
            }
        }
        proof {
            reveal(AppModel::went_back);
        }
        let ghost b = self.back.deep_view();
        let ghost f = self.forward.deep_view();
        if let Some(prev) = self.back.pop() {
            assert(self.back.deep_view() =~= b.drop_last());
            assert(b.last() == prev@);
            if let Some(cur) = self.selected_unique_id() {
                let ghost c = cur@;
                self.forward.push(cur);
                assert(self.forward.deep_view() =~= f.push(c));
            }
            self.select_by_unique_id(prev.as_str());
        }
    }

    /// One step forward in the history.
    pub fn history_forward(&mut self)
        requires
            old(self).parts(),
        ensures
            final(self).parts(),
            old(self).wf() ==> final(self).wf(),
            final(self).deep_view() == old(self).deep_view().went_forward(),
    {
        proof {
            if coherent(self.deep_view()) {
                crate::laws::history_kept(self.deep_view());
                crate::laws::core_coherent(self.deep_view(), self.deep_view().went_forward());
            }
        }
        proof {
            reveal(AppModel::went_forward);
        }
        let ghost b = self.back.deep_view();
        let ghost f = self.forward.deep_view();
        if let Some(next) = self.forward.pop() {
            assert(self.forward.deep_view() =~= f.drop_last());
            assert(f.last() == next@);
            if let Some(cur) = self.selected_unique_id() {
                let ghost c = cur@;
                self.back.push(cur);
                assert(self.back.deep_view() =~= b.push(c));
            }
            self.select_by_unique_id(next.as_str());
        }
    }

    /// The display name of an id; the id itself where it is unknown.
    pub fn node_name_or_uid(&self, uid: &str) -> (r: String)
        requires
            self.parts(),
        ensures
            r@ == self.deep_view().name_of(uid@),
    {
        match self.dag.get(uid) {
            Some(n) => n.name.clone(),
            None => uid.to_owned(),
        }
    }

    /// The file of the selected model below the project root. `None` where
    /// nothing is selected, no path is recorded, or the recorded path leads out
    /// of the project.
    pub fn selected_file_path(&self) -> (r: Option<String>)
        requires
            self.parts(),
        ensures
            r.deep_view() == self.deep_view().file_path(),
    {
        proof {
            reveal(AppModel::file_path);
        }
        match self.selected_unique_id() {
            Some(uid) => match self.dag.detail(uid.as_str()) {
                Some(d) => match &d.original_file_path {
                    Some(p) => if is_below(p.as_str()) {
                        Some(join_path(self.project_root.as_str(), p.as_str()))
                    } else {
                        None
                    },
                    None => None,
                },
                None => None,
            },
            None => None,
        }
    }

    /// What the watcher polls: the manifest file, or the project directory with
    /// everything below it.
    pub fn watch_root(&self) -> (r: (&str, bool))
        ensures
            match self.deep_view().source {
                SourceModel::Manifest(p) => r.0@ == p && !r.1,
                SourceModel::Project(p) => r.0@ == p && r.1,
            },
    {
        match &self.source {
            DataSource::Manifest(p) => (p.as_str(), false),
            DataSource::Project(p) => (p.as_str(), true),
        }
    }

    /// Whether the graph was parsed from source.
    pub fn is_source_mode(&self) -> (r: bool)
        ensures
            r == (self.deep_view().source is Project),
    {
        match &self.source {
            DataSource::Manifest(_) => false,
            DataSource::Project(_) => true,
        }
    }

    /// The dbt project root.
    pub fn project_root(&self) -> (r: &str)
        ensures
            r@ == self.deep_view().project_root,
    {
        self.project_root.as_str()
    }

    /// Replaces the graph by a newly loaded one. After a failed load the state
    /// is what it was.
    pub fn reload(&mut self, loaded: Result<Dag, LoadError>) -> (r: Result<(), LoadError>)
        requires
            old(self).parts(),
            loaded matches Ok(d) ==> d.wf(),
        ensures
            final(self).parts(),
            old(self).wf() ==> final(self).wf(),
            match loaded {
                Ok(d) => r is Ok && final(self).deep_view() == old(self).deep_view().reloaded(d.deep_view()),
                Err(e) => r == Err::<(), LoadError>(e) && final(self).deep_view() == old(self).deep_view(),
            },
    {
        match loaded {
            Err(e) => Err(e),
            Ok(dag) => {
                self.adopt_graph(dag);
                Ok(())
            },
        }
    }

    fn adopt_graph(&mut self, dag: Dag)
        requires
            old(self).parts(),
            dag.wf(),
        ensures
            final(self).parts(),
            coherent(old(self).deep_view()) ==> coherent(final(self).deep_view()),
            final(self).deep_view() == old(self).deep_view().reloaded(dag.deep_view()),
    {
        let ghost a = self.deep_view();
        let ghost d = dag.deep_view();
        let current = self.selected_unique_id();
        self.model_list = build_model_list(&dag, self.sort);
        self.stats = compute_stats(&dag);
        self.bookmarks = keep_ids(&self.bookmarks, &dag);
        self.back = keep_known(&self.back, &dag);
        self.forward = keep_known(&self.forward, &dag);
        self.filter = None;
        self.mode = Mode::Selection;
        self.lineage_cursor = None;
        self.diff = match &self.diff_base {
            Some(b) => Some(compute_diff(b, &dag)),
            None => None,
        };
        proof {
            dag.wf_valid();
            assert(self.stats.deep_view().models <= usize::MAX);
            if coherent(a) {
                crate::laws::reload_keeps_coherence(a, d);
            }
        }
        self.dag = dag;
        self.apply_list_filter();
        if let Some(uid) = current {
            self.select_by_unique_id(uid.as_str());
        }
    }

    /// Switches to a manifest at `path` with what was loaded from it. After a
    /// failed load the state is what it was.
    pub fn adopt_manifest(&mut self, path: String, loaded: Result<Dag, LoadError>) -> (r: Result<(), LoadError>)
        requires
            old(self).parts(),
            loaded matches Ok(d) ==> d.wf(),
        ensures
            final(self).parts(),
            old(self).wf() ==> final(self).wf(),
            match loaded {
                Ok(d) => r is Ok && final(self).deep_view() == (AppModel {
                    source: SourceModel::Manifest(path@),
                    project_root: root_of(path@),
                    ..old(self).deep_view().reloaded(d.deep_view())
                }),
                Err(e) => r == Err::<(), LoadError>(e) && final(self).deep_view() == old(self).deep_view(),
            },
    {
        match loaded {
            Err(e) => Err(e),
            Ok(dag) => {
                self.adopt_graph(dag);
                proof {
                    if coherent(self.deep_view()) {
                        crate::laws::source_coherent(self.deep_view(), SourceModel::Manifest(path@), root_of(path@));
                    }
                }
                self.project_root = derive_project_root(path.as_str());
                self.source = DataSource::Manifest(path);
                Ok(())
            },
        }
    }

    /// One line on the selected node: its materialization, if any, and the
    /// number of its tests.
    pub fn selected_status_note(&self) -> (r: Option<String>)
        requires
            self.parts(),
        ensures
            r.deep_view() == status_note(self.deep_view()),
    {
        match self.selected_unique_id() {
            None => None,
            Some(uid) => {
                let mut out = String::new();
                let ghost dv = self.deep_view().dag;
                if let Some(d) = self.dag.detail(uid.as_str()) {
                    if let Some(m) = &d.materialized {
                        out.append(m.as_str());
                        match self.glyph_mode {
                            GlyphMode::Unicode => out.append(" · "),
                            GlyphMode::Ascii => out.append(", "),
                        }
                    }
                }
                out.append("tests: ");
                let n: usize = self.dag.tests(uid.as_str()).len();
                assert(n == at(dv.tests, uid@).len());
                push_decimal(&mut out, n);
                assert(out@ =~= status_note(self.deep_view())->0);
                Some(out)
            },
        }
    }
}

/// The members of `ids` that the graph has.
fn keep_ids(ids: &StrSet, dag: &Dag) -> (r: StrSet)
    requires
        ids.wf(),
        dag.wf(),
    ensures
        r.wf(),
        r@ == ids@.intersect(dag.deep_view().nodes.dom()),
{
    let ghost items = ids.items();
    let ghost known = dag.deep_view().nodes.dom();
    let mut out = StrSet::new();
    let mut i: usize = 0;
    assert(out@ =~= items.take(0).to_set().intersect(known));
    while i < ids.len()
        invariant
            ids.wf(),
            dag.wf(),
            items == ids.items(),
            known == dag.deep_view().nodes.dom(),
            i <= items.len(),
            out.wf(),
            out@ == items.take(i as int).to_set().intersect(known),
        decreases items.len() - i,
    {
        let uid = ids.at(i);
        proof {
            assert(items.take(i + 1) =~= items.take(i as int).push(uid@));
            items.take(i as int).lemma_push_to_set_commute(uid@);
        }
        if dag.contains(uid.as_str()) {
            out.insert(uid.clone());
        }
        assert(out@ =~= items.take(i + 1).to_set().intersect(known));
        i = i + 1;
    }
    proof {
        assert(items.take(items.len() as int) =~= items);
        ids.items_listed();
    }
    out
}

/// The id of the first model with a name.
pub open spec fn first_named(list: Seq<NodeModel>, name: Text) -> Option<Text>
    decreases list.len(),
{
    if list.len() == 0 {
        None
    } else if list[0].name == name {
        Some(list[0].unique_id)
    } else {
        first_named(list.drop_first(), name)
    }
}

/// The text of the diff chip.
pub open spec fn diff_chip(d: Option<DiffModel>) -> Option<Text> {
    match d {
        None => None,
        Some(d) => if no_difference(d) {
            Some("diff clean"@)
        } else {
            Some(
                "diff +"@ + decimal(d.added.len()) + " ~"@ + decimal(d.modified.dom().len()) + " -"@ + decimal(
                    d.removed.len(),
                ),
            )
        },
    }
}

/// The status line of the selected node.
pub open spec fn status_note(a: AppModel) -> Option<Text> {
    match a.selected_id() {
        None => None,
        Some(uid) => {
            let tests = "tests: "@ + decimal(at(a.dag.tests, uid).len());
            let mat = if a.dag.details.contains_key(uid) {
                a.dag.details[uid].materialized
            } else {
                None
            };
            Some(
                match mat {
                    Some(m) => m + (match a.glyphs {
                        GlyphMode::Unicode => " · "@,
                        GlyphMode::Ascii => ", "@,
                    }) + tests,
                    None => tests,
                },
            )
        },
    }
}

} // verus!
