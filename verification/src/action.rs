//! User intent and key bindings. Every interaction is an [`Action`]; one
//! binding table feeds both [`dispatch`] and [`help_lines`], so the help can
//! never drift from what the keys do.

use vstd::prelude::*;

use crate::dag::{DetailModel, NodeDetail, TestInfo, TestModel};
use crate::model_list::{match_indices, subsequence};
use crate::text::{joined, join_from, str_eq, trim, trimmed, Text};

verus! {

/// A direction of movement or scrolling.
#[derive(Debug, Clone, Copy, PartialEq, Eq, Structural)]
pub enum Direction {
    Up,
    Down,
    Left,
    Right,
}

/// Every user intent.
#[derive(Debug, Clone, Copy, PartialEq, Eq, Structural)]
pub enum Action {
    /// Movement: the list selection, or the lineage cursor when the lineage
    /// pane has the focus.
    MoveDown,
    MoveUp,
    MoveLeft,
    MoveRight,
    JumpTop,
    JumpBottom,
    ToggleFocus,
    /// Show or hide the list pane; the lineage pane has the focus while the
    /// list is hidden.
    ToggleListPane,
    Quit,
    DetailOpen,
    DetailClose,
    DetailScroll(Direction),
    SearchOpen,
    SearchType(char),
    SearchBackspace,
    SearchCancel,
    SearchConfirm,
    SearchMove(Direction),
    /// Open the command palette; its editing keys are the `Search*` actions.
    PaletteOpen,
    HelpToggle,
    Recenter,
    OpenEditor,
    YankId,
    YankName,
    YankMermaid,
    YankDot,
    Reload,
    ToggleUpstream,
    ToggleDownstream,
    DepthDecrease,
    DepthIncrease,
    ResetView,
    HistoryBack,
    HistoryForward,
    SqlOpen,
    StatsOpen,
    CycleLens,
    BookmarkToggle,
    BookmarkCycle,
    SortCycle,
    ToggleMinimap,
    ToggleDensity,
    YankAscii,
    YankSql,
    YankImpact,
    ExportLineage,
    PageDown,
    PageUp,
    DetailScrollPage(Direction),
    DetailScrollHome,
    DetailScrollEnd,
    GapNext,
    GapPrev,
    BookmarkCycleBack,
    LineageLeftmost,
    LineageRightmost,
    ToggleUntestedFilter,
    ToggleBookmarkFilter,
    /// Run `dbt parse` and adopt the manifest that it writes.
    DbtParse,
    ThemeCycle,
    /// Open the summary of the difference to the baseline.
    DiffOpen,
}

/// Which pane a search drives.
#[derive(Debug, Clone, Copy, PartialEq, Eq, Structural)]
pub enum SearchTarget {
    /// Filter the model list.
    List,
    /// Jump to a node of the current lineage.
    Lineage,
}

/// A search in progress.
#[derive(Debug, PartialEq, Eq)]
pub struct SearchState {
    pub target: SearchTarget,
    pub query: String,
    /// What was selected when the search opened; restored on cancel.
    pub origin_uid: Option<String>,
    /// Which match of a lineage search is current.
    pub match_idx: usize,
}

/// What the structure modal shows.
#[derive(Debug, PartialEq, Eq)]
pub struct DetailView {
    pub model_id: String,
    pub name: String,
    pub detail: NodeDetail,
    pub tests: Vec<TestInfo>,
    pub downstream_count: usize,
    pub upstream_count: usize,
    pub scroll: usize,
}

/// What the SQL preview shows.
#[derive(Debug, PartialEq, Eq)]
pub struct SqlView {
    pub model_id: String,
    pub name: String,
    /// The raw SQL, or a line that says there is none.
    pub sql: String,
    pub path: Option<String>,
    pub scroll: usize,
}

/// What the stats dashboard shows.
#[derive(Debug, PartialEq, Eq)]
pub struct StatsView {
    pub project: String,
    /// `(resource_type, count)`, sorted.
    pub by_resource_type: Vec<(String, usize)>,
    /// `(materialization, count)` over models, sorted.
    pub by_materialization: Vec<(String, usize)>,
    pub testable_total: usize,
    pub testable_tested: usize,
    /// The five nodes with the most direct neighbours: `(id, name, degree)`.
    pub top_hubs: Vec<(String, String, usize)>,
    /// The five nodes with the most descendants: `(name, count)`.
    pub transitive_hubs: Vec<(String, usize)>,
    /// The names of the models without parents and children, sorted.
    pub orphan_models: Vec<String>,
    /// The edges that run against the layer order, by name, sorted.
    pub layer_violations: Vec<(String, String)>,
    /// The longest dependency chain, by name, upstream first.
    pub critical_path: Vec<String>,
    pub untested_testable: usize,
    pub zero_downstream_models: usize,
    pub no_description_models: usize,
    pub scroll: usize,
}

/// The analysis behind a pull-request report.
#[derive(Debug, PartialEq, Eq)]
pub struct PrImpact {
    pub affected_models: usize,
    pub affected_marts: Vec<String>,
    pub affected_exposures: Vec<String>,
    pub ci_command: Option<String>,
    pub untested_changes: Vec<String>,
    pub changed_hubs: Vec<(String, usize)>,
    pub new_layer_violations: Vec<(String, String)>,
}

/// What the diff modal shows.
#[derive(Debug, PartialEq, Eq)]
pub struct DiffView {
    /// Where the baseline came from.
    pub baseline: String,
    /// Added nodes as `(name, resource_type)`, sorted.
    pub added: Vec<(String, String)>,
    /// Removed nodes as `(name, resource_type)`, sorted.
    pub removed: Vec<(String, String)>,
    /// Modified nodes as `(name, joined reasons)`, sorted.
    pub modified: Vec<(String, String)>,
    pub edges_added: Vec<(String, String)>,
    pub edges_removed: Vec<(String, String)>,
    pub pr: PrImpact,
    pub scroll: usize,
}

/// The command palette: the query and the highlighted candidate.
#[derive(Debug, PartialEq, Eq)]
pub struct PaletteState {
    pub query: String,
    pub selected: usize,
}

/// The interaction mode.
#[derive(Debug, PartialEq, Eq)]
pub enum Mode {
    Selection,
    Search(SearchState),
    Detail(DetailView),
    Sql(SqlView),
    Stats(StatsView),
    Diff(DiffView),
    Palette(PaletteState),
    Help { scroll: usize },
}

/// The mode without its payload; bindings are looked up by it.
#[derive(Debug, Clone, Copy, PartialEq, Eq, Structural)]
pub enum ModeKind {
    Selection,
    Search,
    Detail,
    Sql,
    Stats,
    Diff,
    Palette,
    Help,
}

// ---- models of the modes ----

/// Model of [`SearchState`].
pub struct SearchModel {
    pub target: SearchTarget,
    pub query: Text,
    pub origin_uid: Option<Text>,
    pub match_idx: usize,
}

/// Model of [`DetailView`].
pub struct DetailViewModel {
    pub model_id: Text,
    pub name: Text,
    pub detail: DetailModel,
    pub tests: Seq<TestModel>,
    pub downstream_count: usize,
    pub upstream_count: usize,
    pub scroll: usize,
}

/// Model of [`SqlView`].
pub struct SqlModel {
    pub model_id: Text,
    pub name: Text,
    pub sql: Text,
    pub path: Option<Text>,
    pub scroll: usize,
}

/// Model of [`StatsView`].
pub struct StatsViewModel {
    pub project: Text,
    pub by_resource_type: Seq<(Text, usize)>,
    pub by_materialization: Seq<(Text, usize)>,
    pub testable_total: usize,
    pub testable_tested: usize,
    pub top_hubs: Seq<(Text, Text, usize)>,
    pub transitive_hubs: Seq<(Text, usize)>,
    pub orphan_models: Seq<Text>,
    pub layer_violations: Seq<(Text, Text)>,
    pub critical_path: Seq<Text>,
    pub untested_testable: usize,
    pub zero_downstream_models: usize,
    pub no_description_models: usize,
    pub scroll: usize,
}

/// Model of [`PrImpact`].
pub struct PrModel {
    pub affected_models: usize,
    pub affected_marts: Seq<Text>,
    pub affected_exposures: Seq<Text>,
    pub ci_command: Option<Text>,
    pub untested_changes: Seq<Text>,
    pub changed_hubs: Seq<(Text, usize)>,
    pub new_layer_violations: Seq<(Text, Text)>,
}

/// Model of [`DiffView`].
pub struct DiffViewModel {
    pub baseline: Text,
    pub added: Seq<(Text, Text)>,
    pub removed: Seq<(Text, Text)>,
    pub modified: Seq<(Text, Text)>,
    pub edges_added: Seq<(Text, Text)>,
    pub edges_removed: Seq<(Text, Text)>,
    pub pr: PrModel,
    pub scroll: usize,
}

/// Model of [`PaletteState`].
pub struct PaletteModel {
    pub query: Text,
    pub selected: usize,
}

/// Model of [`Mode`].
pub enum ModeModel {
    Selection,
    Search(SearchModel),
    Detail(DetailViewModel),
    Sql(SqlModel),
    Stats(StatsViewModel),
    Diff(DiffViewModel),
    Palette(PaletteModel),
    Help { scroll: usize },
}

impl DeepView for SearchState {
    type V = SearchModel;

    open spec fn deep_view(&self) -> SearchModel {
        SearchModel {
            target: self.target,
            query: self.query@,
            origin_uid: self.origin_uid.deep_view(),
            match_idx: self.match_idx,
        }
    }
}

impl DeepView for DetailView {
    type V = DetailViewModel;

    open spec fn deep_view(&self) -> DetailViewModel {
        DetailViewModel {
            model_id: self.model_id@,
            name: self.name@,
            detail: self.detail.deep_view(),
            tests: self.tests.deep_view(),
            downstream_count: self.downstream_count,
            upstream_count: self.upstream_count,
            scroll: self.scroll,
        }
    }
}

impl DeepView for SqlView {
    type V = SqlModel;

    open spec fn deep_view(&self) -> SqlModel {
        SqlModel {
            model_id: self.model_id@,
            name: self.name@,
            sql: self.sql@,
            path: self.path.deep_view(),
            scroll: self.scroll,
        }
    }
}

impl DeepView for StatsView {
    type V = StatsViewModel;

    open spec fn deep_view(&self) -> StatsViewModel {
        StatsViewModel {
            project: self.project@,
            by_resource_type: self.by_resource_type.deep_view(),
            by_materialization: self.by_materialization.deep_view(),
            testable_total: self.testable_total,
            testable_tested: self.testable_tested,
            top_hubs: self.top_hubs.deep_view(),
            transitive_hubs: self.transitive_hubs.deep_view(),
            orphan_models: self.orphan_models.deep_view(),
            layer_violations: self.layer_violations.deep_view(),
            critical_path: self.critical_path.deep_view(),
            untested_testable: self.untested_testable,
            zero_downstream_models: self.zero_downstream_models,
            no_description_models: self.no_description_models,
            scroll: self.scroll,
        }
    }
}

impl DeepView for PrImpact {
    type V = PrModel;

    open spec fn deep_view(&self) -> PrModel {
        PrModel {
            affected_models: self.affected_models,
            affected_marts: self.affected_marts.deep_view(),
            affected_exposures: self.affected_exposures.deep_view(),
            ci_command: self.ci_command.deep_view(),
            untested_changes: self.untested_changes.deep_view(),
            changed_hubs: self.changed_hubs.deep_view(),
            new_layer_violations: self.new_layer_violations.deep_view(),
        }
    }
}

impl DeepView for DiffView {
    type V = DiffViewModel;

    open spec fn deep_view(&self) -> DiffViewModel {
        DiffViewModel {
            baseline: self.baseline@,
            added: self.added.deep_view(),
            removed: self.removed.deep_view(),
            modified: self.modified.deep_view(),
            edges_added: self.edges_added.deep_view(),
            edges_removed: self.edges_removed.deep_view(),
            pr: self.pr.deep_view(),
            scroll: self.scroll,
        }
    }
}

impl DeepView for PaletteState {
    type V = PaletteModel;

    open spec fn deep_view(&self) -> PaletteModel {
        PaletteModel { query: self.query@, selected: self.selected }
    }
}

impl DeepView for Mode {
    type V = ModeModel;

    open spec fn deep_view(&self) -> ModeModel {
        match self {
            Mode::Selection => ModeModel::Selection,
            Mode::Search(s) => ModeModel::Search(s.deep_view()),
            Mode::Detail(v) => ModeModel::Detail(v.deep_view()),
            Mode::Sql(v) => ModeModel::Sql(v.deep_view()),
            Mode::Stats(v) => ModeModel::Stats(v.deep_view()),
            Mode::Diff(v) => ModeModel::Diff(v.deep_view()),
            Mode::Palette(p) => ModeModel::Palette(p.deep_view()),
            Mode::Help { scroll } => ModeModel::Help { scroll: *scroll },
        }
    }
}

/// The analysis of no change.
pub open spec fn no_impact() -> PrModel {
    PrModel {
        affected_models: 0,
        affected_marts: Seq::empty(),
        affected_exposures: Seq::empty(),
        ci_command: None,
        untested_changes: Seq::empty(),
        changed_hubs: Seq::empty(),
        new_layer_violations: Seq::empty(),
    }
}

impl Default for PrImpact {
    fn default() -> (r: PrImpact)
        ensures
            r.deep_view() == no_impact(),
    {
        let r = PrImpact {
            affected_models: 0,
            affected_marts: Vec::new(),
            affected_exposures: Vec::new(),
            ci_command: None,
            untested_changes: Vec::new(),
            changed_hubs: Vec::new(),
            new_layer_violations: Vec::new(),
        };
        assert(r.affected_marts.deep_view() =~= Seq::empty());
        assert(r.affected_exposures.deep_view() =~= Seq::empty());
        assert(r.untested_changes.deep_view() =~= Seq::empty());
        assert(r.changed_hubs.deep_view() =~= Seq::empty());
        assert(r.new_layer_violations.deep_view() =~= Seq::empty());
        r
    }
}

impl Default for DiffView {
    fn default() -> (r: DiffView)
        ensures
            r.deep_view() == (DiffViewModel {
                baseline: Seq::empty(),
                added: Seq::empty(),
                removed: Seq::empty(),
                modified: Seq::empty(),
                edges_added: Seq::empty(),
                edges_removed: Seq::empty(),
                pr: no_impact(),
                scroll: 0,
            }),
    {
        let r = DiffView {
            baseline: String::new(),
            added: Vec::new(),
            removed: Vec::new(),
            modified: Vec::new(),
            edges_added: Vec::new(),
            edges_removed: Vec::new(),
            pr: PrImpact::default(),
            scroll: 0,
        };
        assert(r.added.deep_view() =~= Seq::empty());
        assert(r.removed.deep_view() =~= Seq::empty());
        assert(r.modified.deep_view() =~= Seq::empty());
        assert(r.edges_added.deep_view() =~= Seq::empty());
        assert(r.edges_removed.deep_view() =~= Seq::empty());
        r
    }
}

impl Default for PaletteState {
    fn default() -> (r: PaletteState)
        ensures
            r.deep_view() == (PaletteModel { query: Seq::empty(), selected: 0 }),
    {
        PaletteState { query: String::new(), selected: 0 }
    }
}

impl Default for Mode {
    fn default() -> (r: Mode)
        ensures
            r == Mode::Selection,
    {
        Mode::Selection
    }
}

/// The kind of a mode.
pub open spec fn kind_of(m: ModeModel) -> ModeKind {
    match m {
        ModeModel::Selection => ModeKind::Selection,
        ModeModel::Search(_) => ModeKind::Search,
        ModeModel::Detail(_) => ModeKind::Detail,
        ModeModel::Sql(_) => ModeKind::Sql,
        ModeModel::Stats(_) => ModeKind::Stats,
        ModeModel::Diff(_) => ModeKind::Diff,
        ModeModel::Palette(_) => ModeKind::Palette,
        ModeModel::Help { .. } => ModeKind::Help,
    }
}

impl Mode {
    /// The mode without its payload.
    pub fn kind(&self) -> (r: ModeKind)
        ensures
            r == kind_of(self.deep_view()),
    {
        match self {
            Mode::Selection => ModeKind::Selection,
            Mode::Search(_) => ModeKind::Search,
            Mode::Detail(_) => ModeKind::Detail,
            Mode::Sql(_) => ModeKind::Sql,
            Mode::Stats(_) => ModeKind::Stats,
            Mode::Diff(_) => ModeKind::Diff,
            Mode::Palette(_) => ModeKind::Palette,
            Mode::Help { .. } => ModeKind::Help,
        }
    }
}

// ---- keys ----

/// A key of the keyboard. Keys that no binding names go by their name.
#[derive(Debug, PartialEq, Eq)]
pub enum KeyCode {
    Char(char),
    Enter,
    Esc,
    Tab,
    Backspace,
    Up,
    Down,
    Left,
    Right,
    PageDown,
    PageUp,
    Other(String),
}

/// A key press with its modifiers.
#[derive(Debug, PartialEq, Eq)]
pub struct KeyEvent {
    pub code: KeyCode,
    pub control: bool,
    pub alt: bool,
    pub command: bool,
}

/// What fires a binding: a key without Ctrl, Alt and Cmd, or a character with
/// Ctrl, or one with Cmd.
#[derive(Debug, PartialEq, Eq)]
pub enum Trigger {
    Key(KeyCode),
    Ctrl(char),
    Super(char),
}

/// One binding: the mode it applies in, what fires it, what it does, and its
/// help text.
#[derive(Debug, PartialEq, Eq)]
pub struct KeyBinding {
    pub mode: ModeKind,
    pub triggers: Vec<Trigger>,
    pub action: Action,
    pub help: &'static str,
}

/// Model of [`KeyCode`].
pub enum KeyCodeModel {
    Char(char),
    Enter,
    Esc,
    Tab,
    Backspace,
    Up,
    Down,
    Left,
    Right,
    PageDown,
    PageUp,
    Other(Text),
}

/// Model of [`KeyEvent`].
pub struct KeyModel {
    pub code: KeyCodeModel,
    pub control: bool,
    pub alt: bool,
    pub command: bool,
}

/// Model of [`Trigger`].
pub enum TriggerModel {
    Key(KeyCodeModel),
    Ctrl(char),
    Super(char),
}

/// Model of [`KeyBinding`].
pub struct BindingModel {
    pub mode: ModeKind,
    pub triggers: Seq<TriggerModel>,
    pub action: Action,
    pub help: Text,
}

impl DeepView for KeyCode {
    type V = KeyCodeModel;

    open spec fn deep_view(&self) -> KeyCodeModel {
        match self {
            KeyCode::Char(c) => KeyCodeModel::Char(*c),
            KeyCode::Enter => KeyCodeModel::Enter,
            KeyCode::Esc => KeyCodeModel::Esc,
            KeyCode::Tab => KeyCodeModel::Tab,
            KeyCode::Backspace => KeyCodeModel::Backspace,
            KeyCode::Up => KeyCodeModel::Up,
            KeyCode::Down => KeyCodeModel::Down,
            KeyCode::Left => KeyCodeModel::Left,
            KeyCode::Right => KeyCodeModel::Right,
            KeyCode::PageDown => KeyCodeModel::PageDown,
            KeyCode::PageUp => KeyCodeModel::PageUp,
            KeyCode::Other(s) => KeyCodeModel::Other(s@),
        }
    }
}

impl DeepView for KeyEvent {
    type V = KeyModel;

    open spec fn deep_view(&self) -> KeyModel {
        KeyModel { code: self.code.deep_view(), control: self.control, alt: self.alt, command: self.command }
    }
}

impl DeepView for Trigger {
    type V = TriggerModel;

    open spec fn deep_view(&self) -> TriggerModel {
        match self {
            Trigger::Key(k) => TriggerModel::Key(k.deep_view()),
            Trigger::Ctrl(c) => TriggerModel::Ctrl(*c),
            Trigger::Super(c) => TriggerModel::Super(*c),
        }
    }
}

impl DeepView for KeyBinding {
    type V = BindingModel;

    open spec fn deep_view(&self) -> BindingModel {
        BindingModel {
            mode: self.mode,
            triggers: self.triggers.deep_view(),
            action: self.action,
            help: self.help@,
        }
    }
}

fn same_key(a: &KeyCode, b: &KeyCode) -> (r: bool)
    ensures
        r == (a.deep_view() == b.deep_view()),
{
    match (a, b) {
        (KeyCode::Char(x), KeyCode::Char(y)) => *x == *y,
        (KeyCode::Enter, KeyCode::Enter) => true,
        (KeyCode::Esc, KeyCode::Esc) => true,
        (KeyCode::Tab, KeyCode::Tab) => true,
        (KeyCode::Backspace, KeyCode::Backspace) => true,
        (KeyCode::Up, KeyCode::Up) => true,
        (KeyCode::Down, KeyCode::Down) => true,
        (KeyCode::Left, KeyCode::Left) => true,
        (KeyCode::Right, KeyCode::Right) => true,
        (KeyCode::PageDown, KeyCode::PageDown) => true,
        (KeyCode::PageUp, KeyCode::PageUp) => true,
        (KeyCode::Other(x), KeyCode::Other(y)) => str_eq(x.as_str(), y.as_str()),
        _ => false,
    }
}

/// A key press without Ctrl, Alt and Cmd. Shift is not looked at: a capital
/// letter is a character of its own.
pub open spec fn unmodified(k: KeyModel) -> bool {
    !k.control && !k.alt && !k.command
}

/// Whether a key press fires a trigger.
pub open spec fn fires(t: TriggerModel, k: KeyModel) -> bool {
    match t {
        TriggerModel::Key(code) => k.code == code && unmodified(k),
        TriggerModel::Ctrl(c) => k.control && k.code == KeyCodeModel::Char(c),
        TriggerModel::Super(c) => k.command && k.code == KeyCodeModel::Char(c),
    }
}

/// The name of a trigger in the help.
pub open spec fn label_of(t: TriggerModel) -> Text {
    match t {
        TriggerModel::Ctrl(c) => "Ctrl-"@.push(c),
        TriggerModel::Super(c) => "Cmd-"@.push(c),
        TriggerModel::Key(code) => match code {
            KeyCodeModel::Char(c) => if c == ' ' {
                "Space"@
            } else {
                seq![c]
            },
            KeyCodeModel::Enter => "Enter"@,
            KeyCodeModel::Esc => "Esc"@,
            KeyCodeModel::Tab => "Tab"@,
            KeyCodeModel::Backspace => "Bksp"@,
            KeyCodeModel::Up => "Up"@,
            KeyCodeModel::Down => "Down"@,
            KeyCodeModel::Left => "Left"@,
            KeyCodeModel::Right => "Right"@,
            KeyCodeModel::PageDown => "PgDn"@,
            KeyCodeModel::PageUp => "PgUp"@,
            KeyCodeModel::Other(s) => s,
        },
    }
}

/// The names of all triggers of a binding, separated by `/`.
pub open spec fn keys_label(triggers: Seq<TriggerModel>) -> Text {
    joined(triggers.map_values(|t: TriggerModel| label_of(t)), "/"@)
}

impl Trigger {
    /// Whether a key press fires the trigger.
    pub fn matches(&self, key: &KeyEvent) -> (r: bool)
        ensures
            r == fires(self.deep_view(), key.deep_view()),
    {
        match self {
            Trigger::Key(code) => same_key(&key.code, code) && !key.control && !key.alt && !key.command,
            Trigger::Ctrl(c) => key.control && same_key(&key.code, &KeyCode::Char(*c)),
            Trigger::Super(c) => key.command && same_key(&key.code, &KeyCode::Char(*c)),
        }
    }

    /// The name of the trigger in the help.
    pub fn label(&self) -> (r: String)
        ensures
            r@ == label_of(self.deep_view()),
    {
        match self {
            Trigger::Ctrl(c) => {
                let mut s = "Ctrl-".to_owned();
                s.push(*c);
                s
            },
            Trigger::Super(c) => {
                let mut s = "Cmd-".to_owned();
                s.push(*c);
                s
            },
            Trigger::Key(code) => match code {
                KeyCode::Char(c) => if *c == ' ' {
                    "Space".to_owned()
                } else {
                    let mut s = String::new();
                    s.push(*c);
                    assert(s@ =~= seq![*c]);
                    s
                },
                KeyCode::Enter => "Enter".to_owned(),
                KeyCode::Esc => "Esc".to_owned(),
                KeyCode::Tab => "Tab".to_owned(),
                KeyCode::Backspace => "Bksp".to_owned(),
                KeyCode::Up => "Up".to_owned(),
                KeyCode::Down => "Down".to_owned(),
                KeyCode::Left => "Left".to_owned(),
                KeyCode::Right => "Right".to_owned(),
                KeyCode::PageDown => "PgDn".to_owned(),
                KeyCode::PageUp => "PgUp".to_owned(),
                KeyCode::Other(s) => s.clone(),
            },
        }
    }
}

impl KeyBinding {
    /// The names of the triggers, separated by `/`.
    pub fn key_label(&self) -> (r: String)
        ensures
            r@ == keys_label(self.deep_view().triggers),
    {
        let mut names: Vec<String> = Vec::new();
        let mut i: usize = 0;
        while i < self.triggers.len()
            invariant
                i <= self.triggers@.len(),
                names@.len() == i,
                forall|j: int| 0 <= j < i ==> (#[trigger] names@[j])@ == label_of(self.triggers@[j].deep_view()),
            decreases self.triggers@.len() - i,
        {
            names.push(self.triggers[i].label());
            i = i + 1;
        }
        proof {
            assert(names.deep_view() =~= self.deep_view().triggers.map_values(|t: TriggerModel| label_of(t)));
            assert(names.deep_view().skip(0) =~= names.deep_view());
        }
        join_from(&names, 0, "/")
    }
}

// ---- the table ----

pub open spec fn row(mode: ModeKind, triggers: Seq<TriggerModel>, action: Action, help: Text) -> BindingModel {
    BindingModel { mode, triggers, action, help }
}

pub open spec fn key(code: KeyCodeModel) -> TriggerModel {
    TriggerModel::Key(code)
}

pub open spec fn ch(c: char) -> TriggerModel {
    TriggerModel::Key(KeyCodeModel::Char(c))
}

/// The bindings of the selection mode.
pub open spec fn selection_rows() -> Seq<BindingModel> {
    seq![
        row(ModeKind::Selection, seq![ch('j'), key(KeyCodeModel::Down)], Action::MoveDown, "down (list / lineage cursor)"@),
        row(ModeKind::Selection, seq![ch('k'), key(KeyCodeModel::Up)], Action::MoveUp, "up (list / lineage cursor)"@),
        row(ModeKind::Selection, seq![ch('h'), key(KeyCodeModel::Left)], Action::MoveLeft, "lineage cursor left (upstream)"@),
        row(ModeKind::Selection, seq![ch('l'), key(KeyCodeModel::Right)], Action::MoveRight, "lineage cursor right (downstream)"@),
        row(ModeKind::Selection, seq![ch('g')], Action::JumpTop, "jump to first model (list)"@),
        row(ModeKind::Selection, seq![ch('G')], Action::JumpBottom, "jump to last model (list)"@),
        row(ModeKind::Selection, seq![key(KeyCodeModel::Tab)], Action::ToggleFocus, "switch list / lineage focus"@),
        row(ModeKind::Selection, seq![TriggerModel::Super('b'), TriggerModel::Ctrl('b')], Action::ToggleListPane, "show / hide the model list pane"@),
        row(ModeKind::Selection, seq![key(KeyCodeModel::Enter)], Action::DetailOpen, "open structure / re-root to cursor"@),
        row(ModeKind::Selection, seq![ch('/')], Action::SearchOpen, "search (list filter / lineage jump)"@),
        row(ModeKind::Selection, seq![ch('?')], Action::HelpToggle, "toggle this help"@),
        row(ModeKind::Selection, seq![ch('o')], Action::OpenEditor, "open SQL in $EDITOR"@),
        row(ModeKind::Selection, seq![ch('y')], Action::YankId, "copy unique_id"@),
        row(ModeKind::Selection, seq![ch('Y')], Action::YankName, "copy model name"@),
        row(ModeKind::Selection, seq![ch('m')], Action::YankMermaid, "copy lineage as Mermaid"@),
        row(ModeKind::Selection, seq![ch('x')], Action::YankDot, "copy lineage as Graphviz DOT"@),
        row(ModeKind::Selection, seq![ch('r')], Action::Reload, "reload manifest"@),
        row(ModeKind::Selection, seq![ch('z')], Action::Recenter, "cursor home + re-center lineage"@),
        row(ModeKind::Selection, seq![ch('u')], Action::ToggleUpstream, "toggle upstream side"@),
        row(ModeKind::Selection, seq![ch('d')], Action::ToggleDownstream, "toggle downstream side"@),
        row(ModeKind::Selection, seq![ch('[')], Action::DepthDecrease, "limit lineage depth (-)"@),
        row(ModeKind::Selection, seq![ch(']')], Action::DepthIncrease, "widen lineage depth (+)"@),
        row(ModeKind::Selection, seq![ch('0')], Action::ResetView, "reset lineage view"@),
        row(ModeKind::Selection, seq![ch('b')], Action::HistoryBack, "jump back (re-root history)"@),
        row(ModeKind::Selection, seq![ch('f')], Action::HistoryForward, "jump forward (re-root history)"@),
        row(ModeKind::Selection, seq![ch('q'), TriggerModel::Ctrl('c')], Action::Quit, "quit"@),
        row(ModeKind::Selection, seq![ch('s')], Action::SqlOpen, "preview SQL"@),
        row(ModeKind::Selection, seq![ch('S')], Action::StatsOpen, "stats dashboard"@),
        row(ModeKind::Selection, seq![ch('t')], Action::CycleLens, "cycle lineage lens"@),
        row(ModeKind::Selection, seq![ch(' ')], Action::BookmarkToggle, "toggle bookmark"@),
        row(ModeKind::Selection, seq![ch('\'')], Action::BookmarkCycle, "cycle bookmarks"@),
        row(ModeKind::Selection, seq![ch('.')], Action::SortCycle, "cycle list sort"@),
        row(ModeKind::Selection, seq![ch('M')], Action::ToggleMinimap, "toggle minimap"@),
        row(ModeKind::Selection, seq![ch('v')], Action::ToggleDensity, "toggle compact lineage"@),
        row(ModeKind::Selection, seq![TriggerModel::Ctrl('p'), TriggerModel::Super('p')], Action::PaletteOpen, "command palette"@),
        row(ModeKind::Selection, seq![ch('c')], Action::YankAscii, "copy lineage as text diagram"@),
        row(ModeKind::Selection, seq![ch('C')], Action::YankSql, "copy raw SQL"@),
        row(ModeKind::Selection, seq![ch('i')], Action::YankImpact, "copy impact report (Markdown)"@),
        row(ModeKind::Selection, seq![ch('e')], Action::ExportLineage, "export lineage to <name>_lineage.txt"@),
        row(ModeKind::Selection, seq![key(KeyCodeModel::PageDown), TriggerModel::Ctrl('d')], Action::PageDown, "page down (list)"@),
        row(ModeKind::Selection, seq![key(KeyCodeModel::PageUp), TriggerModel::Ctrl('u')], Action::PageUp, "page up (list)"@),
        row(ModeKind::Selection, seq![ch('n')], Action::GapNext, "next untested model"@),
        row(ModeKind::Selection, seq![ch('N')], Action::GapPrev, "previous untested model"@),
        row(ModeKind::Selection, seq![ch('"')], Action::BookmarkCycleBack, "cycle bookmarks backward"@),
        row(ModeKind::Selection, seq![ch('H')], Action::LineageLeftmost, "lineage cursor to first column"@),
        row(ModeKind::Selection, seq![ch('L')], Action::LineageRightmost, "lineage cursor to last column"@),
        row(ModeKind::Selection, seq![ch('T')], Action::ToggleUntestedFilter, "filter list: untested only"@),
        row(ModeKind::Selection, seq![ch('*')], Action::ToggleBookmarkFilter, "filter list: bookmarked only"@),
        row(ModeKind::Selection, seq![ch('P')], Action::DbtParse, "run dbt parse (build manifest)"@),
        row(ModeKind::Selection, seq![TriggerModel::Ctrl('t')], Action::ThemeCycle, "cycle color theme"@),
        row(ModeKind::Selection, seq![ch('D')], Action::DiffOpen, "diff vs baseline (--diff)"@),
    ]
}

/// The bindings of the search mode; printable characters are text there.
pub open spec fn search_rows() -> Seq<BindingModel> {
    seq![
        row(ModeKind::Search, seq![key(KeyCodeModel::Esc)], Action::SearchCancel, "cancel search"@),
        row(ModeKind::Search, seq![key(KeyCodeModel::Enter)], Action::SearchConfirm, "confirm"@),
        row(ModeKind::Search, seq![key(KeyCodeModel::Backspace)], Action::SearchBackspace, "delete char"@),
        row(ModeKind::Search, seq![key(KeyCodeModel::Up)], Action::SearchMove(Direction::Up), "previous match"@),
        row(ModeKind::Search, seq![key(KeyCodeModel::Down)], Action::SearchMove(Direction::Down), "next match"@),
    ]
}

/// The bindings of the command palette; printable characters are text there.
pub open spec fn palette_rows() -> Seq<BindingModel> {
    seq![
        row(ModeKind::Palette, seq![key(KeyCodeModel::Esc)], Action::SearchCancel, "close palette"@),
        row(ModeKind::Palette, seq![key(KeyCodeModel::Enter)], Action::SearchConfirm, "run command"@),
        row(ModeKind::Palette, seq![key(KeyCodeModel::Backspace)], Action::SearchBackspace, "delete char"@),
        row(ModeKind::Palette, seq![key(KeyCodeModel::Up)], Action::SearchMove(Direction::Up), "prev command"@),
        row(ModeKind::Palette, seq![key(KeyCodeModel::Down)], Action::SearchMove(Direction::Down), "next command"@),
    ]
}

/// The bindings of a scrollable modal.
pub open spec fn modal_rows(mode: ModeKind) -> Seq<BindingModel> {
    seq![
        row(mode, seq![key(KeyCodeModel::Esc), key(KeyCodeModel::Enter), ch('q')], Action::DetailClose, "close"@),
        row(mode, seq![ch('j'), key(KeyCodeModel::Down)], Action::DetailScroll(Direction::Down), "scroll down"@),
        row(mode, seq![ch('k'), key(KeyCodeModel::Up)], Action::DetailScroll(Direction::Up), "scroll up"@),
        row(mode, seq![ch('d'), key(KeyCodeModel::PageDown), TriggerModel::Ctrl('d')], Action::DetailScrollPage(Direction::Down), "page down"@),
        row(mode, seq![ch('u'), key(KeyCodeModel::PageUp), TriggerModel::Ctrl('u')], Action::DetailScrollPage(Direction::Up), "page up"@),
        row(mode, seq![ch('g')], Action::DetailScrollHome, "jump to top"@),
        row(mode, seq![ch('G')], Action::DetailScrollEnd, "jump to bottom"@),
    ]
}

/// The bindings of the help overlay.
pub open spec fn help_rows() -> Seq<BindingModel> {
    seq![
        row(ModeKind::Help, seq![key(KeyCodeModel::Esc), ch('?'), ch('q')], Action::HelpToggle, "close help"@),
        row(ModeKind::Help, seq![ch('j'), key(KeyCodeModel::Down)], Action::DetailScroll(Direction::Down), "scroll down"@),
        row(ModeKind::Help, seq![ch('k'), key(KeyCodeModel::Up)], Action::DetailScroll(Direction::Up), "scroll up"@),
        row(ModeKind::Help, seq![ch('d'), key(KeyCodeModel::PageDown), TriggerModel::Ctrl('d')], Action::DetailScrollPage(Direction::Down), "page down"@),
        row(ModeKind::Help, seq![ch('u'), key(KeyCodeModel::PageUp), TriggerModel::Ctrl('u')], Action::DetailScrollPage(Direction::Up), "page up"@),
        row(ModeKind::Help, seq![ch('g')], Action::DetailScrollHome, "jump to top"@),
        row(ModeKind::Help, seq![ch('G')], Action::DetailScrollEnd, "jump to bottom"@),
    ]
}


/// The whole binding table.
pub open spec fn binding_table() -> Seq<BindingModel> {
    selection_rows() + search_rows() + palette_rows() + modal_rows(ModeKind::Detail) + modal_rows(ModeKind::Sql)
        + modal_rows(ModeKind::Stats) + modal_rows(ModeKind::Diff) + help_rows()
}

fn bind(v: &mut Vec<KeyBinding>, mode: ModeKind, triggers: Vec<Trigger>, action: Action, help: &'static str)
    ensures
        final(v).deep_view() == old(v).deep_view().push(row(mode, triggers.deep_view(), action, help@)),
{
    let ghost before = v.deep_view();
    let b = KeyBinding { mode, triggers, action, help };
    let ghost bv = b.deep_view();
    v.push(b);
    assert(v.deep_view() =~= before.push(bv));
}

fn bind1(v: &mut Vec<KeyBinding>, mode: ModeKind, a: Trigger, action: Action, help: &'static str)
    ensures
        final(v).deep_view() == old(v).deep_view().push(row(mode, seq![a.deep_view()], action, help@)),
{
    let ghost av = a.deep_view();
    let mut t: Vec<Trigger> = Vec::new();
    t.push(a);
    assert(t.deep_view() =~= seq![av]);
    bind(v, mode, t, action, help);
}

fn bind2(v: &mut Vec<KeyBinding>, mode: ModeKind, a: Trigger, b: Trigger, action: Action, help: &'static str)
    ensures
        final(v).deep_view() == old(v).deep_view().push(row(mode, seq![a.deep_view(), b.deep_view()], action, help@)),
{
    let ghost av = a.deep_view();
    let ghost bv = b.deep_view();
    let mut t: Vec<Trigger> = Vec::new();
    t.push(a);
    t.push(b);
    assert(t.deep_view() =~= seq![av, bv]);
    bind(v, mode, t, action, help);
}

fn bind3(v: &mut Vec<KeyBinding>, mode: ModeKind, a: Trigger, b: Trigger, c: Trigger, action: Action, help: &'static str)
    ensures
        final(v).deep_view() == old(v).deep_view().push(
            row(mode, seq![a.deep_view(), b.deep_view(), c.deep_view()], action, help@),
        ),
{
    let ghost av = a.deep_view();
    let ghost bv = b.deep_view();
    let ghost cv = c.deep_view();
    let mut t: Vec<Trigger> = Vec::new();
    t.push(a);
    t.push(b);
    t.push(c);
    assert(t.deep_view() =~= seq![av, bv, cv]);
    bind(v, mode, t, action, help);
}

#[verifier::rlimit(60)]
#[verifier::spinoff_prover]
fn selection_bindings() -> (r: Vec<KeyBinding>)
    ensures
        r.deep_view() == selection_rows(),
{
    let mut v: Vec<KeyBinding> = Vec::new();
    assert(v.deep_view() =~= Seq::empty());
    bind2(&mut v, ModeKind::Selection, Trigger::Key(KeyCode::Char('j')), Trigger::Key(KeyCode::Down), Action::MoveDown, "down (list / lineage cursor)");
    bind2(&mut v, ModeKind::Selection, Trigger::Key(KeyCode::Char('k')), Trigger::Key(KeyCode::Up), Action::MoveUp, "up (list / lineage cursor)");
    bind2(&mut v, ModeKind::Selection, Trigger::Key(KeyCode::Char('h')), Trigger::Key(KeyCode::Left), Action::MoveLeft, "lineage cursor left (upstream)");
    bind2(&mut v, ModeKind::Selection, Trigger::Key(KeyCode::Char('l')), Trigger::Key(KeyCode::Right), Action::MoveRight, "lineage cursor right (downstream)");
    bind1(&mut v, ModeKind::Selection, Trigger::Key(KeyCode::Char('g')), Action::JumpTop, "jump to first model (list)");
    bind1(&mut v, ModeKind::Selection, Trigger::Key(KeyCode::Char('G')), Action::JumpBottom, "jump to last model (list)");
    bind1(&mut v, ModeKind::Selection, Trigger::Key(KeyCode::Tab), Action::ToggleFocus, "switch list / lineage focus");
    bind2(&mut v, ModeKind::Selection, Trigger::Super('b'), Trigger::Ctrl('b'), Action::ToggleListPane, "show / hide the model list pane");
    bind1(&mut v, ModeKind::Selection, Trigger::Key(KeyCode::Enter), Action::DetailOpen, "open structure / re-root to cursor");
    bind1(&mut v, ModeKind::Selection, Trigger::Key(KeyCode::Char('/')), Action::SearchOpen, "search (list filter / lineage jump)");
    bind1(&mut v, ModeKind::Selection, Trigger::Key(KeyCode::Char('?')), Action::HelpToggle, "toggle this help");
    bind1(&mut v, ModeKind::Selection, Trigger::Key(KeyCode::Char('o')), Action::OpenEditor, "open SQL in $EDITOR");
    bind1(&mut v, ModeKind::Selection, Trigger::Key(KeyCode::Char('y')), Action::YankId, "copy unique_id");
    bind1(&mut v, ModeKind::Selection, Trigger::Key(KeyCode::Char('Y')), Action::YankName, "copy model name");
    bind1(&mut v, ModeKind::Selection, Trigger::Key(KeyCode::Char('m')), Action::YankMermaid, "copy lineage as Mermaid");
    bind1(&mut v, ModeKind::Selection, Trigger::Key(KeyCode::Char('x')), Action::YankDot, "copy lineage as Graphviz DOT");
    bind1(&mut v, ModeKind::Selection, Trigger::Key(KeyCode::Char('r')), Action::Reload, "reload manifest");
    bind1(&mut v, ModeKind::Selection, Trigger::Key(KeyCode::Char('z')), Action::Recenter, "cursor home + re-center lineage");
    bind1(&mut v, ModeKind::Selection, Trigger::Key(KeyCode::Char('u')), Action::ToggleUpstream, "toggle upstream side");
    bind1(&mut v, ModeKind::Selection, Trigger::Key(KeyCode::Char('d')), Action::ToggleDownstream, "toggle downstream side");
    bind1(&mut v, ModeKind::Selection, Trigger::Key(KeyCode::Char('[')), Action::DepthDecrease, "limit lineage depth (-)");
    bind1(&mut v, ModeKind::Selection, Trigger::Key(KeyCode::Char(']')), Action::DepthIncrease, "widen lineage depth (+)");
    bind1(&mut v, ModeKind::Selection, Trigger::Key(KeyCode::Char('0')), Action::ResetView, "reset lineage view");
    bind1(&mut v, ModeKind::Selection, Trigger::Key(KeyCode::Char('b')), Action::HistoryBack, "jump back (re-root history)");
    bind1(&mut v, ModeKind::Selection, Trigger::Key(KeyCode::Char('f')), Action::HistoryForward, "jump forward (re-root history)");
    bind2(&mut v, ModeKind::Selection, Trigger::Key(KeyCode::Char('q')), Trigger::Ctrl('c'), Action::Quit, "quit");
    bind1(&mut v, ModeKind::Selection, Trigger::Key(KeyCode::Char('s')), Action::SqlOpen, "preview SQL");
    bind1(&mut v, ModeKind::Selection, Trigger::Key(KeyCode::Char('S')), Action::StatsOpen, "stats dashboard");
    bind1(&mut v, ModeKind::Selection, Trigger::Key(KeyCode::Char('t')), Action::CycleLens, "cycle lineage lens");
    bind1(&mut v, ModeKind::Selection, Trigger::Key(KeyCode::Char(' ')), Action::BookmarkToggle, "toggle bookmark");
    bind1(&mut v, ModeKind::Selection, Trigger::Key(KeyCode::Char('\'')), Action::BookmarkCycle, "cycle bookmarks");
    bind1(&mut v, ModeKind::Selection, Trigger::Key(KeyCode::Char('.')), Action::SortCycle, "cycle list sort");
    bind1(&mut v, ModeKind::Selection, Trigger::Key(KeyCode::Char('M')), Action::ToggleMinimap, "toggle minimap");
    bind1(&mut v, ModeKind::Selection, Trigger::Key(KeyCode::Char('v')), Action::ToggleDensity, "toggle compact lineage");
    bind2(&mut v, ModeKind::Selection, Trigger::Ctrl('p'), Trigger::Super('p'), Action::PaletteOpen, "command palette");
    bind1(&mut v, ModeKind::Selection, Trigger::Key(KeyCode::Char('c')), Action::YankAscii, "copy lineage as text diagram");
    bind1(&mut v, ModeKind::Selection, Trigger::Key(KeyCode::Char('C')), Action::YankSql, "copy raw SQL");
    bind1(&mut v, ModeKind::Selection, Trigger::Key(KeyCode::Char('i')), Action::YankImpact, "copy impact report (Markdown)");
    bind1(&mut v, ModeKind::Selection, Trigger::Key(KeyCode::Char('e')), Action::ExportLineage, "export lineage to <name>_lineage.txt");
    bind2(&mut v, ModeKind::Selection, Trigger::Key(KeyCode::PageDown), Trigger::Ctrl('d'), Action::PageDown, "page down (list)");
    bind2(&mut v, ModeKind::Selection, Trigger::Key(KeyCode::PageUp), Trigger::Ctrl('u'), Action::PageUp, "page up (list)");
    bind1(&mut v, ModeKind::Selection, Trigger::Key(KeyCode::Char('n')), Action::GapNext, "next untested model");
    bind1(&mut v, ModeKind::Selection, Trigger::Key(KeyCode::Char('N')), Action::GapPrev, "previous untested model");
    bind1(&mut v, ModeKind::Selection, Trigger::Key(KeyCode::Char('"')), Action::BookmarkCycleBack, "cycle bookmarks backward");
    bind1(&mut v, ModeKind::Selection, Trigger::Key(KeyCode::Char('H')), Action::LineageLeftmost, "lineage cursor to first column");
    bind1(&mut v, ModeKind::Selection, Trigger::Key(KeyCode::Char('L')), Action::LineageRightmost, "lineage cursor to last column");
    bind1(&mut v, ModeKind::Selection, Trigger::Key(KeyCode::Char('T')), Action::ToggleUntestedFilter, "filter list: untested only");
    bind1(&mut v, ModeKind::Selection, Trigger::Key(KeyCode::Char('*')), Action::ToggleBookmarkFilter, "filter list: bookmarked only");
    bind1(&mut v, ModeKind::Selection, Trigger::Key(KeyCode::Char('P')), Action::DbtParse, "run dbt parse (build manifest)");
    bind1(&mut v, ModeKind::Selection, Trigger::Ctrl('t'), Action::ThemeCycle, "cycle color theme");
    bind1(&mut v, ModeKind::Selection, Trigger::Key(KeyCode::Char('D')), Action::DiffOpen, "diff vs baseline (--diff)");
    v
}

fn search_bindings() -> (r: Vec<KeyBinding>)
    ensures
        r.deep_view() == search_rows(),
{
    let mut v: Vec<KeyBinding> = Vec::new();
    assert(v.deep_view() =~= Seq::empty());
    bind1(&mut v, ModeKind::Search, Trigger::Key(KeyCode::Esc), Action::SearchCancel, "cancel search");
    bind1(&mut v, ModeKind::Search, Trigger::Key(KeyCode::Enter), Action::SearchConfirm, "confirm");
    bind1(&mut v, ModeKind::Search, Trigger::Key(KeyCode::Backspace), Action::SearchBackspace, "delete char");
    bind1(&mut v, ModeKind::Search, Trigger::Key(KeyCode::Up), Action::SearchMove(Direction::Up), "previous match");
    bind1(&mut v, ModeKind::Search, Trigger::Key(KeyCode::Down), Action::SearchMove(Direction::Down), "next match");
    v
}

fn palette_bindings() -> (r: Vec<KeyBinding>)
    ensures
        r.deep_view() == palette_rows(),
{
    let mut v: Vec<KeyBinding> = Vec::new();
    assert(v.deep_view() =~= Seq::empty());
    bind1(&mut v, ModeKind::Palette, Trigger::Key(KeyCode::Esc), Action::SearchCancel, "close palette");
    bind1(&mut v, ModeKind::Palette, Trigger::Key(KeyCode::Enter), Action::SearchConfirm, "run command");
    bind1(&mut v, ModeKind::Palette, Trigger::Key(KeyCode::Backspace), Action::SearchBackspace, "delete char");
    bind1(&mut v, ModeKind::Palette, Trigger::Key(KeyCode::Up), Action::SearchMove(Direction::Up), "prev command");
    bind1(&mut v, ModeKind::Palette, Trigger::Key(KeyCode::Down), Action::SearchMove(Direction::Down), "next command");
    v
}

fn modal_bindings(mode: ModeKind) -> (r: Vec<KeyBinding>)
    ensures
        r.deep_view() == modal_rows(mode),
{
    let mut v: Vec<KeyBinding> = Vec::new();
    assert(v.deep_view() =~= Seq::empty());
    bind3(&mut v, mode, Trigger::Key(KeyCode::Esc), Trigger::Key(KeyCode::Enter), Trigger::Key(KeyCode::Char('q')), Action::DetailClose, "close");
    bind2(&mut v, mode, Trigger::Key(KeyCode::Char('j')), Trigger::Key(KeyCode::Down), Action::DetailScroll(Direction::Down), "scroll down");
    bind2(&mut v, mode, Trigger::Key(KeyCode::Char('k')), Trigger::Key(KeyCode::Up), Action::DetailScroll(Direction::Up), "scroll up");
    bind3(&mut v, mode, Trigger::Key(KeyCode::Char('d')), Trigger::Key(KeyCode::PageDown), Trigger::Ctrl('d'), Action::DetailScrollPage(Direction::Down), "page down");
    bind3(&mut v, mode, Trigger::Key(KeyCode::Char('u')), Trigger::Key(KeyCode::PageUp), Trigger::Ctrl('u'), Action::DetailScrollPage(Direction::Up), "page up");
    bind1(&mut v, mode, Trigger::Key(KeyCode::Char('g')), Action::DetailScrollHome, "jump to top");
    bind1(&mut v, mode, Trigger::Key(KeyCode::Char('G')), Action::DetailScrollEnd, "jump to bottom");
    v
}

fn help_bindings() -> (r: Vec<KeyBinding>)
    ensures
        r.deep_view() == help_rows(),
{
    let mut v: Vec<KeyBinding> = Vec::new();
    assert(v.deep_view() =~= Seq::empty());
    bind3(&mut v, ModeKind::Help, Trigger::Key(KeyCode::Esc), Trigger::Key(KeyCode::Char('?')), Trigger::Key(KeyCode::Char('q')), Action::HelpToggle, "close help");
    bind2(&mut v, ModeKind::Help, Trigger::Key(KeyCode::Char('j')), Trigger::Key(KeyCode::Down), Action::DetailScroll(Direction::Down), "scroll down");
    bind2(&mut v, ModeKind::Help, Trigger::Key(KeyCode::Char('k')), Trigger::Key(KeyCode::Up), Action::DetailScroll(Direction::Up), "scroll up");
    bind3(&mut v, ModeKind::Help, Trigger::Key(KeyCode::Char('d')), Trigger::Key(KeyCode::PageDown), Trigger::Ctrl('d'), Action::DetailScrollPage(Direction::Down), "page down");
    bind3(&mut v, ModeKind::Help, Trigger::Key(KeyCode::Char('u')), Trigger::Key(KeyCode::PageUp), Trigger::Ctrl('u'), Action::DetailScrollPage(Direction::Up), "page up");
    bind1(&mut v, ModeKind::Help, Trigger::Key(KeyCode::Char('g')), Action::DetailScrollHome, "jump to top");
    bind1(&mut v, ModeKind::Help, Trigger::Key(KeyCode::Char('G')), Action::DetailScrollEnd, "jump to bottom");
    v
}


fn extend(v: &mut Vec<KeyBinding>, more: Vec<KeyBinding>)
    ensures
        final(v).deep_view() == old(v).deep_view() + more.deep_view(),
{
    let ghost a = v.deep_view();
    let ghost b = more.deep_view();
    let mut more = more;
    v.append(&mut more);
    assert(v.deep_view() =~= a + b);
}

/// The binding table: the one source of dispatch, help and palette.
pub fn bindings() -> (r: Vec<KeyBinding>)
    ensures
        r.deep_view() == binding_table(),
{
    let mut v = selection_bindings();
    extend(&mut v, search_bindings());
    extend(&mut v, palette_bindings());
    extend(&mut v, modal_bindings(ModeKind::Detail));
    extend(&mut v, modal_bindings(ModeKind::Sql));
    extend(&mut v, modal_bindings(ModeKind::Stats));
    extend(&mut v, modal_bindings(ModeKind::Diff));
    extend(&mut v, help_bindings());
    v
}

// ---- dispatch ----

/// A binding of this mode that the key press fires.
pub open spec fn hits(b: BindingModel, mode: ModeKind, k: KeyModel) -> bool {
    b.mode == mode && exists|i: int| 0 <= i < b.triggers.len() && fires(#[trigger] b.triggers[i], k)
}

/// The action of the first binding that a key press fires in a mode.
pub open spec fn first_hit(table: Seq<BindingModel>, mode: ModeKind, k: KeyModel) -> Option<Action>
    decreases table.len(),
{
    if table.len() == 0 {
        None
    } else if hits(table[0], mode, k) {
        Some(table[0].action)
    } else {
        first_hit(table.drop_first(), mode, k)
    }
}

/// Modes in which printable characters edit a query.
pub open spec fn takes_text(mode: ModeKind) -> bool {
    mode == ModeKind::Search || mode == ModeKind::Palette
}

/// What a key press means in a mode: Ctrl-C quits; else the first binding that
/// it fires; else, in a text mode, an unmodified character is typed.
pub open spec fn meaning(mode: ModeKind, k: KeyModel) -> Option<Action> {
    if k.control && k.code == KeyCodeModel::Char('c') {
        Some(Action::Quit)
    } else {
        match first_hit(binding_table(), mode, k) {
            Some(a) => Some(a),
            None => match k.code {
                KeyCodeModel::Char(c) => if takes_text(mode) && unmodified(k) {
                    Some(Action::SearchType(c))
                } else {
                    None
                },
                _ => None,
            },
        }
    }
}

fn is_hit(b: &KeyBinding, mode: ModeKind, key: &KeyEvent) -> (r: bool)
    ensures
        r == hits(b.deep_view(), mode, key.deep_view()),
{
    if b.mode != mode {
        return false;
    }
    let ghost k = key.deep_view();
    let ghost ts = b.deep_view().triggers;
    let mut i: usize = 0;
    while i < b.triggers.len()
        invariant
            i <= b.triggers@.len(),
            k == key.deep_view(),
            ts == b.triggers.deep_view(),
            b.mode == mode,
            forall|j: int| 0 <= j < i ==> !fires(#[trigger] ts[j], k),
        decreases b.triggers@.len() - i,
    {
        assert(ts[i as int] == b.triggers@[i as int].deep_view());
        if b.triggers[i].matches(key) {
            assert(fires(ts[i as int], k));
            assert(b.deep_view().triggers == ts);
            return true;
        }
        i = i + 1;
    }
    false
}

/// What a key press means in a mode; `None` where it means nothing.
pub fn dispatch(mode: &Mode, key: &KeyEvent) -> (r: Option<Action>)
    ensures
        r == meaning(kind_of(mode.deep_view()), key.deep_view()),
{
    if key.control && same_key(&key.code, &KeyCode::Char('c')) {
        return Some(Action::Quit);
    }
    let mk = mode.kind();
    let table = bindings();
    let ghost k = key.deep_view();
    let ghost all = table.deep_view();
    let mut i: usize = 0;
    assert(all.skip(0) =~= all);
    while i < table.len()
        invariant
            i <= table@.len(),
            all == table.deep_view(),
            k == key.deep_view(),
            first_hit(all, mk, k) == first_hit(all.skip(i as int), mk, k),
            all == binding_table(),
            mk == kind_of(mode.deep_view()),
            !(k.control && k.code == KeyCodeModel::Char('c')),
        decreases table@.len() - i,
    {
        assert(all.skip(i as int).drop_first() =~= all.skip(i + 1));
        assert(all[i as int] == table@[i as int].deep_view());
        if is_hit(&table[i], mk, key) {
            return Some(table[i].action);
        }
        i = i + 1;
    }
    if mk == ModeKind::Search || mk == ModeKind::Palette {
        if let KeyCode::Char(c) = &key.code {
            if !key.control && !key.alt && !key.command {
                return Some(Action::SearchType(*c));
            }
        }
    }
    None
}

// ---- help ----

/// One line of the help overlay.
#[derive(Debug, PartialEq, Eq)]
pub struct HelpLine {
    pub mode: ModeKind,
    pub keys: String,
    pub desc: String,
}

/// Model of [`HelpLine`].
pub struct HelpModel {
    pub mode: ModeKind,
    pub keys: Text,
    pub desc: Text,
}

impl DeepView for HelpLine {
    type V = HelpModel;

    open spec fn deep_view(&self) -> HelpModel {
        HelpModel { mode: self.mode, keys: self.keys@, desc: self.desc@ }
    }
}

/// The help for what has no fixed key: typed text and the mouse.
pub open spec fn dynamic_help() -> Seq<HelpModel> {
    seq![
        HelpModel { mode: ModeKind::Search, keys: "a-z.."@, desc: "type to filter / search"@ },
        HelpModel { mode: ModeKind::Selection, keys: "click"@, desc: "re-root / move cursor to a node"@ },
        HelpModel { mode: ModeKind::Selection, keys: "wheel"@, desc: "scroll the pane under the cursor"@ },
    ]
}

/// The help line of a binding.
pub open spec fn help_of(b: BindingModel) -> HelpModel {
    HelpModel { mode: b.mode, keys: keys_label(b.triggers), desc: b.help }
}

/// All help lines: one for each binding, in table order, then the dynamic ones.
pub open spec fn help_text() -> Seq<HelpModel> {
    binding_table().map_values(|b: BindingModel| help_of(b)) + dynamic_help()
}

fn help_line(lines: &mut Vec<HelpLine>, mode: ModeKind, keys: String, desc: &str)
    ensures
        final(lines).deep_view() == old(lines).deep_view().push(HelpModel { mode, keys: keys@, desc: desc@ }),
{
    let ghost before = lines.deep_view();
    let l = HelpLine { mode, keys, desc: desc.to_owned() };
    let ghost lv = l.deep_view();
    lines.push(l);
    assert(lines.deep_view() =~= before.push(lv));
}

/// All lines of the help overlay.
pub fn help_lines() -> (r: Vec<HelpLine>)
    ensures
        r.deep_view() == help_text(),
{
    let table = bindings();
    let ghost all = table.deep_view();
    let ghost f = |b: BindingModel| help_of(b);
    let mut lines: Vec<HelpLine> = Vec::new();
    let mut i: usize = 0;
    assert(lines.deep_view() =~= all.take(0).map_values(f));
    while i < table.len()
        invariant
            i <= table@.len(),
            all == table.deep_view(),
            f == (|b: BindingModel| help_of(b)),
            lines.deep_view() == all.take(i as int).map_values(f),
        decreases table@.len() - i,
    {
        assert(all[i as int] == table@[i as int].deep_view());
        assert(all.take(i + 1).map_values(f) =~= all.take(i as int).map_values(f).push(f(all[i as int])));
        help_line(&mut lines, table[i].mode, table[i].key_label(), table[i].help);
        i = i + 1;
    }
    assert(all.take(all.len() as int) =~= all);
    let ghost fixed = lines.deep_view();
    help_line(&mut lines, ModeKind::Search, "a-z..".to_owned(), "type to filter / search");
    help_line(&mut lines, ModeKind::Selection, "click".to_owned(), "re-root / move cursor to a node");
    help_line(&mut lines, ModeKind::Selection, "wheel".to_owned(), "scroll the pane under the cursor");
    assert(lines.deep_view() =~= fixed + dynamic_help());
    lines
}

// ---- the command palette ----

/// A text matches a query that is not empty.
pub open spec fn found_in(text: Text, query: Text) -> bool {
    query.len() > 0 && subsequence(query, text)
}

/// A binding is offered for a query: a command of the selection mode other than
/// opening the palette, whose help or keys match. A blank query offers all.
pub open spec fn offered(b: BindingModel, query: Text) -> bool {
    b.mode == ModeKind::Selection && b.action != Action::PaletteOpen && (trimmed(query).len() == 0 || found_in(b.help, query)
        || found_in(keys_label(b.triggers), query))
}

/// The commands offered for a query, in table order.
pub open spec fn offers(query: Text) -> Seq<BindingModel> {
    binding_table().filter(|b: BindingModel| offered(b, query))
}

/// The commands that the palette offers for a query, in table order.
pub fn palette_candidates(query: &str) -> (r: Vec<KeyBinding>)
    ensures
        r.deep_view() == offers(query@),
{
    let blank = trim(query).as_str().is_empty();
    let mut table = bindings();
    let ghost all = table.deep_view();
    let ghost p = |b: BindingModel| offered(b, query@);
    let n: usize = table.len();
    let mut rev: Vec<KeyBinding> = Vec::new();
    // Taken from the back, so that each binding can be moved.
    proof {
        reveal(Seq::filter);
        assert(all.skip(n as int).filter(p) =~= Seq::empty());
        assert(rev.deep_view().reverse() =~= Seq::empty());
        assert(table.deep_view() =~= all.take(n as int));
    }
    loop
        invariant
            p == (|b: BindingModel| offered(b, query@)),
            blank == (trimmed(query@).len() == 0),
            table@.len() <= all.len(),
            table.deep_view() == all.take(table@.len() as int),
            rev.deep_view().reverse() == all.skip(table@.len() as int).filter(p),
        ensures
            table@.len() == 0,
        decreases table@.len(),
    {
        let ghost n0 = table@.len();
        let ghost t0 = table.deep_view();
        let ghost r0 = rev.deep_view();
        match table.pop() {
            Some(b) => {
                let ghost bv = b.deep_view();
                proof {
                    assert(t0[n0 - 1] == bv);
                    assert(all[n0 - 1] == bv);
                    assert(table.deep_view() =~= all.take(n0 - 1));
                    assert(all.skip(n0 - 1) =~= seq![bv] + all.skip(n0 as int));
                    filter_front(bv, all.skip(n0 as int), p);
                }
                let keep = b.mode == ModeKind::Selection && b.action != Action::PaletteOpen && (blank || match_indices(
                    b.help,
                    query,
                ).len() > 0 || match_indices(b.key_label().as_str(), query).len() > 0);
                if keep {
                    rev.push(b);
                    proof {
                        assert(rev.deep_view() =~= r0.push(bv));
                        assert(r0.push(bv).reverse() =~= seq![bv] + r0.reverse());
                    }
                }
            },
            None => {
                break;
            },
        }
    }
    let mut out: Vec<KeyBinding> = Vec::new();
    let ghost rv = rev.deep_view();
    assert(rv.take(rv.len() as int) =~= rv);
    loop
        invariant
            rev@.len() + out@.len() == rv.len(),
            rev.deep_view() == rv.take(rev@.len() as int),
            forall|i: int| 0 <= i < out@.len() ==> #[trigger] out.deep_view()[i] == rv[rv.len() - 1 - i],
        ensures
            rev@.len() == 0,
        decreases rev@.len(),
    {
        let ghost n0 = rev@.len();
        let ghost r0 = rev.deep_view();
        match rev.pop() {
            Some(b) => {
                let ghost o0 = out.deep_view();
                let ghost bv = b.deep_view();
                proof {
                    assert(r0[n0 - 1] == bv);
                    assert(rev.deep_view() =~= rv.take(n0 - 1));
                }
                out.push(b);
                assert(out.deep_view() =~= o0.push(bv));
            },
            None => {
                break;
            },
        }
    }
    proof {
        assert(out.deep_view() =~= rv.reverse());
        assert(all.skip(0) =~= all);
    }
    out
}

proof fn filter_front<A>(x: A, s: Seq<A>, p: spec_fn(A) -> bool)
    ensures
        (seq![x] + s).filter(p) == (if p(x) { seq![x] } else { Seq::empty() }) + s.filter(p),
    decreases s.len(),
{
    reveal(Seq::filter);
    let head = if p(x) { seq![x] } else { Seq::<A>::empty() };
    if s.len() == 0 {
        assert((seq![x] + s).drop_last() =~= Seq::empty());
        assert((seq![x] + s).last() == x);
        assert((seq![x] + s).filter(p) =~= head + s.filter(p));
    } else {
        filter_front(x, s.drop_last(), p);
        assert((seq![x] + s).drop_last() =~= seq![x] + s.drop_last());
        assert((seq![x] + s).last() == s.last());
        if p(s.last()) {
            assert(head + s.drop_last().filter(p).push(s.last()) =~= (head + s.drop_last().filter(p)).push(s.last()));
        }
    }
}

// ---- laws ----

/// Ctrl-C quits in every mode, whatever else is held down.
pub proof fn ctrl_c_always_quits(mode: ModeKind, k: KeyModel)
    requires
        k.control,
        k.code == KeyCodeModel::Char('c'),
    ensures
        meaning(mode, k) == Some(Action::Quit),
{
}

/// Every binding has its line in the help, with the keys that fire it.
pub proof fn help_covers_every_binding(i: int)
    requires
        0 <= i < binding_table().len(),
    ensures
        help_text().contains(help_of(binding_table()[i])),
{
    assert(help_text()[i] == help_of(binding_table()[i]));
}

/// All bindings of a group belong to one mode.
pub(crate) open spec fn all_in(rows: Seq<BindingModel>, mode: ModeKind) -> bool {
    forall|i: int| 0 <= i < rows.len() ==> (#[trigger] rows[i]).mode == mode
}

pub(crate) proof fn no_hit(rows: Seq<BindingModel>, mode: ModeKind, k: KeyModel)
    requires
        forall|i: int| 0 <= i < rows.len() ==> !hits(#[trigger] rows[i], mode, k),
    ensures
        first_hit(rows, mode, k) is None,
    decreases rows.len(),
{
    if rows.len() > 0 {
        assert(!hits(rows[0], mode, k));
        let rest = rows.drop_first();
        assert forall|i: int| 0 <= i < rest.len() implies !hits(#[trigger] rest[i], mode, k) by {
            assert(rest[i] == rows[i + 1]);
        }
        no_hit(rest, mode, k);
    }
}

pub(crate) proof fn first_hit_at(rows: Seq<BindingModel>, mode: ModeKind, k: KeyModel, i: int)
    requires
        0 <= i < rows.len(),
        hits(rows[i], mode, k),
        forall|j: int| 0 <= j < i ==> !hits(#[trigger] rows[j], mode, k),
    ensures
        first_hit(rows, mode, k) == Some(rows[i].action),
    decreases rows.len(),
{
    if i > 0 {
        assert(!hits(rows[0], mode, k));
        let rest = rows.drop_first();
        assert(rest[i - 1] == rows[i]);
        assert forall|j: int| 0 <= j < i - 1 implies !hits(#[trigger] rest[j], mode, k) by {
            assert(rest[j] == rows[j + 1]);
        }
        first_hit_at(rest, mode, k, i - 1);
    }
}

proof fn first_hit_concat(a: Seq<BindingModel>, b: Seq<BindingModel>, mode: ModeKind, k: KeyModel)
    ensures
        first_hit(a + b, mode, k) == (match first_hit(a, mode, k) {
            Some(x) => Some(x),
            None => first_hit(b, mode, k),
        }),
    decreases a.len(),
{
    if a.len() == 0 {
        assert(a + b =~= b);
    } else {
        assert((a + b)[0] == a[0]);
        assert((a + b).drop_first() =~= a.drop_first() + b);
        first_hit_concat(a.drop_first(), b, mode, k);
    }
}

proof fn other_mode(rows: Seq<BindingModel>, of: ModeKind, mode: ModeKind, k: KeyModel)
    requires
        all_in(rows, of),
        of != mode,
    ensures
        first_hit(rows, mode, k) is None,
{
    no_hit(rows, mode, k);
}

pub(crate) proof fn groups_are_by_mode()
    ensures
        all_in(selection_rows(), ModeKind::Selection),
        all_in(search_rows(), ModeKind::Search),
        all_in(palette_rows(), ModeKind::Palette),
        all_in(help_rows(), ModeKind::Help),
        forall|m: ModeKind| all_in(#[trigger] modal_rows(m), m),
{
}

/// The group of bindings of a mode.
pub open spec fn rows_of(mode: ModeKind) -> Seq<BindingModel> {
    match mode {
        ModeKind::Selection => selection_rows(),
        ModeKind::Search => search_rows(),
        ModeKind::Palette => palette_rows(),
        ModeKind::Help => help_rows(),
        _ => modal_rows(mode),
    }
}

/// Only the group of the mode decides what a key press means.
pub proof fn mode_group_decides(mode: ModeKind, k: KeyModel)
    ensures
        first_hit(binding_table(), mode, k) == first_hit(rows_of(mode), mode, k),
{
    groups_are_by_mode();
    let a = selection_rows();
    let b = a + search_rows();
    let c = b + palette_rows();
    let d = c + modal_rows(ModeKind::Detail);
    let e = d + modal_rows(ModeKind::Sql);
    let f = e + modal_rows(ModeKind::Stats);
    let g = f + modal_rows(ModeKind::Diff);
    first_hit_concat(a, search_rows(), mode, k);
    first_hit_concat(b, palette_rows(), mode, k);
    first_hit_concat(c, modal_rows(ModeKind::Detail), mode, k);
    first_hit_concat(d, modal_rows(ModeKind::Sql), mode, k);
    first_hit_concat(e, modal_rows(ModeKind::Stats), mode, k);
    first_hit_concat(f, modal_rows(ModeKind::Diff), mode, k);
    first_hit_concat(g, help_rows(), mode, k);
    if mode != ModeKind::Selection {
        other_mode(selection_rows(), ModeKind::Selection, mode, k);
    }
    if mode != ModeKind::Search {
        other_mode(search_rows(), ModeKind::Search, mode, k);
    }
    if mode != ModeKind::Palette {
        other_mode(palette_rows(), ModeKind::Palette, mode, k);
    }
    if mode != ModeKind::Detail {
        other_mode(modal_rows(ModeKind::Detail), ModeKind::Detail, mode, k);
    }
    if mode != ModeKind::Sql {
        other_mode(modal_rows(ModeKind::Sql), ModeKind::Sql, mode, k);
    }
    if mode != ModeKind::Stats {
        other_mode(modal_rows(ModeKind::Stats), ModeKind::Stats, mode, k);
    }
    if mode != ModeKind::Diff {
        other_mode(modal_rows(ModeKind::Diff), ModeKind::Diff, mode, k);
    }
    if mode != ModeKind::Help {
        other_mode(help_rows(), ModeKind::Help, mode, k);
    }
}

/// In a search or the palette every plain character is text, never a command.
pub proof fn printable_is_text(mode: ModeKind, c: char)
    requires
        takes_text(mode),
    ensures
        meaning(mode, KeyModel { code: KeyCodeModel::Char(c), control: false, alt: false, command: false }) == Some(
            Action::SearchType(c),
        ),
{
    let k = KeyModel { code: KeyCodeModel::Char(c), control: false, alt: false, command: false };
    mode_group_decides(mode, k);
    no_hit(rows_of(mode), mode, k);
}

/// The plain key press that a trigger stands for.
pub open spec fn press_of(t: TriggerModel) -> KeyModel {
    match t {
        TriggerModel::Key(code) => KeyModel { code, control: false, alt: false, command: false },
        TriggerModel::Ctrl(c) => KeyModel { code: KeyCodeModel::Char(c), control: true, alt: false, command: false },
        TriggerModel::Super(c) => KeyModel { code: KeyCodeModel::Char(c), control: false, alt: false, command: true },
    }
}

// Where each trigger stands in the group of its mode.

pub(crate) open spec fn selection_home(t: TriggerModel) -> int {
    match t {
        TriggerModel::Key(KeyCodeModel::Char(c)) => {
            if c == 'j' { 0 } else if c == 'k' { 1 } else if c == 'h' { 2 } else if c == 'l' { 3 }
            else if c == 'g' { 4 } else if c == 'G' { 5 } else if c == '/' { 9 } else if c == '?' { 10 }
            else if c == 'o' { 11 } else if c == 'y' { 12 } else if c == 'Y' { 13 } else if c == 'm' { 14 }
            else if c == 'x' { 15 } else if c == 'r' { 16 } else if c == 'z' { 17 } else if c == 'u' { 18 }
            else if c == 'd' { 19 } else if c == '[' { 20 } else if c == ']' { 21 } else if c == '0' { 22 }
            else if c == 'b' { 23 } else if c == 'f' { 24 } else if c == 'q' { 25 } else if c == 's' { 26 }
            else if c == 'S' { 27 } else if c == 't' { 28 } else if c == ' ' { 29 } else if c == '\'' { 30 }
            else if c == '.' { 31 } else if c == 'M' { 32 } else if c == 'v' { 33 } else if c == 'c' { 35 }
            else if c == 'C' { 36 } else if c == 'i' { 37 } else if c == 'e' { 38 } else if c == 'n' { 41 }
            else if c == 'N' { 42 } else if c == '"' { 43 } else if c == 'H' { 44 } else if c == 'L' { 45 }
            else if c == 'T' { 46 } else if c == '*' { 47 } else if c == 'P' { 48 } else if c == 'D' { 50 }
            else { -1 }
        },
        TriggerModel::Key(KeyCodeModel::Down) => 0,
        TriggerModel::Key(KeyCodeModel::Up) => 1,
        TriggerModel::Key(KeyCodeModel::Left) => 2,
        TriggerModel::Key(KeyCodeModel::Right) => 3,
        TriggerModel::Key(KeyCodeModel::Tab) => 6,
        TriggerModel::Key(KeyCodeModel::Enter) => 8,
        TriggerModel::Key(KeyCodeModel::PageDown) => 39,
        TriggerModel::Key(KeyCodeModel::PageUp) => 40,
        TriggerModel::Ctrl(c) => {
            if c == 'b' { 7 } else if c == 'c' { 25 } else if c == 'p' { 34 } else if c == 'd' { 39 }
            else if c == 'u' { 40 } else if c == 't' { 49 } else { -1 }
        },
        TriggerModel::Super(c) => if c == 'b' { 7 } else if c == 'p' { 34 } else { -1 },
        _ => -1,
    }
}

pub(crate) open spec fn search_home(t: TriggerModel) -> int {
    match t {
        TriggerModel::Key(KeyCodeModel::Esc) => 0,
        TriggerModel::Key(KeyCodeModel::Enter) => 1,
        TriggerModel::Key(KeyCodeModel::Backspace) => 2,
        TriggerModel::Key(KeyCodeModel::Up) => 3,
        TriggerModel::Key(KeyCodeModel::Down) => 4,
        _ => -1,
    }
}

pub(crate) open spec fn modal_home(t: TriggerModel) -> int {
    match t {
        TriggerModel::Key(KeyCodeModel::Char(c)) => {
            if c == 'q' { 0 } else if c == 'j' { 1 } else if c == 'k' { 2 } else if c == 'd' { 3 }
            else if c == 'u' { 4 } else if c == 'g' { 5 } else if c == 'G' { 6 } else { -1 }
        },
        TriggerModel::Key(KeyCodeModel::Esc) => 0,
        TriggerModel::Key(KeyCodeModel::Enter) => 0,
        TriggerModel::Key(KeyCodeModel::Down) => 1,
        TriggerModel::Key(KeyCodeModel::Up) => 2,
        TriggerModel::Key(KeyCodeModel::PageDown) => 3,
        TriggerModel::Key(KeyCodeModel::PageUp) => 4,
        TriggerModel::Ctrl(c) => if c == 'd' { 3 } else if c == 'u' { 4 } else { -1 },
        _ => -1,
    }
}

pub(crate) open spec fn help_home(t: TriggerModel) -> int {
    match t {
        TriggerModel::Key(KeyCodeModel::Char(c)) => {
            if c == '?' { 0 } else if c == 'q' { 0 } else if c == 'j' { 1 } else if c == 'k' { 2 }
            else if c == 'd' { 3 } else if c == 'u' { 4 } else if c == 'g' { 5 } else if c == 'G' { 6 }
            else { -1 }
        },
        TriggerModel::Key(KeyCodeModel::Esc) => 0,
        TriggerModel::Key(KeyCodeModel::Down) => 1,
        TriggerModel::Key(KeyCodeModel::Up) => 2,
        TriggerModel::Key(KeyCodeModel::PageDown) => 3,
        TriggerModel::Key(KeyCodeModel::PageUp) => 4,
        TriggerModel::Ctrl(c) => if c == 'd' { 3 } else if c == 'u' { 4 } else { -1 },
        _ => -1,
    }
}

pub(crate) open spec fn home(mode: ModeKind, t: TriggerModel) -> int {
    match mode {
        ModeKind::Selection => selection_home(t),
        ModeKind::Search => search_home(t),
        ModeKind::Palette => search_home(t),
        ModeKind::Help => help_home(t),
        _ => modal_home(t),
    }
}

#[verifier::rlimit(60)]
proof fn selection_triggers_at_home(i: int, j: int)
    requires
        0 <= i < selection_rows().len(),
        0 <= j < selection_rows()[i].triggers.len(),
    ensures
        selection_home(selection_rows()[i].triggers[j]) == i,
{
}

pub(crate) proof fn triggers_at_home(mode: ModeKind, i: int, j: int)
    requires
        0 <= i < rows_of(mode).len(),
        0 <= j < rows_of(mode)[i].triggers.len(),
    ensures
        home(mode, rows_of(mode)[i].triggers[j]) == i,
{
    if mode == ModeKind::Selection {
        selection_triggers_at_home(i, j);
    }
}

/// Every trigger of every binding does what its binding says: no binding
/// shadows another.
pub proof fn every_trigger_round_trips(mode: ModeKind, i: int, j: int)
    requires
        0 <= i < rows_of(mode).len(),
        0 <= j < rows_of(mode)[i].triggers.len(),
    ensures
        rows_of(mode)[i].mode == mode,
        meaning(mode, press_of(rows_of(mode)[i].triggers[j])) == Some(rows_of(mode)[i].action),
{
    groups_are_by_mode();
    let rows = rows_of(mode);
    let t = rows[i].triggers[j];
    let k = press_of(t);
    triggers_at_home(mode, i, j);
    assert(fires(t, k));
    assert(hits(rows[i], mode, k));
    assert forall|m: int| 0 <= m < i implies !hits(#[trigger] rows[m], mode, k) by {
        if hits(rows[m], mode, k) {
            let n = choose|n: int| 0 <= n < rows[m].triggers.len() && fires(#[trigger] rows[m].triggers[n], k);
            assert(rows[m].triggers[n] == t);
            triggers_at_home(mode, m, n);
        }
    }
    first_hit_at(rows, mode, k, i);
    mode_group_decides(mode, k);
    if k.control && k.code == KeyCodeModel::Char('c') {
        ctrl_c_row(mode, i, j);
    }
}

proof fn ctrl_c_row(mode: ModeKind, i: int, j: int)
    requires
        0 <= i < rows_of(mode).len(),
        0 <= j < rows_of(mode)[i].triggers.len(),
        rows_of(mode)[i].triggers[j] == TriggerModel::Ctrl('c'),
    ensures
        rows_of(mode)[i].action == Action::Quit,
{
    triggers_at_home(mode, i, j);
}

proof fn first_hit_is_a_row(rows: Seq<BindingModel>, mode: ModeKind, k: KeyModel)
    ensures
        first_hit(rows, mode, k) matches Some(a) ==> exists|i: int| 0 <= i < rows.len() && #[trigger] rows[i].action == a,
    decreases rows.len(),
{
    if rows.len() > 0 && !hits(rows[0], mode, k) {
        let rest = rows.drop_first();
        first_hit_is_a_row(rest, mode, k);
        if let Some(a) = first_hit(rows, mode, k) {
            let i = choose|i: int| 0 <= i < rest.len() && #[trigger] rest[i].action == a;
            assert(rows[i + 1].action == a);
        }
    }
}

proof fn no_quit_outside_selection(mode: ModeKind, i: int)
    requires
        mode != ModeKind::Selection,
        0 <= i < rows_of(mode).len(),
    ensures
        rows_of(mode)[i].action != Action::Quit,
{
}

/// Outside the selection mode only Ctrl-C quits; in an overlay `q` closes it.
pub proof fn overlays_never_quit(mode: ModeKind, k: KeyModel)
    requires
        mode != ModeKind::Selection,
        meaning(mode, k) == Some(Action::Quit),
    ensures
        k.control,
        k.code == KeyCodeModel::Char('c'),
{
    mode_group_decides(mode, k);
    first_hit_is_a_row(rows_of(mode), mode, k);
    if let Some(a) = first_hit(rows_of(mode), mode, k) {
        let i = choose|i: int| 0 <= i < rows_of(mode).len() && #[trigger] rows_of(mode)[i].action == a;
        no_quit_outside_selection(mode, i);
    }
}

} // verus!
