//! The keymap: what every key does in every mode, the help and the palette.

use dbtl::action::{
    bindings, dispatch, help_lines, palette_candidates, Action, DetailView, DiffView, Direction, KeyCode, KeyEvent, Mode,
    ModeKind, PaletteState, SearchState, SearchTarget, SqlView, StatsView, Trigger,
};
use dbtl::model_list::name_matches_query;
use dbtl::NodeDetail;

fn press(code: KeyCode) -> KeyEvent {
    KeyEvent { code, control: false, alt: false, command: false }
}
fn ctrl(c: char) -> KeyEvent {
    KeyEvent { code: KeyCode::Char(c), control: true, alt: false, command: false }
}
fn cmd(c: char) -> KeyEvent {
    KeyEvent { code: KeyCode::Char(c), control: false, alt: false, command: true }
}

/// The same key once more.
fn copy_of(code: &KeyCode) -> KeyCode {
    match code {
        KeyCode::Char(c) => KeyCode::Char(*c),
        KeyCode::Enter => KeyCode::Enter,
        KeyCode::Esc => KeyCode::Esc,
        KeyCode::Tab => KeyCode::Tab,
        KeyCode::Backspace => KeyCode::Backspace,
        KeyCode::Up => KeyCode::Up,
        KeyCode::Down => KeyCode::Down,
        KeyCode::Left => KeyCode::Left,
        KeyCode::Right => KeyCode::Right,
        KeyCode::PageDown => KeyCode::PageDown,
        KeyCode::PageUp => KeyCode::PageUp,
        KeyCode::Other(name) => KeyCode::Other(name.clone()),
    }
}

fn search_mode() -> Mode {
    Mode::Search(SearchState {
        target: SearchTarget::List,
        query: String::new(),
        origin_uid: None,
        match_idx: 0,
    })
}
fn detail_mode() -> Mode {
    Mode::Detail(DetailView {
        model_id: "m".into(),
        name: "m".into(),
        detail: NodeDetail::default(),
        tests: vec![],
        downstream_count: 0,
        upstream_count: 0,
        scroll: 0,
    })
}
fn sql_mode() -> Mode {
    Mode::Sql(SqlView {
        model_id: "m".into(),
        name: "m".into(),
        sql: String::new(),
        path: None,
        scroll: 0,
    })
}
fn palette_mode() -> Mode {
    Mode::Palette(PaletteState::default())
}
fn diff_mode() -> Mode {
    Mode::Diff(DiffView::default())
}
fn stats_mode() -> Mode {
    Mode::Stats(StatsView {
        project: String::new(),
        by_resource_type: vec![],
        by_materialization: vec![],
        testable_total: 0,
        testable_tested: 0,
        top_hubs: vec![],
        transitive_hubs: vec![],
        orphan_models: vec![],
        layer_violations: vec![],
        critical_path: vec![],
        untested_testable: 0,
        zero_downstream_models: 0,
        no_description_models: 0,
        scroll: 0,
    })
}

// ---- Selection dispatch maps the core keys to their actions ----

#[test]
fn selection_legacy_keys_map_to_expected_actions() {
    let sel = Mode::Selection;
    assert_eq!(dispatch(&sel, &press(KeyCode::Char('j'))), Some(Action::MoveDown));
    assert_eq!(dispatch(&sel, &press(KeyCode::Down)), Some(Action::MoveDown));
    assert_eq!(dispatch(&sel, &press(KeyCode::Char('k'))), Some(Action::MoveUp));
    assert_eq!(dispatch(&sel, &press(KeyCode::Char('h'))), Some(Action::MoveLeft));
    assert_eq!(dispatch(&sel, &press(KeyCode::Char('l'))), Some(Action::MoveRight));
    assert_eq!(dispatch(&sel, &press(KeyCode::Char('g'))), Some(Action::JumpTop));
    assert_eq!(dispatch(&sel, &press(KeyCode::Char('G'))), Some(Action::JumpBottom));
    assert_eq!(
        dispatch(&sel, &press(KeyCode::Tab)),
        Some(Action::ToggleFocus)
    );
    assert_eq!(dispatch(&sel, &press(KeyCode::Char('q'))), Some(Action::Quit));
    assert_eq!(dispatch(&sel, &ctrl('c')), Some(Action::Quit));
    assert_eq!(dispatch(&sel, &press(KeyCode::Char('!'))), None, "unbound key");
}

#[test]
fn t_cycles_the_lineage_lens_in_selection_but_is_text_in_search() {
    assert_eq!(
        dispatch(&Mode::Selection, &press(KeyCode::Char('t'))),
        Some(Action::CycleLens)
    );
    assert_eq!(
        dispatch(&search_mode(), &press(KeyCode::Char('t'))),
        Some(Action::SearchType('t')),
        "'t' in search is text, not the lens cycle"
    );
}

#[test]
fn p_runs_dbt_parse_in_selection_but_is_text_in_search() {
    // 'P' (capital — arrives as Char('P'), SHIFT allowed by Trigger::Key)
    // requests a dbt parse; in Search it must stay query text.
    assert_eq!(
        dispatch(&Mode::Selection, &press(KeyCode::Char('P'))),
        Some(Action::DbtParse)
    );
    assert_eq!(
        dispatch(&search_mode(), &press(KeyCode::Char('P'))),
        Some(Action::SearchType('P')),
        "'P' in search is text, not a dbt parse"
    );
}

#[test]
fn bookmark_and_sort_keys_dispatch_in_selection() {
    let sel = Mode::Selection;
    assert_eq!(
        dispatch(&sel, &press(KeyCode::Char(' '))),
        Some(Action::BookmarkToggle),
        "Space toggles a bookmark in Selection"
    );
    assert_eq!(
        dispatch(&sel, &press(KeyCode::Char('\''))),
        Some(Action::BookmarkCycle),
        "' cycles bookmarks"
    );
    assert_eq!(
        dispatch(&sel, &press(KeyCode::Char('.'))),
        Some(Action::SortCycle),
        ". cycles the list sort"
    );
    // In Search mode, Space (and ' / .) are query text, never commands.
    let m = search_mode();
    assert_eq!(
        dispatch(&m, &press(KeyCode::Char(' '))),
        Some(Action::SearchType(' ')),
        "Space in search is text, not a bookmark toggle"
    );
    assert_eq!(
        dispatch(&m, &press(KeyCode::Char('.'))),
        Some(Action::SearchType('.'))
    );
}

#[test]
fn space_label_is_named_not_blank() {
    // The Space trigger must render a legible key in `?` help, not an empty
    // string (it would print as an invisible glyph).
    assert_eq!(Trigger::Key(KeyCode::Char(' ')).label(), "Space");
    assert_eq!(Trigger::Key(KeyCode::Char('\'')).label(), "'");
    assert_eq!(Trigger::Key(KeyCode::Char('.')).label(), ".");
}

#[test]
fn cmd_b_and_ctrl_b_toggle_the_list_pane() {
    let sel = Mode::Selection;
    assert_eq!(dispatch(&sel, &cmd('b')), Some(Action::ToggleListPane));
    assert_eq!(dispatch(&sel, &ctrl('b')), Some(Action::ToggleListPane));
    // Plain 'b' stays the history-back binding — modifiers matter.
    assert_eq!(dispatch(&sel, &press(KeyCode::Char('b'))), Some(Action::HistoryBack));
}

#[test]
fn search_printable_keys_are_text_not_commands() {
    let m = search_mode();
    for c in ['q', 'g', 'j', 'G', 'a', '/'] {
        assert_eq!(
            dispatch(&m, &press(KeyCode::Char(c))),
            Some(Action::SearchType(c)),
            "'{c}' in search must be text, not a command"
        );
    }
    assert_eq!(dispatch(&m, &press(KeyCode::Esc)), Some(Action::SearchCancel));
    assert_eq!(dispatch(&m, &press(KeyCode::Enter)), Some(Action::SearchConfirm));
    assert_eq!(
        dispatch(&m, &press(KeyCode::Backspace)),
        Some(Action::SearchBackspace)
    );
    // Ctrl-c still quits even in search (never a printable char).
    assert_eq!(dispatch(&m, &ctrl('c')), Some(Action::Quit));
    // A Super-modified char is a command chord, not query text.
    assert_eq!(dispatch(&m, &cmd('b')), None);
}

#[test]
fn overlay_q_closes_overlay_not_app() {
    // 'q' must CLOSE the overlay, not quit the application.
    assert_eq!(
        dispatch(&detail_mode(), &press(KeyCode::Char('q'))),
        Some(Action::DetailClose)
    );
    assert_eq!(
        dispatch(&Mode::Help { scroll: 0 }, &press(KeyCode::Char('q'))),
        Some(Action::HelpToggle)
    );
    assert_eq!(
        dispatch(&detail_mode(), &press(KeyCode::Esc)),
        Some(Action::DetailClose)
    );
}

// ---- drift guard: help and dispatch can never diverge ----

/// Whether an action has a key of its own; text input has none.
fn is_key_bound(a: &Action) -> bool {
    match a {
        Action::MoveDown
        | Action::MoveUp
        | Action::MoveLeft
        | Action::MoveRight
        | Action::JumpTop
        | Action::JumpBottom
        | Action::ToggleFocus
        | Action::ToggleListPane
        | Action::Quit
        | Action::DetailOpen
        | Action::DetailClose
        | Action::DetailScroll(_)
        | Action::SearchOpen
        | Action::SearchBackspace
        | Action::SearchCancel
        | Action::SearchConfirm
        | Action::SearchMove(_)
        | Action::PaletteOpen
        | Action::HelpToggle
        | Action::Recenter
        | Action::OpenEditor
        | Action::YankId
        | Action::YankName
        | Action::YankMermaid
        | Action::YankDot
        | Action::Reload
        | Action::ToggleUpstream
        | Action::ToggleDownstream
        | Action::DepthDecrease
        | Action::DepthIncrease
        | Action::ResetView
        | Action::HistoryBack
        | Action::HistoryForward
        | Action::SqlOpen
        | Action::StatsOpen
        | Action::CycleLens
        | Action::BookmarkToggle
        | Action::BookmarkCycle
        | Action::SortCycle
        | Action::ToggleMinimap
        | Action::ToggleDensity
        | Action::YankAscii
        | Action::YankSql
        | Action::YankImpact
        | Action::ExportLineage
        | Action::PageDown
        | Action::PageUp
        | Action::DetailScrollPage(_)
        | Action::DetailScrollHome
        | Action::DetailScrollEnd
        | Action::GapNext
        | Action::GapPrev
        | Action::BookmarkCycleBack
        | Action::LineageLeftmost
        | Action::LineageRightmost
        | Action::ToggleUntestedFilter
        | Action::ToggleBookmarkFilter
        | Action::DbtParse
        | Action::ThemeCycle
        | Action::DiffOpen => true,
        Action::SearchType(_) => false,
    }
}

#[test]
fn every_binding_has_help_and_round_trips() {
    for b in &bindings() {
        assert!(
            !b.help.is_empty(),
            "binding for {:?} has empty help",
            b.action
        );
        // Each trigger dispatches to this binding's action in its mode.
        let mode = match b.mode {
            ModeKind::Selection => Mode::Selection,
            ModeKind::Search => search_mode(),
            ModeKind::Detail => detail_mode(),
            ModeKind::Sql => sql_mode(),
            ModeKind::Stats => stats_mode(),
            ModeKind::Diff => diff_mode(),
            ModeKind::Palette => palette_mode(),
            ModeKind::Help => Mode::Help { scroll: 0 },
        };
        for t in &b.triggers {
            let key = match t {
                Trigger::Key(c) => press(copy_of(c)),
                Trigger::Ctrl(c) => ctrl(*c),
                Trigger::Super(c) => cmd(*c),
            };
            assert_eq!(
                dispatch(&mode, &key),
                Some(b.action),
                "trigger {:?} should dispatch to {:?}",
                t,
                b.action
            );
        }
    }
}

#[test]
fn key_bound_actions_appear_in_bindings() {
    let table = bindings();
    let samples = [
        Action::MoveDown,
        Action::MoveUp,
        Action::MoveLeft,
        Action::MoveRight,
        Action::JumpTop,
        Action::JumpBottom,
        Action::ToggleFocus,
        Action::ToggleListPane,
        Action::Quit,
        Action::DetailOpen,
        Action::DetailClose,
        Action::DetailScroll(Direction::Down),
        Action::SearchOpen,
        Action::SearchBackspace,
        Action::SearchCancel,
        Action::SearchConfirm,
        Action::SearchMove(Direction::Down),
        Action::PaletteOpen,
        Action::HelpToggle,
        Action::Recenter,
        Action::OpenEditor,
        Action::YankId,
        Action::YankName,
        Action::YankMermaid,
        Action::YankDot,
        Action::Reload,
        Action::ToggleUpstream,
        Action::ToggleDownstream,
        Action::DepthDecrease,
        Action::DepthIncrease,
        Action::ResetView,
        Action::HistoryBack,
        Action::HistoryForward,
        Action::SqlOpen,
        Action::StatsOpen,
        Action::CycleLens,
        Action::BookmarkToggle,
        Action::BookmarkCycle,
        Action::SortCycle,
        Action::ToggleMinimap,
        Action::ToggleDensity,
        Action::YankAscii,
        Action::YankSql,
        Action::YankImpact,
        Action::ExportLineage,
        Action::PageDown,
        Action::PageUp,
        Action::DetailScrollPage(Direction::Down),
        Action::DetailScrollHome,
        Action::DetailScrollEnd,
        Action::GapNext,
        Action::GapPrev,
        Action::BookmarkCycleBack,
        Action::LineageLeftmost,
        Action::LineageRightmost,
        Action::ToggleUntestedFilter,
        Action::ToggleBookmarkFilter,
        Action::DbtParse,
        Action::ThemeCycle,
        Action::DiffOpen,
    ];
    for a in samples {
        assert!(
            is_key_bound(&a),
            "{a:?} categorized as dynamic but listed as bound"
        );
        assert!(
            table.iter().any(|b| b.action == a),
            "{a:?} is key-bound but missing from BINDINGS"
        );
    }
    // The dynamic text-input action must NOT be in the table.
    let dynamic = Action::SearchType('x');
    assert!(!is_key_bound(&dynamic));
    assert!(
        table.iter().all(|b| b.action != dynamic),
        "SearchType is dynamic, not a fixed binding"
    );
}

// ---- command palette ----

#[test]
fn ctrl_p_and_cmd_p_open_the_palette() {
    let sel = Mode::Selection;
    assert_eq!(dispatch(&sel, &ctrl('p')), Some(Action::PaletteOpen));
    assert_eq!(dispatch(&sel, &cmd('p')), Some(Action::PaletteOpen));
}

#[test]
fn ctrl_t_cycles_the_theme_and_stays_distinct_from_plain_t() {
    // Ctrl-t is the theme cycle; plain `t` stays the lens cycle (the
    // `Trigger::Key`-requires-no-Ctrl rule is what keeps them apart).
    let sel = Mode::Selection;
    assert_eq!(dispatch(&sel, &ctrl('t')), Some(Action::ThemeCycle));
    assert_eq!(dispatch(&sel, &press(KeyCode::Char('t'))), Some(Action::CycleLens));
    // In text-input modes Ctrl-t is unbound (never typed text).
    assert_eq!(dispatch(&search_mode(), &ctrl('t')), None);
    assert_eq!(dispatch(&palette_mode(), &ctrl('t')), None);
}

#[test]
fn palette_printable_keys_are_text_not_commands() {
    let m = palette_mode();
    for c in ['q', 't', ' ', 'a', '/'] {
        assert_eq!(
            dispatch(&m, &press(KeyCode::Char(c))),
            Some(Action::SearchType(c)),
            "'{c}' in the palette must be text, not a command"
        );
    }
    // Esc cancels (closes the palette); Enter runs; Backspace edits.
    assert_eq!(dispatch(&m, &press(KeyCode::Esc)), Some(Action::SearchCancel));
    assert_eq!(dispatch(&m, &press(KeyCode::Enter)), Some(Action::SearchConfirm));
    assert_eq!(
        dispatch(&m, &press(KeyCode::Backspace)),
        Some(Action::SearchBackspace)
    );
    // Ctrl-c still quits even in the palette (never a printable char).
    assert_eq!(dispatch(&m, &ctrl('c')), Some(Action::Quit));
    // A Super-modified char is a command chord, not query text.
    assert_eq!(dispatch(&m, &cmd('p')), None);
}

#[test]
fn palette_candidates_empty_query_lists_all_selection_commands_minus_open() {
    let table = bindings();
    let all = palette_candidates("");
    // Every Selection-mode binding except PaletteOpen itself.
    let expected = table
        .iter()
        .filter(|b| b.mode == ModeKind::Selection && b.action != Action::PaletteOpen)
        .count();
    assert_eq!(
        all.len(),
        expected,
        "empty query lists every Selection command"
    );
    assert!(
        all.iter().all(|b| b.mode == ModeKind::Selection),
        "only Selection-mode bindings are candidates"
    );
    assert!(
        all.iter().all(|b| b.action != Action::PaletteOpen),
        "the palette opener excludes itself"
    );
}

#[test]
fn palette_candidates_fuzzy_filters_by_help_text() {
    // "lens" is a subsequence of "cycle lineage lens" → the CycleLens row.
    let hits = palette_candidates("lens");
    assert!(
        hits.iter().any(|b| b.action == Action::CycleLens),
        "'lens' finds the cycle-lens command"
    );
    assert!(
        hits.iter()
            .all(|b| name_matches_query(b.help, "lens")
                || name_matches_query(&b.key_label(), "lens")),
        "every hit matches the query"
    );
    // A query no command satisfies yields nothing (no panic).
    assert!(palette_candidates("zzzqqq").is_empty());
}

#[test]
fn palette_candidates_preserve_bindings_table_order() {
    let table = bindings();
    let all = palette_candidates("");
    let positions: Vec<usize> = all
        .iter()
        .map(|c| {
            table
                .iter()
                .position(|b| b == c)
                .expect("candidate is a BINDINGS row")
        })
        .collect();
    let mut sorted = positions.clone();
    sorted.sort_unstable();
    assert_eq!(positions, sorted, "candidates keep BINDINGS table order");
}

#[test]
fn help_lines_cover_every_binding() {
    let lines = help_lines();
    assert!(!lines.is_empty());
    for b in &bindings() {
        assert!(
            lines.iter().any(|l| l.mode == b.mode && l.desc == b.help),
            "no help line for {:?}",
            b.action
        );
    }
}