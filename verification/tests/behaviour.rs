//! What holds across functions, on concrete values, and the edge cases of each
//! part.

use dbtl::action::{bindings, dispatch, Action, DiffView, Direction, KeyCode, KeyEvent, Mode, PrImpact, Trigger};
use dbtl::app::analysis::longest_chain;
use dbtl::app::export::{
    mermaid_ids, mermaid_label, node_kind, safe_file_name, subgraph_dot, subgraph_mermaid, subgraph_mermaid_linked,
};
use dbtl::app::lineage::{first_fitting, trail_candidates};
use dbtl::app::report::exposure_note;
use dbtl::dag::{is_testable, ExposureInfo};
use dbtl::docs::{layer_groups, node_files, node_markdown};
use dbtl::effect::Effect;
use dbtl::layout::layout_density;
use dbtl::manifest::{
    RawColumn, RawConfig, RawDependsOn, RawExposure, RawExposureOwner, RawManifest, RawNode, RawSource, RawTestMetadata,
};
use dbtl::model_list::{
    build_filtered_model_list, build_model_list, cycle_to, filter_model_list, first_dir, layer_rank, match_indices,
    name_matches_query, Keep, ModelList,
};
use dbtl::paths::derive_project_root;
use dbtl::sorted::{sort, sort_distinct, StrMap, StrSet};
use dbtl::ui::{presets, Preset, Theme};
use dbtl::{
    apply_action, compute_diff, coverage_gap, fit_breadcrumb, generate_docs, is_exposure, layout_mode, load_dag,
    reduce_selection, App, Dag, Density, DiffStatus, Focus, GlyphMode, LensTint, LineageLens, ListFilter, LoadError,
    MaterializationClass, NodeInfo, SortMode, UiState,
};

fn strings(items: &[&str]) -> Vec<String> {
    items.iter().map(|s| s.to_string()).collect()
}

fn members(s: &StrSet) -> Vec<String> {
    (0..s.len()).map(|i| s.at(i).clone()).collect()
}

fn model(name: &str, layer: &str) -> RawNode {
    RawNode {
        name: name.to_string(),
        resource_type: "model".to_string(),
        path: Some(format!("{layer}/{name}.sql")),
        ..Default::default()
    }
}

/// Records an edge between two ids in both maps.
fn edge(m: &mut RawManifest, parent: &str, child: &str) {
    let mut up = m.parent_map.get(child).cloned().unwrap_or_default();
    up.push(parent.to_string());
    m.parent_map.insert(child.to_string(), up);
    let mut down = m.child_map.get(parent).cloned().unwrap_or_default();
    down.push(child.to_string());
    m.child_map.insert(parent.to_string(), down);
}

/// Models `model.p.<name>` with the given layers, and edges between them.
fn manifest(models: &[(&str, &str)], edges: &[(&str, &str)]) -> RawManifest {
    let mut m = RawManifest::default();
    for (name, layer) in models {
        m.nodes.insert(format!("model.p.{name}"), model(name, layer));
    }
    for (parent, child) in edges {
        edge(&mut m, &format!("model.p.{parent}"), &format!("model.p.{child}"));
    }
    m
}

/// `a` feeds `b` and `c`, both feed `d`; `e` stands alone.
fn diamond() -> RawManifest {
    manifest(
        &[("a", "staging"), ("b", "intermediate"), ("c", "intermediate"), ("d", "marts"), ("e", "marts")],
        &[("a", "b"), ("a", "c"), ("b", "d"), ("c", "d")],
    )
}

fn app_of(m: &RawManifest) -> App {
    App::new(Dag::build(m), "/work/p/target/m.json".to_string())
}

fn test_node(target: &str, kind: Option<&str>, column: Option<&str>, name: &str) -> RawNode {
    RawNode {
        name: name.to_string(),
        resource_type: "test".to_string(),
        attached_node: Some(target.to_string()),
        column_name: column.map(String::from),
        test_metadata: kind.map(|k| RawTestMetadata { name: Some(k.to_string()) }),
        ..Default::default()
    }
}

fn key(code: KeyCode) -> KeyEvent {
    KeyEvent { code, control: false, alt: false, command: false }
}

/// One mode of each kind.
fn all_modes() -> Vec<Mode> {
    let mut a = app_of(&diamond());
    let mut modes = vec![Mode::Selection, Mode::Help { scroll: 0 }, Mode::Diff(DiffView::default())];
    for open in [Action::SearchOpen, Action::PaletteOpen, Action::DetailOpen, Action::SqlOpen, Action::StatsOpen] {
        apply_action(&mut a, open);
        modes.push(std::mem::take(&mut a.mode));
    }
    modes
}

fn yanked(a: &mut App, action: Action) -> Option<String> {
    let out = apply_action(a, action);
    match out.effects.into_iter().next() {
        Some(Effect::Yank(text)) => Some(text),
        _ => None,
    }
}

// ---- keys ----

#[test]
fn ctrl_c_quits_whatever_is_open() {
    let modes = all_modes();
    assert_eq!(modes.len(), 8);
    for mode in &modes {
        let event = KeyEvent { code: KeyCode::Char('c'), control: true, alt: true, command: true };
        assert_eq!(dispatch(mode, &event), Some(Action::Quit), "{mode:?}");
    }
}

#[test]
fn no_plain_key_quits_outside_the_selection() {
    for mode in all_modes() {
        if mode == Mode::Selection {
            assert_eq!(dispatch(&mode, &key(KeyCode::Char('q'))), Some(Action::Quit));
            continue;
        }
        for c in ' '..='~' {
            assert_ne!(dispatch(&mode, &key(KeyCode::Char(c))), Some(Action::Quit), "{c} in {mode:?}");
        }
    }
}

#[test]
fn alt_makes_a_key_unbound() {
    let event = KeyEvent { code: KeyCode::Char('j'), control: false, alt: true, command: false };
    for mode in all_modes() {
        assert_eq!(dispatch(&mode, &event), None, "{mode:?}");
    }
}

#[test]
fn labels_of_triggers() {
    assert_eq!(Trigger::Key(KeyCode::Enter).label(), "Enter");
    assert_eq!(Trigger::Key(KeyCode::Up).label(), "Up");
    assert_eq!(Trigger::Key(KeyCode::Other("F(1)".to_string())).label(), "F(1)");
    assert_eq!(Trigger::Ctrl('p').label(), "Ctrl-p");
    assert_eq!(Trigger::Super('b').label(), "Cmd-b");
    let open = bindings().into_iter().find(|b| b.action == Action::PaletteOpen).expect("a binding");
    assert_eq!(open.key_label(), "Ctrl-p/Cmd-p");
}

#[test]
fn the_palette_does_what_the_key_does() {
    let mut by_key = app_of(&diamond());
    let mut by_palette = app_of(&diamond());
    apply_action(&mut by_key, Action::ToggleDensity);
    apply_action(&mut by_palette, Action::PaletteOpen);
    for c in "compact lineage".chars() {
        apply_action(&mut by_palette, Action::SearchType(c));
    }
    apply_action(&mut by_palette, Action::SearchConfirm);
    assert_eq!(by_palette.ui_state.density(), by_key.ui_state.density());
    assert_eq!(by_palette.mode, Mode::Selection);
}

#[test]
fn the_palette_runs_nothing_where_nothing_matches() {
    let mut a = app_of(&diamond());
    apply_action(&mut a, Action::PaletteOpen);
    for c in "zzzqqq".chars() {
        apply_action(&mut a, Action::SearchType(c));
    }
    apply_action(&mut a, Action::SearchMove(Direction::Down));
    let out = apply_action(&mut a, Action::SearchConfirm);
    assert!(!out.quit && out.effects.is_empty());
    assert_eq!(a.mode, Mode::Selection);
}

// ---- the graph ----

#[test]
fn excluded_resources_stay_out() {
    let mut m = diamond();
    m.nodes.insert(
        "operation.p.hook".to_string(),
        RawNode { name: "hook".to_string(), resource_type: "operation".to_string(), ..Default::default() },
    );
    edge(&mut m, "model.p.d", "operation.p.hook");
    edge(&mut m, "operation.p.hook", "model.p.e");
    let dag = Dag::build(&m);
    assert_eq!(dag.len(), 5);
    assert!(!dag.contains("operation.p.hook"));
    assert!(dag.children_of("model.p.d").is_empty());
    assert!(dag.parents_of("model.p.e").is_empty(), "the excluded node is no bridge");
    assert!(!dag.downstream("model.p.a").contains("model.p.e"));
}

#[test]
fn closures_exclude_their_start_and_grow_with_the_depth() {
    let dag = Dag::build(&manifest(&[("a", "s"), ("b", "s"), ("c", "s")], &[("a", "b"), ("b", "c"), ("c", "a")]));
    assert_eq!(members(&dag.downstream("model.p.a")), strings(&["model.p.b", "model.p.c"]));
    assert_eq!(members(&dag.upstream("model.p.a")), strings(&["model.p.b", "model.p.c"]));
    let near: Vec<String> =
        dag.subgraph_view("model.p.a", false, true, Some(1)).nodes.iter().map(|n| n.name.clone()).collect();
    assert_eq!(near, strings(&["a", "b"]));
    let none: Vec<String> =
        dag.subgraph_view("model.p.a", true, true, Some(0)).nodes.iter().map(|n| n.name.clone()).collect();
    assert_eq!(none, strings(&["a"]));
}

#[test]
fn subgraphs_are_sorted_and_closed() {
    let sg = Dag::build(&diamond()).subgraph("model.p.b");
    let names: Vec<&str> = sg.nodes.iter().map(|n| n.name.as_str()).collect();
    assert_eq!(names, ["a", "b", "d"]);
    let edges: Vec<(&str, &str)> = sg.edges.iter().map(|e| (e.parent.as_str(), e.child.as_str())).collect();
    assert_eq!(edges, [("model.p.a", "model.p.b"), ("model.p.b", "model.p.d")]);
    assert!(sg.contains("model.p.d") && !sg.contains("model.p.c"));
}

#[test]
fn descriptions_and_columns_are_cleaned() {
    let mut m = RawManifest::default();
    m.nodes.insert(
        "model.p.x".to_string(),
        RawNode {
            description: Some(" \u{3000}spaced out\t\n".to_string()),
            columns: vec![
                RawColumn { key: "k1".to_string(), name: None, data_type: None, description: Some(String::new()) },
                RawColumn {
                    key: "k2".to_string(),
                    name: Some("Named".to_string()),
                    data_type: Some("int".to_string()),
                    description: Some(" kept ".to_string()),
                },
            ],
            ..model("x", "staging")
        },
    );
    m.nodes.insert("model.p.y".to_string(), RawNode { description: Some(" \n".to_string()), ..model("y", "staging") });
    let dag = Dag::build(&m);
    let x = dag.detail("model.p.x").expect("details");
    assert_eq!(x.description.as_deref(), Some("spaced out"));
    assert_eq!(x.columns[0].name, "k1");
    assert_eq!(x.columns[0].description, None);
    assert_eq!(x.columns[1].name, "Named");
    assert_eq!(x.columns[1].data_type.as_deref(), Some("int"));
    assert_eq!(x.columns[1].description.as_deref(), Some(" kept "));
    assert_eq!(dag.detail("model.p.y").expect("details").description, None);
}

#[test]
fn tests_are_recorded_under_their_targets_in_order() {
    let mut m = diamond();
    m.nodes.insert("test.p.1".to_string(), test_node("model.p.a", Some("unique"), Some("id"), "u"));
    m.nodes.insert("test.p.2".to_string(), test_node("model.p.a", Some("not_null"), Some("id"), "n"));
    m.nodes.insert("test.p.3".to_string(), test_node("model.p.a", Some("not_null"), None, "m"));
    m.nodes.insert(
        "test.p.4".to_string(),
        RawNode {
            attached_node: None,
            depends_on: RawDependsOn { nodes: strings(&["model.p.a", "model.p.b"]) },
            ..test_node("", None, None, "loose")
        },
    );
    let dag = Dag::build(&m);
    let seen: Vec<(&str, Option<&str>)> =
        dag.tests("model.p.a").iter().map(|t| (t.kind.as_str(), t.column_name.as_deref())).collect();
    assert_eq!(seen, [("not_null", None), ("not_null", Some("id")), ("singular", None), ("unique", Some("id"))]);
    assert_eq!(dag.tests("model.p.b").len(), 1);
    assert_eq!(dag.get("model.p.a").expect("a node").test_count, 4);
    assert!(dag.tests("model.p.zzz").is_empty());
}

#[test]
fn the_project_is_the_smallest_segment() {
    let mut m = RawManifest::default();
    m.nodes.insert("model.zoo.x".to_string(), model("x", "staging"));
    m.nodes.insert("model.ant.y".to_string(), model("y", "staging"));
    m.nodes.insert("model..z".to_string(), model("z", "staging"));
    assert_eq!(Dag::build(&m).project_name().as_deref(), Some("ant"));
    let mut bare = RawManifest::default();
    bare.nodes.insert("x".to_string(), model("x", "staging"));
    assert_eq!(Dag::build(&bare).project_name(), None);
    assert_eq!(App::new(Dag::build(&bare), String::new()).stats.project, "");
}

#[test]
fn an_exposure_wins_over_a_source_and_a_source_over_a_node() {
    let mut m = RawManifest::default();
    m.nodes.insert("x".to_string(), model("node", "staging"));
    m.sources.insert(
        "x".to_string(),
        RawSource { name: "source".to_string(), resource_type: "source".to_string(), ..Default::default() },
    );
    assert_eq!(Dag::build(&m).get("x").expect("a node").name, "source");
    m.exposures.insert("x".to_string(), RawExposure { name: "exposure".to_string(), ..Default::default() });
    let dag = Dag::build(&m);
    let n = dag.get("x").expect("a node");
    assert_eq!((n.name.as_str(), n.resource_type.as_str()), ("exposure", "exposure"));
    assert!(is_exposure(n));
    assert_eq!(dag.len(), 1);
}

#[test]
fn exposures_end_the_lineage_and_count_once() {
    let mut m = diamond();
    m.exposures.insert(
        "exposure.p.board".to_string(),
        RawExposure {
            name: "board".to_string(),
            depends_on: RawDependsOn { nodes: strings(&["model.p.d", "model.p.gone"]) },
            ..Default::default()
        },
    );
    edge(&mut m, "model.p.d", "exposure.p.board");
    let dag = Dag::build(&m);
    assert_eq!(dag.parents_of("exposure.p.board"), strings(&["model.p.d"]));
    assert_eq!(dag.children_of("model.p.d"), strings(&["exposure.p.board"]));
    assert!(dag.downstream("exposure.p.board").is_empty());
    assert!(dag.downstream("model.p.a").contains("exposure.p.board"));
}

#[test]
fn an_edge_counts_once_however_often_it_is_recorded() {
    let mut m = manifest(&[("a", "marts"), ("b", "staging")], &[]);
    m.child_map.insert("model.p.a".to_string(), strings(&["model.p.b", "model.p.b"]));
    m.parent_map.insert("model.p.b".to_string(), strings(&["model.p.a", "model.p.a", "model.p.a"]));
    let dag = Dag::build(&m);
    assert_eq!(dag.edges(), vec![("model.p.a".to_string(), "model.p.b".to_string())]);
    assert_eq!(dag.get("model.p.a").expect("a node").direct_down, 1);
    assert_eq!(dag.get("model.p.b").expect("a node").direct_up, 1);
    assert_eq!(dag.children_of("model.p.a"), strings(&["model.p.b"]));
    let stats = app_of(&m).compute_stats_view();
    assert_eq!(stats.layer_violations, vec![("a".to_string(), "b".to_string())]);
    let page = node_markdown(&dag, "model.p.a", &StrMap::new());
    assert!(page.contains("- direct children: 1\n"), "{page}");
}

#[test]
fn edges_ascend_strictly() {
    let edges = Dag::build(&diamond()).edges();
    assert_eq!(edges.len(), 4);
    assert!(edges.windows(2).all(|w| w[0] < w[1]));
}

#[test]
fn gaps_are_untested_models_seeds_and_snapshots() {
    for (kind, testable) in
        [("model", true), ("seed", true), ("snapshot", true), ("source", false), ("exposure", false), ("test", false)]
    {
        let mut n = NodeInfo { resource_type: kind.to_string(), ..Default::default() };
        assert_eq!(is_testable(kind), testable);
        assert_eq!(coverage_gap(&n), testable, "{kind}");
        n.test_count = 1;
        assert!(!coverage_gap(&n), "{kind}");
    }
}

#[test]
fn what_the_dashboard_calls_untested_are_the_gaps() {
    let mut m = diamond();
    m.nodes.insert("test.p.1".to_string(), test_node("model.p.a", Some("unique"), None, "u"));
    let a = app_of(&m);
    let stats = a.compute_stats_view();
    let gaps = a.model_list.models.iter().filter(|n| coverage_gap(n)).count();
    assert_eq!((stats.testable_total, stats.testable_tested, stats.untested_testable), (5, 1, 4));
    assert_eq!(gaps, 4);
    assert_eq!(a.coverage_summary(), (1, 5));
    assert_eq!(stats.orphan_models, strings(&["e"]));
    assert_eq!(stats.zero_downstream_models, 2);
    assert_eq!(stats.no_description_models, 5);
    assert_eq!(stats.by_materialization, vec![("(none)".to_string(), 5)]);
}

#[test]
fn the_longest_chain_takes_the_first_of_equal_ways() {
    let dag = Dag::build(&diamond());
    assert_eq!(longest_chain(&dag), strings(&["a", "b", "d"]));
    assert!(longest_chain(&Dag::build(&RawManifest::default())).is_empty());
    let twins = manifest(&[("a", "s"), ("b", "s"), ("y", "s"), ("z", "s")], &[("b", "y"), ("a", "z")]);
    assert_eq!(longest_chain(&Dag::build(&twins)), strings(&["a", "z"]), "the smaller start wins");
}

// ---- sorting ----

#[test]
fn sorting_orders_by_bytes_and_drops_repetitions_on_request() {
    let v = strings(&["é", "b", "a", "Z", "b"]);
    assert_eq!(sort(v), strings(&["Z", "a", "b", "b", "é"]));
    let v = strings(&["b", "a", "b"]);
    assert_eq!(sort_distinct(v), strings(&["a", "b"]));
}

#[test]
fn sets_and_maps_keep_their_keys_in_order() {
    let mut s = StrSet::new();
    assert!(s.insert("b".to_string()) && s.insert("a".to_string()));
    assert!(!s.insert("b".to_string()), "there already");
    assert_eq!(members(&s), strings(&["a", "b"]));
    assert!(s.remove("a") && !s.remove("a"));
    let mut m: StrMap<usize> = StrMap::new();
    m.insert("y".to_string(), 1);
    m.insert("x".to_string(), 2);
    m.insert("y".to_string(), 3);
    assert_eq!((m.len(), m.key_at(0).as_str(), m.get("y").copied()), (2, "x", Some(3)));
    assert_eq!((m.position("y"), m.position("z")), (Some(1), None));
}

// ---- the list of models ----

#[test]
fn lists_are_ordered_by_layer_and_then_as_asked() {
    let mut m = manifest(
        &[("m1", "marts"), ("m2", "marts"), ("s1", "staging"), ("o1", "odd"), ("u1", "utilities"), ("i1", "intermediate")],
        &[("m2", "o1"), ("s1", "i1")],
    );
    m.nodes.insert("test.p.1".to_string(), test_node("model.p.m1", Some("unique"), None, "u"));
    let dag = Dag::build(&m);
    let names = |mode: SortMode| -> Vec<String> {
        build_model_list(&dag, mode).models.iter().map(|n| n.name.clone()).collect()
    };
    assert_eq!(names(SortMode::Layer), strings(&["s1", "i1", "m1", "m2", "u1", "o1"]));
    assert_eq!(names(SortMode::Downstream), strings(&["s1", "i1", "m2", "m1", "u1", "o1"]));
    assert_eq!(names(SortMode::Tests), strings(&["s1", "i1", "m1", "m2", "u1", "o1"]));
    assert_eq!(SortMode::Layer.next().next().next(), SortMode::Layer);
}

#[test]
fn every_order_lists_the_same_models() {
    let mut a = app_of(&diamond());
    a.select_by_name("d");
    let mut before: Vec<String> = a.model_list.models.iter().map(|n| n.unique_id.clone()).collect();
    before.sort();
    for _ in 0..3 {
        apply_action(&mut a, Action::SortCycle);
        let mut after: Vec<String> = a.model_list.models.iter().map(|n| n.unique_id.clone()).collect();
        after.sort();
        assert_eq!(after, before);
        assert_eq!(a.selected_name().as_deref(), Some("d"));
    }
}

#[test]
fn layers_and_their_ranks() {
    let ranks: Vec<usize> =
        ["staging", "intermediate", "marts", "utilities", "other", ""].iter().map(|l| layer_rank(l)).collect();
    assert_eq!(ranks, [0, 1, 2, 3, 4, 4]);
    let mut n = NodeInfo { path: Some("marts/core/x.sql".to_string()), ..Default::default() };
    assert_eq!(first_dir(&n).as_deref(), Some("marts"));
    n.path = Some("x.sql".to_string());
    assert_eq!(first_dir(&n), None);
    n.path = None;
    assert_eq!(first_dir(&n), None);
}

#[test]
fn queries_match_as_subsequences() {
    assert!(name_matches_query("stg_orders", "sod"));
    assert!(!name_matches_query("stg_orders", "dso"));
    assert!(name_matches_query("anything", ""));
    assert_eq!(match_indices("stg_orders", "so"), vec![0, 4]);
    assert!(match_indices("stg_orders", "x").is_empty());
    assert!(match_indices("stg_orders", "").is_empty());
}

#[test]
fn typing_narrows_a_search() {
    let dag = Dag::build(&manifest(&[("stg_orders", "staging"), ("stg_shops", "staging"), ("fct", "marts")], &[]));
    let list = build_model_list(&dag, SortMode::Layer);
    let s = build_filtered_model_list(&list, "s");
    let st = build_filtered_model_list(&list, "sto");
    assert_eq!((list.len(), s.len(), st.len()), (3, 2, 2));
    assert_eq!(build_filtered_model_list(&list, "stor").len(), 1);
    assert!(filter_model_list(&list, &Keep::Named("zz")).is_empty());
    let mut marked = StrSet::new();
    marked.insert("model.p.fct".to_string());
    assert_eq!(filter_model_list(&list, &Keep::Bookmarked(&marked)).models[0].name, "fct");
    assert_eq!(filter_model_list(&list, &Keep::Untested).len(), 3);
}

#[test]
fn cycling_wraps_and_tries_the_start_last() {
    let dag = Dag::build(&diamond());
    let list = build_model_list(&dag, SortMode::Layer);
    let mut marked = StrSet::new();
    assert_eq!(cycle_to(&list, 0, true, &Keep::Bookmarked(&marked)), None);
    marked.insert("model.p.b".to_string());
    let keep = Keep::Bookmarked(&marked);
    assert_eq!(cycle_to(&list, 1, true, &keep), Some(1), "the only one is where it starts");
    assert_eq!(cycle_to(&list, 4, true, &keep), Some(1));
    assert_eq!(cycle_to(&list, 0, false, &keep), Some(1));
    assert_eq!(cycle_to(&ModelList { models: Vec::new() }, 0, true, &Keep::Untested), None);
}

// ---- the panes ----

#[test]
fn the_selection_is_clamped_to_the_list() {
    let mut ui = UiState::new(3);
    for _ in 0..5 {
        reduce_selection(&mut ui, Action::MoveDown);
    }
    assert_eq!(ui.selected(), 2);
    ui.set_model_count(1);
    assert_eq!(ui.selected(), 0);
    ui.set_selected(7);
    assert_eq!(ui.selected(), 0);
    let mut empty = UiState::new(0);
    reduce_selection(&mut empty, Action::JumpBottom);
    assert_eq!(empty.selected(), 0);
}

#[test]
fn a_hidden_list_gives_the_focus_away() {
    let mut ui = UiState::new(3);
    reduce_selection(&mut ui, Action::ToggleListPane);
    assert_eq!((ui.list_visible(), ui.focus()), (false, Focus::RightPane));
    reduce_selection(&mut ui, Action::ToggleFocus);
    assert_eq!(ui.focus(), Focus::RightPane, "a hidden list cannot have the focus");
    reduce_selection(&mut ui, Action::ToggleListPane);
    assert_eq!((ui.list_visible(), ui.focus()), (true, Focus::List));
}

#[test]
fn toggles_undo_themselves() {
    let mut a = app_of(&diamond());
    let view = a.lineage_view;
    let ui = a.ui_state;
    for action in [Action::ToggleUpstream, Action::ToggleDownstream, Action::ToggleMinimap, Action::ToggleDensity] {
        apply_action(&mut a, action);
        assert!(a.lineage_view != view || a.ui_state != ui, "{action:?} changes something");
        apply_action(&mut a, action);
        assert!(a.lineage_view == view && a.ui_state == ui, "{action:?} twice changes nothing");
    }
}

#[test]
fn the_depth_goes_from_three_to_one_and_beyond_eight() {
    let mut a = app_of(&diamond());
    let mut seen = Vec::new();
    for _ in 0..4 {
        apply_action(&mut a, Action::DepthDecrease);
        seen.push(a.lineage_view.depth);
    }
    assert_eq!(seen, [Some(3), Some(2), Some(1), Some(1)]);
    for _ in 0..7 {
        apply_action(&mut a, Action::DepthIncrease);
    }
    assert_eq!(a.lineage_view.depth, Some(8));
    apply_action(&mut a, Action::DepthIncrease);
    assert_eq!(a.lineage_view.depth, None);
    apply_action(&mut a, Action::DepthIncrease);
    assert_eq!(a.lineage_view.depth, None);
}

#[test]
fn labels_of_the_view() {
    let mut a = app_of(&diamond());
    assert_eq!(a.lineage_view_label(), "↑↓");
    apply_action(&mut a, Action::DepthDecrease);
    assert_eq!(a.lineage_view_label(), "↑↓ ≤3");
    a.glyph_mode = GlyphMode::Ascii;
    apply_action(&mut a, Action::ToggleUpstream);
    assert_eq!(a.lineage_view_label(), "> <=3");
    apply_action(&mut a, Action::ToggleDownstream);
    apply_action(&mut a, Action::DepthIncrease);
    assert_eq!(a.lineage_view_label(), "- <=4");
}

// ---- the lineage ----

#[test]
fn the_highlighted_path_is_a_shortest_one() {
    let m = manifest(
        &[("r", "s"), ("x", "s"), ("y", "s"), ("z", "s"), ("t", "s")],
        &[("r", "x"), ("x", "y"), ("y", "t"), ("r", "z"), ("z", "t")],
    );
    let mut a = app_of(&m);
    a.select_by_name("r");
    a.lineage_cursor = Some("model.p.t".to_string());
    assert_eq!(members(&a.lineage_path_set()), strings(&["model.p.r", "model.p.t", "model.p.z"]));
    let mut edges = a.lineage_path_edges();
    edges.sort();
    assert_eq!(
        edges,
        [
            ("model.p.r".to_string(), "model.p.z".to_string()),
            ("model.p.z".to_string(), "model.p.t".to_string()),
        ]
    );
    a.reset_lineage_cursor();
    assert!(a.lineage_path_set().is_empty() && a.lineage_path_edges().is_empty());
}

#[test]
fn an_edge_that_one_map_records_is_drawn_and_followed() {
    let mut m = manifest(&[("r", "s"), ("t", "s")], &[]);
    m.child_map.insert("model.p.r".to_string(), strings(&["model.p.t"]));
    let mut a = app_of(&m);
    a.select_by_name("r");
    let sg = a.lineage_subgraph();
    let edges: Vec<(&str, &str)> = sg.edges.iter().map(|e| (e.parent.as_str(), e.child.as_str())).collect();
    assert_eq!(edges, [("model.p.r", "model.p.t")]);
    a.lineage_cursor = Some("model.p.t".to_string());
    assert_eq!(members(&a.lineage_path_set()), strings(&["model.p.r", "model.p.t"]));
}

#[test]
fn a_cursor_that_left_the_lineage_is_at_home() {
    let mut a = app_of(&diamond());
    a.select_by_name("b");
    a.lineage_cursor = Some("model.p.e".to_string());
    assert_eq!(a.lineage_cursor_uid().as_deref(), Some("model.p.b"));
    assert_eq!(a.lineage_display_subgraph().selected, "model.p.b");
    for dir in [Direction::Up, Direction::Down, Direction::Left, Direction::Right] {
        a.move_lineage_cursor(dir);
        let cur = a.lineage_cursor_uid().expect("a cursor");
        assert!(a.lineage_subgraph().contains(&cur), "{dir:?} stays in the lineage");
    }
}

#[test]
fn an_empty_project_has_no_selection() {
    let mut a = app_of(&RawManifest::default());
    assert_eq!(a.selected_unique_id(), None);
    assert_eq!(a.lineage_cursor_uid(), None);
    assert!(a.lineage_subgraph().nodes.is_empty());
    assert!(a.styled_lineage_layout().is_none());
    assert_eq!((a.lineage_mermaid(), a.lineage_dot(), a.lineage_ascii()), (None, None, None));
    assert_eq!((a.impact_report(), a.dbt_selector_command(), a.impact_status()), (None, None, None));
    assert_eq!(a.selected_status_note(), None);
    for b in bindings() {
        let out = apply_action(&mut a, b.action);
        assert_eq!(out.quit, b.action == Action::Quit);
    }
}

#[test]
fn history_goes_back_and_forth() {
    let mut a = app_of(&diamond());
    a.select_by_name("a");
    a.jump_to("model.p.d");
    assert_eq!(a.back, strings(&["model.p.a"]));
    a.history_back();
    assert_eq!((a.selected_name().as_deref(), a.back.len()), (Some("a"), 0));
    a.history_forward();
    assert_eq!(a.selected_name().as_deref(), Some("d"));
    assert_eq!(a.back, strings(&["model.p.a"]));
    a.jump_to("source.unknown");
    assert_eq!(a.selected_name().as_deref(), Some("d"), "an unknown id is no target");
    assert_eq!(a.back, strings(&["model.p.a"]));
}

#[test]
fn a_reload_drops_what_is_gone() {
    let mut a = app_of(&diamond());
    a.back = strings(&["model.p.a", "model.p.e", "model.p.a", "model.p.b"]);
    a.bookmarks.insert("model.p.e".to_string());
    a.bookmarks.insert("model.p.b".to_string());
    a.select_by_name("d");
    apply_action(&mut a, Action::HelpToggle);
    let smaller = manifest(&[("a", "staging"), ("b", "staging"), ("d", "marts")], &[("a", "b")]);
    assert_eq!(a.reload(Ok(Dag::build(&smaller))), Ok(()));
    assert_eq!(a.back, strings(&["model.p.a", "model.p.b"]), "adjacent repetitions collapse");
    assert_eq!(members(&a.bookmarks), strings(&["model.p.b"]));
    assert_eq!(a.selected_name().as_deref(), Some("d"));
    assert_eq!((a.stats.models, a.mode == Mode::Selection), (3, true));
}

#[test]
fn a_failed_load_is_handed_back() {
    let error = || LoadError { message: "truncated".to_string() };
    let mut a = app_of(&diamond());
    a.select_by_name("c");
    assert_eq!(a.reload(Err(error())), Err(error()));
    assert_eq!(a.adopt_manifest("/else/target/m.json".to_string(), Err(error())), Err(error()));
    assert_eq!(a.selected_name().as_deref(), Some("c"));
    assert_eq!((a.project_root(), a.watch_root()), ("/work/p", ("/work/p/target/m.json", false)));
    assert!(matches!(load_dag(Err(error())), Err(e) if e == error()));
    assert_eq!(load_dag(Ok(diamond())).expect("a graph").len(), 5);
}

#[test]
fn a_project_directory_is_watched_as_a_whole() {
    let a = App::from_source(Dag::build(&diamond()), "/work/p".to_string());
    assert_eq!((a.watch_root(), a.is_source_mode(), a.project_root()), (("/work/p", true), true, "/work/p"));
}

#[test]
fn project_roots() {
    assert_eq!(derive_project_root("/x/proj/target/m"), "/x/proj");
    assert_eq!(derive_project_root("target/m"), "");
    assert_eq!(derive_project_root("m"), ".");
    assert_eq!(derive_project_root("/m"), ".");
    assert_eq!(derive_project_root("/x/proj/target//m/"), "/x/proj");
}

#[test]
fn files_outside_the_project_are_not_opened() {
    let mut m = RawManifest::default();
    for (name, path) in [("a", "models/a.sql"), ("b", "../b.sql"), ("c", "/etc/c.sql"), ("d", "models/../../d.sql")] {
        m.nodes.insert(
            format!("model.p.{name}"),
            RawNode { original_file_path: Some(path.to_string()), ..model(name, "staging") },
        );
    }
    m.nodes.insert("model.p.e".to_string(), model("e", "staging"));
    let mut a = app_of(&m);
    let mut opened = Vec::new();
    for name in ["a", "b", "c", "d", "e"] {
        a.select_by_name(name);
        opened.push(apply_action(&mut a, Action::OpenEditor).effects);
    }
    assert_eq!(opened[0], vec![Effect::OpenEditor("/work/p/models/a.sql".to_string())]);
    assert!(opened[1..].iter().all(|e| e.is_empty()));
}

#[test]
fn bookmarks_and_filters() {
    let mut a = app_of(&diamond());
    a.select_by_name("b");
    apply_action(&mut a, Action::BookmarkToggle);
    assert_eq!(a.take_notice().as_deref(), Some("Bookmarked: b"));
    apply_action(&mut a, Action::BookmarkToggle);
    assert_eq!(a.take_notice().as_deref(), Some("Removed bookmark: b"));
    assert!(a.bookmarks.is_empty());
    apply_action(&mut a, Action::ToggleBookmarkFilter);
    assert_eq!((a.active_list().len(), a.selected_unique_id()), (0, None));
    assert_eq!(a.list_filter_label(), Some("marked"));
    apply_action(&mut a, Action::ToggleBookmarkFilter);
    assert_eq!((a.list_filter, a.active_list().len()), (ListFilter::All, 5));
}

#[test]
fn giving_up_a_search_restores_list_and_selection() {
    let mut a = app_of(&diamond());
    a.select_by_name("c");
    apply_action(&mut a, Action::SearchOpen);
    apply_action(&mut a, Action::SearchType('d'));
    assert_eq!((a.active_list().len(), a.selected_name().as_deref()), (1, Some("d")));
    apply_action(&mut a, Action::SearchBackspace);
    apply_action(&mut a, Action::SearchBackspace);
    assert_eq!(a.active_list().len(), 5, "an empty query matches everything");
    apply_action(&mut a, Action::SearchType('d'));
    apply_action(&mut a, Action::SearchCancel);
    assert_eq!((a.active_list().len(), a.selected_name().as_deref()), (5, Some("c")));
    assert_eq!(a.mode, Mode::Selection);
}

#[test]
fn a_confirmed_search_keeps_its_row() {
    let mut a = app_of(&diamond());
    apply_action(&mut a, Action::SearchOpen);
    for c in "zz".chars() {
        apply_action(&mut a, Action::SearchType(c));
    }
    assert_eq!(a.selected_unique_id(), None);
    apply_action(&mut a, Action::SearchConfirm);
    assert_eq!(a.active_list().len(), 5);
    apply_action(&mut a, Action::SearchOpen);
    apply_action(&mut a, Action::SearchType('e'));
    apply_action(&mut a, Action::SearchConfirm);
    assert_eq!(a.selected_name().as_deref(), Some("e"));
}

#[test]
fn a_lineage_search_cycles_through_its_matches() {
    let mut a = app_of(&manifest(&[("ma", "s"), ("mb", "s"), ("mc", "s")], &[("ma", "mb"), ("mb", "mc")]));
    a.select_by_name("mb");
    a.ui_state.set_focus(Focus::RightPane);
    apply_action(&mut a, Action::SearchOpen);
    assert_eq!(a.current_lineage_match(), None, "a blank query matches nothing");
    apply_action(&mut a, Action::SearchType('m'));
    let mut seen = Vec::new();
    for _ in 0..4 {
        seen.push(a.current_lineage_match().expect("a match"));
        apply_action(&mut a, Action::SearchMove(Direction::Down));
    }
    assert_eq!(seen, strings(&["model.p.ma", "model.p.mb", "model.p.mc", "model.p.ma"]));
    apply_action(&mut a, Action::SearchMove(Direction::Up));
    apply_action(&mut a, Action::SearchMove(Direction::Up));
    assert_eq!(a.current_lineage_match().as_deref(), Some("model.p.mc"));
    apply_action(&mut a, Action::SearchConfirm);
    assert_eq!(a.selected_name().as_deref(), Some("mc"));
    assert_eq!(a.back, strings(&["model.p.mb"]));
}

// ---- drawings ----

#[test]
fn drawings_of_two_nodes() {
    let sg = Dag::build(&manifest(&[("a", "s"), ("b", "s")], &[("a", "b")])).subgraph("model.p.a");
    assert_eq!(
        layout_mode(&sg, GlyphMode::Ascii).grid.to_text(),
        "+---+   +---+\n| a |-->| b |\n+---+   +---+\n"
    );
    assert_eq!(
        layout_mode(&sg, GlyphMode::Unicode).grid.to_text(),
        "╭───╮   ╭───╮\n│ a │──▶│ b │\n╰───╯   ╰───╯\n"
    );
    assert_eq!(layout_density(&sg, GlyphMode::Ascii, Density::Compact).grid.to_text(), "[a]-->[b]\n");
}

#[test]
fn drawings_name_classes_and_tests() {
    let mut m = manifest(&[("orders", "s")], &[]);
    m.nodes.insert(
        "model.p.orders".to_string(),
        RawNode { config: RawConfig { materialized: Some("view".to_string()) }, ..model("orders", "s") },
    );
    m.nodes.insert("test.p.1".to_string(), test_node("model.p.orders", Some("unique"), None, "u"));
    let sg = Dag::build(&m).subgraph("model.p.orders");
    assert_eq!(
        layout_mode(&sg, GlyphMode::Ascii).grid.to_text(),
        "+View----+\n| orders |\n+tests:1-+\n"
    );
}

#[test]
fn boxes_do_not_overlap_and_edges_go_right() {
    let sg = Dag::build(&diamond()).subgraph("model.p.a");
    for density in [Density::Comfortable, Density::Compact] {
        let lay = layout_density(&sg, GlyphMode::Unicode, density);
        let other = layout_density(&sg, GlyphMode::Ascii, density);
        assert_eq!((&lay.rects, &lay.columns, &lay.edge_cells), (&other.rects, &other.columns, &other.edge_cells));
        for e in &sg.edges {
            let (p, c) = (lay.columns.get(&e.parent).expect("drawn"), lay.columns.get(&e.child).expect("drawn"));
            assert!(p < c);
        }
        for i in 0..lay.rects.len() {
            for j in 0..i {
                let (a, b) = (lay.rects.value_at(i), lay.rects.value_at(j));
                let apart = a.x + a.width <= b.x
                    || b.x + b.width <= a.x
                    || a.y + a.height <= b.y
                    || b.y + b.height <= a.y;
                assert!(apart, "{a:?} and {b:?}");
            }
        }
        assert!(other.grid.to_text().is_ascii());
    }
}

#[test]
fn classes_of_nodes() {
    let class = |kind: &str, materialized: Option<&str>| MaterializationClass::classify(kind, materialized);
    assert_eq!(class("source", Some("table")), MaterializationClass::Source);
    assert_eq!(class("seed", None), MaterializationClass::Seed);
    assert_eq!(class("snapshot", None), MaterializationClass::Snapshot);
    assert_eq!(class("exposure", None), MaterializationClass::Exposure);
    assert_eq!(class("model", Some("incremental")), MaterializationClass::Incremental);
    assert_eq!(class("model", Some("ephemeral")), MaterializationClass::Ephemeral);
    assert_eq!(class("model", Some("custom")), MaterializationClass::Plain);
    assert_eq!(class("model", None), MaterializationClass::Plain);
}

// ---- trails ----

#[test]
fn trails_are_measured_in_columns() {
    let trail = "受注 > 顧客";
    assert_eq!(fit_breadcrumb(trail, 11).as_deref(), Some(trail));
    assert_eq!(fit_breadcrumb(trail, 10).as_deref(), Some(".. > 顧客"), "wide characters take two columns");
    assert_eq!(fit_breadcrumb(trail, 9).as_deref(), Some(".. > 顧客"));
    assert_eq!(fit_breadcrumb(trail, 8), None);
}

#[test]
fn trails_lose_their_oldest_entries_first() {
    assert_eq!(trail_candidates("a > b > c"), strings(&["a > b > c", ".. > b > c", ".. > c"]));
    assert_eq!(trail_candidates(""), strings(&[""]));
    assert_eq!(trail_candidates(" > "), strings(&[" > ", ".. > "]));
    let cs = trail_candidates("a > b > c");
    assert_eq!(first_fitting(&cs, &vec![9, 10, 6], 8).as_deref(), Some(".. > c"));
    assert_eq!(first_fitting(&cs, &vec![9, 10, 6], 5), None);
}

#[test]
fn a_trail_that_cannot_fit_is_cut_to_the_root() {
    let mut a = app_of(&diamond());
    a.select_by_name("a");
    a.jump_to("model.p.d");
    assert_eq!(a.breadcrumb(200).as_deref(), Some("a > d"));
    assert_eq!(a.breadcrumb(1).as_deref(), Some(".. > d"));
}

#[test]
fn a_trail_keeps_the_whole_name_of_the_root() {
    let mut m = diamond();
    m.nodes.insert("model.p.d".to_string(), model("d > x", "marts"));
    let mut a = app_of(&m);
    a.select_by_name("a");
    a.jump_to("model.p.d");
    assert_eq!(a.breadcrumb(200).as_deref(), Some("a > d > x"));
    assert_eq!(a.breadcrumb(8).as_deref(), Some(".. > d > x"));
}

// ---- exports ----

#[test]
fn mermaid_diagrams() {
    let sg = Dag::build(&manifest(&[("a", "s"), ("b", "s")], &[("a", "b")])).subgraph("model.p.a");
    assert_eq!(
        subgraph_mermaid(&sg),
        "```mermaid\ngraph LR\n  model_p_a[\"a (model) *\"]\n  model_p_b[\"b (model)\"]\n  model_p_a --> model_p_b\n```\n"
    );
    let mut links = StrMap::new();
    links.insert("model.p.b".to_string(), "b\".md".to_string());
    assert_eq!(
        subgraph_mermaid_linked(&sg, &links),
        "```mermaid\ngraph LR\n  model_p_a[\"a (model) *\"]\n  model_p_b[\"b (model)\"]\n  model_p_a --> model_p_b\n  click model_p_b \"b#quot;.md\"\n```\n"
    );
}

#[test]
fn mermaid_ids_are_distinct_and_never_reserved() {
    let mut uids = StrSet::new();
    for uid in ["model.p.x_y", "model.p_x.y", "end", "", "_"] {
        uids.insert(uid.to_string());
    }
    let ids = mermaid_ids(&uids);
    assert_eq!(ids.get("model.p.x_y").map(String::as_str), Some("model_p_x_y"));
    assert_eq!(ids.get("model.p_x.y").map(String::as_str), Some("model_p_x_y_2"));
    assert_eq!(ids.get("end").map(String::as_str), Some("end_2"));
    assert_eq!(ids.get("").map(String::as_str), Some("_"));
    assert_eq!(ids.get("_").map(String::as_str), Some("__2"));
}

#[test]
fn labels_and_file_names_stay_closed() {
    assert_eq!(mermaid_label("a\"b\nc\u{9f}d"), "a#quot;b c d");
    assert_eq!(safe_file_name("../x\\y"), ".._x_y");
    let n = NodeInfo { resource_type: "seed".to_string(), ..Default::default() };
    assert_eq!(node_kind(&n), "seed");
}

#[test]
fn graphviz_diagrams() {
    let mut m = manifest(&[("b", "s")], &[]);
    m.nodes.insert("model.p.\"q\\".to_string(), model("q", "s"));
    edge(&mut m, "model.p.\"q\\", "model.p.b");
    let sg = Dag::build(&m).subgraph("model.p.b");
    assert_eq!(
        subgraph_dot(&sg),
        "digraph lineage {\n  rankdir=LR;\n  node [shape=box];\n  \"model.p.\\\"q\\\\\" [label=\"q\\n(model)\"];\n  \"model.p.b\" [label=\"b\\n(model)\"];\n  \"model.p.\\\"q\\\\\" -> \"model.p.b\";\n}\n"
    );
}

#[test]
fn what_is_copied() {
    let mut m = diamond();
    m.nodes.insert("model.p.b".to_string(), RawNode { raw_code: Some(" \n".to_string()), ..model("b", "s") });
    m.nodes.insert("model.p.c".to_string(), RawNode { raw_code: Some("select 1".to_string()), ..model("c", "s") });
    let mut a = app_of(&m);
    a.select_by_name("b");
    assert_eq!(yanked(&mut a, Action::YankName).as_deref(), Some("b"));
    assert_eq!(a.take_notice().as_deref(), Some("Copied model name"));
    assert_eq!(yanked(&mut a, Action::YankSql), None, "blank SQL counts as none");
    assert_eq!(a.take_notice(), None);
    a.select_by_name("c");
    assert_eq!(yanked(&mut a, Action::YankSql).as_deref(), Some("select 1"));
    assert_eq!(a.dbt_selector_command().as_deref(), Some("dbt build --select +c+"));
    a.lineage_view.depth = Some(2);
    assert_eq!(a.dbt_selector_command().as_deref(), Some("dbt build --select 2+c+2"));
    a.lineage_view.upstream = false;
    assert_eq!(a.dbt_selector_command().as_deref(), Some("dbt build --select c+2"));
    a.lineage_view.downstream = false;
    assert_eq!(a.dbt_selector_command().as_deref(), Some("dbt build --select c"));
}

#[test]
fn impact_reports() {
    let mut m = diamond();
    m.exposures.insert(
        "exposure.p.board".to_string(),
        RawExposure {
            name: "board".to_string(),
            exposure_type: Some("dashboard".to_string()),
            owner: RawExposureOwner { name: Some("Fin".to_string()), email: Some("f@x".to_string()) },
            depends_on: RawDependsOn { nodes: strings(&["model.p.d"]) },
            ..Default::default()
        },
    );
    let mut a = app_of(&m);
    a.select_by_name("b");
    assert_eq!(
        a.impact_report().as_deref(),
        Some(
            "# Impact: b\n\n- unique_id: `model.p.b`\n- direct: 1 upstream / 1 downstream\n- transitive: 1 upstream / 1 downstream\n- affected exposures: 1\n\n## Downstream (blast radius) (1)\n- d\n\n## Upstream (1)\n- a\n\n## Affected exposures (1)\n- board (dashboard, owner: Fin <f@x>)\n"
        )
    );
    assert_eq!(a.impact_breakdown_for("model.p.b"), (1, 1, 1));
    assert_eq!(a.impact_status().as_deref(), Some("impact ↓1 ↑1 exp:1"));
}

#[test]
fn reports_and_counts_agree_on_ancestors() {
    let mut m = manifest(&[("a", "s")], &[]);
    m.exposures.insert(
        "exposure.p.odd".to_string(),
        RawExposure { name: "odd".to_string(), ..Default::default() },
    );
    edge(&mut m, "exposure.p.odd", "model.p.a");
    let a = app_of(&m);
    assert_eq!(a.impact_counts_for("model.p.a"), (0, 1));
    let report = a.impact_report().expect("a report");
    assert!(report.contains("- transitive: 1 upstream / 0 downstream\n"), "{report}");
    assert!(report.contains("## Upstream (1)\n- odd\n"), "{report}");
    assert_eq!(a.impact_status().as_deref(), Some("impact ↓0 ↑1"));
}

#[test]
fn notes_on_exposures() {
    let info = |kind: Option<&str>, name: Option<&str>, email: Option<&str>| ExposureInfo {
        exposure_type: kind.map(String::from),
        owner_name: name.map(String::from),
        owner_email: email.map(String::from),
        url: None,
    };
    assert_eq!(exposure_note(None), " (exposure)");
    assert_eq!(exposure_note(Some(&info(Some("ml"), None, None))), " (ml)");
    assert_eq!(exposure_note(Some(&info(None, Some("N"), None))), " (exposure, owner: N)");
    assert_eq!(exposure_note(Some(&info(None, None, Some("e")))), " (exposure, owner: <e>)");
}

#[test]
fn reports_on_a_change() {
    let a = app_of(&diamond());
    let pair = |x: &str, y: &str| (x.to_string(), y.to_string());
    let view = DiffView {
        baseline: "main".to_string(),
        added: vec![pair("n", "model"), pair("m", "")],
        removed: vec![],
        modified: vec![pair("k", "SQL changed; tests: 0 -> 1")],
        edges_added: vec![pair("n", "k")],
        edges_removed: vec![],
        pr: PrImpact {
            affected_models: 2,
            affected_marts: strings(&["d"]),
            affected_exposures: strings(&["board (dashboard)"]),
            ci_command: Some("dbt build --select n+".to_string()),
            untested_changes: strings(&["n"]),
            changed_hubs: vec![("k".to_string(), 7)],
            new_layer_violations: vec![pair("d", "a")],
        },
        scroll: 0,
    };
    assert_eq!(
        a.pr_impact_markdown(&view),
        "# PR Impact Report: p\n\n- baseline: `main`\n- changed: +2 added, ~1 modified, -0 removed\n- edges: +1 / -0\n- affected models: 2\n- affected marts: 1\n- affected exposures: 1\n\n## Added (2)\n- n (model)\n- m\n\n## Modified (1)\n- k: SQL changed; tests: 0 -> 1\n\n## Edges added (1)\n- n -> k\n\n## Blast radius (2 affected models)\n\n### Affected marts (1)\n- d\n\n## Affected exposures (1)\n- board (dashboard)\n\n## Suggested CI command\n```sh\ndbt build --select n+\n```\n\n## Risk flags\n\n### Untested changes (1)\n- n\n\n### Changed hubs (1)\n- k (7 downstream)\n\n### New layer violations (1)\n- d -> a\n"
    );
    assert_eq!(
        app_of(&RawManifest::default()).pr_impact_markdown(&DiffView::default()),
        "# PR Impact Report: dbt\n\n- baseline: ``\n- changed: +0 added, ~0 modified, -0 removed\n- edges: +0 / -0\n- affected models: 0\n\n## Blast radius (0 affected models)\n- no affected marts\n\n## Suggested CI command\n- no buildable changes\n"
    );
}

// ---- comparisons ----

#[test]
fn a_comparison_read_backwards() {
    let old = Dag::build(&diamond());
    let new = Dag::build(&manifest(
        &[("a", "staging"), ("b", "intermediate"), ("d", "marts"), ("f", "marts")],
        &[("a", "b"), ("b", "d"), ("d", "f")],
    ));
    let there = compute_diff(&old, &new);
    let back = compute_diff(&new, &old);
    assert_eq!(there.edges_added, back.edges_removed);
    assert_eq!(there.edges_removed, back.edges_added);
    assert_eq!((there.added.len(), there.removed.len()), (back.removed.len(), back.added.len()));
    assert_eq!(there.counts(), (1, 1, 2));
    assert_eq!(there.status("model.p.f"), DiffStatus::Added);
    assert_eq!(there.status("model.p.d"), DiffStatus::Modified);
    assert_eq!(there.status("model.p.c"), DiffStatus::Unchanged, "what is gone has no status");
    assert_eq!(there.removed, vec![("c".to_string(), "model".to_string()), ("e".to_string(), "model".to_string())]);
    assert!(compute_diff(&old, &old).is_empty());
}

#[test]
fn a_baseline_shows_in_label_lens_and_modal() {
    let mut a = app_of(&diamond());
    assert_eq!((a.diff_status_label(), a.diff().is_none()), (None, true));
    apply_action(&mut a, Action::DiffOpen);
    assert_eq!(a.take_notice().as_deref(), Some("No baseline loaded (start with --diff)"));
    assert_eq!(a.mode, Mode::Selection);
    a.set_diff_base(Dag::build(&diamond()), "main".to_string());
    assert_eq!(a.diff_status_label().as_deref(), Some("diff clean"));
    let old = manifest(&[("a", "staging"), ("z", "marts")], &[]);
    a.set_diff_base(Dag::build(&old), "older".to_string());
    assert_eq!(a.diff_status_label().as_deref(), Some("diff +4 ~0 -1"));
    assert_eq!(a.diff_label(), "older");
    for _ in 0..5 {
        apply_action(&mut a, Action::CycleLens);
    }
    assert_eq!(a.ui_state.lens(), LineageLens::Diff);
    a.select_by_name("a");
    let lay = a.styled_lineage_layout().expect("a drawing");
    let styles = a.lineage_styles(&lay);
    assert_eq!(styles.get("model.p.d").map(|c| c.lens), Some(LensTint::DiffAdded));
    assert_eq!(styles.get("model.p.a").map(|c| c.lens), Some(LensTint::Untinted));
    apply_action(&mut a, Action::CycleLens);
    assert_eq!(a.ui_state.lens(), LineageLens::Off);
    apply_action(&mut a, Action::DiffOpen);
    match &a.mode {
        Mode::Diff(v) => {
            assert_eq!(v.baseline, "older");
            assert_eq!(v.removed, vec![("z".to_string(), "model".to_string())]);
            assert_eq!(v.added.len(), 4);
        }
        other => panic!("expected the comparison, got {other:?}"),
    }
    apply_action(&mut a, Action::DetailScrollPage(Direction::Down));
    assert!(matches!(&a.mode, Mode::Diff(v) if v.scroll == 10));
}

#[test]
fn a_comparison_says_what_it_touches() {
    let mut new = manifest(
        &[("a", "staging"), ("b", "intermediate"), ("d", "marts"), ("k", "staging")],
        &[("a", "b"), ("b", "d"), ("d", "k")],
    );
    new.nodes.insert(
        "model.p.b".to_string(),
        RawNode { config: RawConfig { materialized: Some("table".to_string()) }, ..model("b", "intermediate") },
    );
    new.nodes.insert("test.p.1".to_string(), test_node("model.p.k", Some("unique"), None, "u"));
    new.exposures.insert(
        "exposure.p.board".to_string(),
        RawExposure {
            name: "board".to_string(),
            exposure_type: Some("dashboard".to_string()),
            depends_on: RawDependsOn { nodes: strings(&["model.p.d"]) },
            ..Default::default()
        },
    );
    let mut old = manifest(&[("a", "staging"), ("b", "intermediate"), ("d", "marts")], &[("a", "b"), ("b", "d")]);
    old.exposures.insert(
        "exposure.p.board".to_string(),
        RawExposure {
            name: "board".to_string(),
            exposure_type: Some("dashboard".to_string()),
            depends_on: RawDependsOn { nodes: strings(&["model.p.d"]) },
            ..Default::default()
        },
    );
    let mut a = app_of(&new);
    a.set_diff_base(Dag::build(&old), "main".to_string());
    let view = a.compute_diff_view().expect("a comparison");
    assert_eq!(view.added, vec![("k".to_string(), "model".to_string())]);
    assert_eq!(view.modified.len(), 1, "b");
    assert_eq!(
        view.pr,
        PrImpact {
            affected_models: 2,
            affected_marts: strings(&["d"]),
            affected_exposures: strings(&["board (dashboard)"]),
            ci_command: Some("dbt build --select b+ k+".to_string()),
            untested_changes: strings(&["b"]),
            changed_hubs: vec![("b".to_string(), 3)],
            new_layer_violations: vec![("d".to_string(), "k".to_string())],
        }
    );
    assert!(a.pr_impact_markdown(&view).contains("## Blast radius (2 affected models)\n"));
}

#[test]
fn a_comparison_without_changes_touches_nothing() {
    let mut a = app_of(&diamond());
    a.set_diff_base(Dag::build(&diamond()), "main".to_string());
    assert_eq!(a.compute_diff_view().expect("a comparison").pr, PrImpact::default());
}

#[test]
fn the_comparison_follows_a_reload() {
    let mut a = app_of(&diamond());
    a.set_diff_base(Dag::build(&diamond()), "main".to_string());
    assert_eq!(a.reload(Ok(Dag::build(&manifest(&[("a", "staging")], &[])))), Ok(()));
    assert_eq!(a.diff_status_label().as_deref(), Some("diff +0 ~0 -4"));
}

// ---- themes ----

#[test]
fn themes_wrap_around_and_are_named() {
    let mut a = app_of(&diamond());
    assert_eq!((a.theme_name(), a.active_theme().base), ("default", Preset::Plain));
    apply_action(&mut a, Action::ThemeCycle);
    assert_eq!(a.take_notice().as_deref(), Some("theme: ayu-dark"));
    for _ in 0..4 {
        apply_action(&mut a, Action::ThemeCycle);
    }
    assert_eq!(a.theme_name(), "default");
    a.set_themes(Vec::new(), 3);
    assert_eq!(a.theme_name(), "ayu-light", "an empty list leaves the themes as they are");
    a.set_themes(vec![("mine".to_string(), Theme { base: Preset::GruvboxDark, overrides: Vec::new() })], 9);
    assert_eq!((a.theme_name(), a.active_theme().base), ("mine", Preset::GruvboxDark));
    assert_eq!(presets().len(), 5);
}

#[test]
fn every_session_starts_with_the_built_in_themes() {
    let built_in = [
        ("default", Preset::Plain),
        ("ayu-dark", Preset::AyuDark),
        ("ayu-mirage", Preset::AyuMirage),
        ("ayu-light", Preset::AyuLight),
        ("gruvbox-dark", Preset::GruvboxDark),
    ];
    let mut sessions =
        [app_of(&diamond()), App::from_source(Dag::build(&diamond()), "/work/p".to_string())];
    for a in &mut sessions {
        for (name, base) in built_in {
            assert_eq!((a.theme_name(), a.active_theme().base), (name, base));
            assert!(a.active_theme().overrides.is_empty());
            a.cycle_theme();
        }
        assert_eq!(a.theme_name(), "default");
    }
}

// ---- pages ----

#[test]
fn pages_are_distinct_and_linked() {
    let mut m = RawManifest::default();
    for uid in ["model.p.a b", "model.p.a_b", "model.p.a/b"] {
        m.nodes.insert(uid.to_string(), model("ab", "staging"));
    }
    let dag = Dag::build(&m);
    let files = node_files(&dag);
    let paths: Vec<&str> = (0..files.len()).map(|i| files.value_at(i).as_str()).collect();
    assert_eq!(paths, ["models/model.p.a_b.md", "models/model.p.a_b_2.md", "models/model.p.a_b_3.md"]);
    let docs = generate_docs(&dag, "p", "src");
    assert_eq!(docs.len(), 4);
    assert_eq!(docs[3].0, "README.md");
}

#[test]
fn the_index_lists_unknown_kinds_by_id() {
    let mut m = manifest(&[("z", "staging"), ("y", "staging")], &[]);
    for (uid, name) in [("analysis.p.1", "second"), ("analysis.p.2", "first")] {
        m.nodes.insert(
            uid.to_string(),
            RawNode { name: name.to_string(), resource_type: "analysis".to_string(), ..Default::default() },
        );
    }
    let docs = generate_docs(&Dag::build(&m), "p", "src");
    let index = &docs.last().expect("an index").1;
    let rows: Vec<&str> = index.lines().filter(|l| l.starts_with("| ") && l.contains("](")).collect();
    let names: Vec<&str> = rows.iter().map(|l| l.split(" | ").next().expect("a cell")).collect();
    assert_eq!(names, ["| y", "| z", "| second", "| first"]);
}

#[test]
fn the_page_of_a_node() {
    let dag = Dag::build(&manifest(&[("a", "staging"), ("b", "marts")], &[("a", "b")]));
    let mut links = StrMap::new();
    links.insert("model.p.a".to_string(), "a.md".to_string());
    let page = node_markdown(&dag, "model.p.b", &links);
    assert!(page.starts_with("# b\n"), "{page}");
    assert!(page.contains("## Upstream dependencies"), "{page}");
    assert!(page.contains("- [a](a.md)\n"), "{page}");
    assert_eq!(node_markdown(&dag, "model.p.z", &links), "# model.p.z\n\nNode not found.\n");
}

#[test]
fn the_parts_of_a_large_drawing() {
    let mut m = diamond();
    m.sources.insert(
        "source.p.raw.s".to_string(),
        RawSource { name: "s".to_string(), resource_type: "source".to_string(), ..Default::default() },
    );
    m.nodes.insert(
        "analysis.p.x".to_string(),
        RawNode { name: "x".to_string(), resource_type: "analysis".to_string(), ..Default::default() },
    );
    m.nodes.insert("model.p.o".to_string(), model("o", "odd"));
    let parts: Vec<(String, Vec<String>)> =
        layer_groups(&Dag::build(&m)).into_iter().map(|g| (g.label, g.uids)).collect();
    assert_eq!(
        parts,
        [
            ("staging".to_string(), strings(&["model.p.a"])),
            ("intermediate".to_string(), strings(&["model.p.b", "model.p.c"])),
            ("marts".to_string(), strings(&["model.p.d", "model.p.e"])),
            ("other models".to_string(), strings(&["model.p.o"])),
            ("sources".to_string(), strings(&["source.p.raw.s"])),
            ("other".to_string(), strings(&["analysis.p.x"])),
        ]
    );
}

#[test]
fn an_empty_project_has_an_index() {
    let docs = generate_docs(&Dag::build(&RawManifest::default()), "none", "nowhere");
    assert_eq!(docs.len(), 1);
    assert_eq!(
        docs[0].1,
        "# none\n\nGenerated from: `nowhere`\n\n## Summary\n\n- total nodes: 0\n\n## Test coverage\n\n- testable resources (model/snapshot/seed): 0\n\n## Orphan models\n\nModels with no downstream consumer (`direct_down == 0`):\n\nNone.\n\n## Nodes\n\n| Name | Type | Materialization | Tests | Doc |\n| --- | --- | --- | --- | --- |\n\n## Lineage\n\nNo nodes.\n"
    );
}

#[test]
fn the_copied_diagram_is_the_one_on_the_page() {
    let m = diamond();
    let mut a = app_of(&m);
    a.select_by_name("b");
    let page = node_markdown(&Dag::build(&m), "model.p.b", &StrMap::new());
    let copied = a.lineage_mermaid().expect("a diagram");
    assert!(page.contains(&copied));
}

#[test]
fn notes_in_the_status_bar() {
    let mut m = diamond();
    m.nodes.insert(
        "model.p.a".to_string(),
        RawNode { config: RawConfig { materialized: Some("table".to_string()) }, ..model("a", "staging") },
    );
    let mut a = app_of(&m);
    a.select_by_name("a");
    assert_eq!(a.selected_status_note().as_deref(), Some("table · tests: 0"));
    a.glyph_mode = GlyphMode::Ascii;
    assert_eq!(a.selected_status_note().as_deref(), Some("table, tests: 0"));
    a.select_by_name("b");
    assert_eq!(a.selected_status_note().as_deref(), Some("tests: 0"));
    assert_eq!(a.node_name_or_uid("model.p.zz"), "model.p.zz");
}

#[test]
fn bands_have_the_tint_of_the_layer_lens() {
    let mut a = app_of(&diamond());
    a.select_by_name("a");
    let lay = a.styled_lineage_layout().expect("a drawing");
    let bands = a.layer_bands(&lay);
    let labels: Vec<&str> = bands.iter().map(|b| b.label.as_str()).collect();
    assert_eq!(labels, ["staging", "intermediate", "marts"]);
    while a.ui_state.lens() != LineageLens::Layer {
        apply_action(&mut a, Action::CycleLens);
    }
    let styles = a.lineage_styles(&lay);
    for (uid, band) in [("model.p.a", 0), ("model.p.b", 1), ("model.p.c", 1), ("model.p.d", 2)] {
        assert_eq!(styles.get(uid).expect("drawn").lens, bands[band].tint, "{uid}");
    }
}

#[test]
fn lenses_only_tint() {
    let mut a = app_of(&diamond());
    a.select_by_name("a");
    a.lineage_cursor = Some("model.p.b".to_string());
    let lay = a.styled_lineage_layout().expect("a drawing");
    let plain = a.lineage_styles(&lay);
    apply_action(&mut a, Action::CycleLens);
    let tinted = a.lineage_styles(&lay);
    for i in 0..plain.len() {
        let (p, t) = (plain.value_at(i), tinted.value_at(i));
        assert_eq!((p.class, p.dimmed, p.on_path), (t.class, t.dimmed, t.on_path));
        assert_eq!((p.lens, t.lens), (LensTint::Untinted, LensTint::Warn));
        assert_eq!(p.dimmed, !p.on_path, "on the path or dimmed");
    }
}
