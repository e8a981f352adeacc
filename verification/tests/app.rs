//! The reducer and the queries of the application over a project of 93 nodes.

use dbtl::action::{palette_candidates, Action, Direction, Mode, SearchState, SearchTarget};
use dbtl::effect::Effect;
use dbtl::manifest::{RawColumn, RawConfig, RawDependsOn, RawExposure, RawManifest, RawNode, RawSource, RawTestMetadata};
use dbtl::paths::derive_project_root;
use dbtl::sorted::{StrMap, StrSet};
use dbtl::{
    apply_action, coverage_gap, fit_breadcrumb, layer_violation_edges, layout, layout_mode, load_dag,
    reduce_selection, App, Dag, Focus, GlyphMode, LensTint, LineageLens, ListFilter, LoadError,
    MaterializationClass, NodeInfo, SortMode, UiState,
};

// ---- the library's maps and sets as lists ----

/// The value of a key that the map holds.
fn at<'a, V>(m: &'a StrMap<V>, key: &str) -> &'a V {
    m.get(key).expect("the map holds the key")
}

fn keys<V>(m: &StrMap<V>) -> Vec<String> {
    (0..m.len()).map(|i| m.key_at(i).clone()).collect()
}

fn values<V>(m: &StrMap<V>) -> Vec<&V> {
    (0..m.len()).map(|i| m.value_at(i)).collect()
}

fn entries<V>(m: &StrMap<V>) -> Vec<(&String, &V)> {
    (0..m.len()).map(|i| (m.key_at(i), m.value_at(i))).collect()
}

fn members(s: &StrSet) -> Vec<String> {
    (0..s.len()).map(|i| s.at(i).clone()).collect()
}

/// Records `child` under each of its parents, and them under it.
fn link(parent_map: &mut StrMap<Vec<String>>, child_map: &mut StrMap<Vec<String>>, child: &str, parents: &[String]) {
    for p in parents {
        for (m, from, to) in [(&mut *parent_map, child, p.as_str()), (&mut *child_map, p.as_str(), child)] {
            let mut list = m.get(from).cloned().unwrap_or_default();
            list.push(to.to_string());
            m.insert(from.to_string(), list);
        }
    }
}

// ---- a project of 93 nodes ----

/// The sources, by the group they belong to.
const SOURCES: &[(&str, &[&str])] = &[
    ("dev_lake_jaffle_pos", &["pos_cat", "pos_pay", "pos_rcv", "pos_shp"]),
    ("dev_lake_jaffle_payment", &["shoppers", "suppliers", "refunds"]),
    ("dev_lake_jaffle_billing", &["plans", "accounts", "invoices", "events"]),
    ("dev_lake_jaffle_crm", &["contacts", "regions"]),
    ("dev_lake_jaffle_masterdata", &["companies"]),
    ("dev_lake_jaffle_delivery", &["lanes"]),
    ("dev_lake_jaffle_hr", &["people", "teams", "roles", "offices"]),
    ("dev_lake_jaffle_web", &["sessions", "visits", "pages"]),
    (
        "dev_lake_jaffle_archive",
        &[
            "y2001", "y2002", "y2003", "y2004", "y2005", "y2006", "y2007", "y2008", "y2009", "y2010", "y2011",
            "y2012", "y2013", "y2014", "y2015", "y2016",
        ],
    ),
];

const SEEDS: &[&str] = &[
    "source_datetime_policy",
    "pos_prod_aws_store_master",
    "fiscal_years",
    "country_codes",
    "currency_codes",
    "holiday_calendar",
    "tax_rates",
];

/// The models: directory, name, materialization and parents.
const MODELS: &[(&str, &str, &str, &[&str])] = &[
    (
        "staging/pos",
        "pos_files__assignment",
        "view",
        &[
            "source.dev_lake_jaffle_pos.pos_cat",
            "source.dev_lake_jaffle_pos.pos_pay",
            "source.dev_lake_jaffle_pos.pos_rcv",
            "source.dev_lake_jaffle_pos.pos_shp",
            "seed.pos_prod_aws_store_master",
            "seed.source_datetime_policy",
        ],
    ),
    (
        "staging/payment",
        "stg_payment__shoppers",
        "view",
        &["source.dev_lake_jaffle_payment.shoppers", "seed.source_datetime_policy"],
    ),
    ("staging/payment", "stg_payment__suppliers", "view", &["source.dev_lake_jaffle_payment.suppliers"]),
    (
        "staging/payment",
        "stg_payment__refunds",
        "view",
        &["source.dev_lake_jaffle_payment.refunds", "seed.source_datetime_policy"],
    ),
    ("staging/billing", "stg_billing__plans", "view", &["source.dev_lake_jaffle_billing.plans"]),
    ("staging/billing", "stg_billing__accounts", "view", &["source.dev_lake_jaffle_billing.accounts"]),
    ("staging/billing", "stg_billing__invoices", "view", &["source.dev_lake_jaffle_billing.invoices"]),
    ("staging/billing", "stg_billing__events", "view", &["source.dev_lake_jaffle_billing.events"]),
    ("staging/crm", "stg_crm__contacts", "view", &["source.dev_lake_jaffle_crm.contacts"]),
    ("staging/crm", "stg_crm__regions", "view", &["source.dev_lake_jaffle_crm.regions"]),
    ("staging/masterdata", "stg_masterdata__companies", "view", &["source.dev_lake_jaffle_masterdata.companies"]),
    ("staging/delivery", "stg_delivery__lanes", "view", &["source.dev_lake_jaffle_delivery.lanes"]),
    ("staging/hr", "stg_hr__people", "view", &["source.dev_lake_jaffle_hr.people"]),
    ("staging/hr", "stg_hr__teams", "view", &["source.dev_lake_jaffle_hr.teams"]),
    ("staging/hr", "stg_hr__roles", "view", &["source.dev_lake_jaffle_hr.roles"]),
    ("staging/hr", "stg_hr__offices", "view", &["source.dev_lake_jaffle_hr.offices"]),
    ("staging/web", "stg_web__sessions", "view", &["source.dev_lake_jaffle_web.sessions"]),
    ("staging/web", "stg_web__visits", "view", &["source.dev_lake_jaffle_web.visits"]),
    ("staging/web", "stg_web__pages", "view", &["source.dev_lake_jaffle_web.pages"]),
    ("intermediate/payment", "int_shoppers__enriched", "view", &["model.stg_payment__shoppers"]),
    ("intermediate/pos", "pos_pay", "view", &["model.pos_files__assignment"]),
    ("intermediate/pos", "pos_rcv", "view", &["model.pos_files__assignment"]),
    ("intermediate/pos", "pos_shp", "view", &["model.pos_files__assignment"]),
    ("intermediate/pos", "pos_cat", "view", &["model.pos_files__assignment"]),
    ("intermediate/pos", "int_pos__daily", "view", &["model.pos_shp", "model.pos_cat"]),
    ("intermediate/pos", "int_pos__monthly", "view", &["model.int_pos__daily"]),
    (
        "intermediate/billing",
        "int_subscriptions__joined",
        "view",
        &[
            "model.stg_billing__plans",
            "model.stg_billing__accounts",
            "model.stg_billing__invoices",
            "model.stg_billing__events",
        ],
    ),
    ("intermediate/crm", "int_contacts__merged", "view", &["model.stg_crm__contacts", "model.stg_crm__regions"]),
    (
        "intermediate/delivery",
        "int_delivery_classifications__enriched",
        "view",
        &["snapshot.delivery_classifications_snapshot", "model.stg_delivery__lanes"],
    ),
    (
        "intermediate/hr",
        "int_hr__headcount",
        "view",
        &["model.stg_hr__people", "model.stg_hr__teams", "model.stg_hr__roles", "model.stg_hr__offices"],
    ),
    (
        "intermediate/web",
        "int_web__traffic",
        "view",
        &["model.stg_web__sessions", "model.stg_web__visits", "model.stg_web__pages"],
    ),
    ("marts", "dim_supplier_profile", "table", &["model.stg_payment__suppliers"]),
    ("marts", "rpt_supplier_summary", "table", &["model.dim_supplier_profile"]),
    (
        "marts",
        "fct_subscription_process",
        "table",
        &[
            "model.pos_pay",
            "model.pos_rcv",
            "model.dim_supplier_profile",
            "model.int_subscriptions__joined",
            "model.int_contacts__merged",
            "seed.fiscal_years",
        ],
    ),
    ("marts", "wt_delivery_base_metrics", "table", &["model.fct_subscription_process"]),
    (
        "marts",
        "fct_delivery_monthly_snapshot",
        "incremental",
        &["model.fct_subscription_process", "model.int_delivery_classifications__enriched"],
    ),
    ("marts", "fct_pos_sales", "table", &["model.int_pos__daily"]),
    ("marts", "rpt_pos_sales", "table", &["model.fct_pos_sales", "model.int_pos__monthly"]),
    ("marts", "store_profile", "table", &["model.pos_cat"]),
    ("marts", "rpt_store_ranking", "table", &["model.store_profile", "model.fct_pos_sales"]),
    ("marts", "hr_employee", "table", &["model.int_hr__headcount"]),
    ("marts", "fct_web_visits", "table", &["model.int_web__traffic", "model.hr_employee"]),
    ("utilities/pos_prep", "pos_txn", "table", &["model.pos_files__assignment"]),
    ("utilities/pos_prep", "pos_ret", "table", &["model.pos_txn"]),
    ("utilities/pos_prep", "pos_adj", "table", &["model.pos_ret"]),
];

/// The id of a resource given without its project.
fn full_id(short: &str) -> String {
    let (kind, rest) = short.split_once('.').expect("a kind and a name");
    format!("{kind}.jaffle_finance.{rest}")
}

/// A test attached to a resource.
fn attached_test(kind: &str, uid: &str) -> RawNode {
    RawNode {
        name: format!("{kind}_{uid}"),
        resource_type: "test".into(),
        attached_node: Some(uid.to_string()),
        column_name: Some("id".into()),
        test_metadata: Some(RawTestMetadata { name: Some(kind.to_string()) }),
        ..Default::default()
    }
}

fn fixture_manifest() -> RawManifest {
    let mut m = RawManifest::default();
    for (group, names) in SOURCES {
        for name in *names {
            m.sources.insert(
                full_id(&format!("source.{group}.{name}")),
                RawSource { name: name.to_string(), resource_type: "source".into(), ..Default::default() },
            );
        }
    }
    for name in SEEDS {
        let uid = full_id(&format!("seed.{name}"));
        let kind = if *name == "fiscal_years" { "accepted_values" } else { "not_null" };
        m.nodes.insert(format!("test.jaffle_finance.{kind}_{name}"), attached_test(kind, &uid));
        m.nodes.insert(
            uid,
            RawNode {
                name: name.to_string(),
                resource_type: "seed".into(),
                path: Some(format!("{name}.csv")),
                raw_code: Some(String::new()),
                original_file_path: Some(format!("seeds/{name}.csv")),
                ..Default::default()
            },
        );
    }
    let snapshot = full_id("snapshot.delivery_classifications_snapshot");
    m.nodes.insert(
        snapshot.clone(),
        RawNode {
            name: "delivery_classifications_snapshot".into(),
            resource_type: "snapshot".into(),
            path: Some("delivery_classifications_snapshot.sql".into()),
            raw_code: Some("select * from companies".into()),
            ..Default::default()
        },
    );
    link(&mut m.parent_map, &mut m.child_map, &snapshot, &[full_id("model.stg_masterdata__companies")]);
    for (dir, name, materialized, parents) in MODELS {
        let uid = full_id(&format!("model.{name}"));
        let parents: Vec<String> = parents.iter().map(|p| full_id(p)).collect();
        link(&mut m.parent_map, &mut m.child_map, &uid, &parents);
        m.nodes.insert(format!("test.jaffle_finance.unique_{name}"), attached_test("unique", &uid));
        m.nodes.insert(
            uid,
            RawNode {
                name: name.to_string(),
                resource_type: "model".into(),
                path: Some(format!("{dir}/{name}.sql")),
                raw_code: Some(format!("select id, amount from raw_{name}")),
                config: RawConfig { materialized: Some(materialized.to_string()) },
                columns: vec![
                    RawColumn {
                        key: "id".into(),
                        name: Some("id".into()),
                        data_type: Some("integer".into()),
                        description: Some("primary key".into()),
                    },
                    RawColumn { key: "amount".into(), name: Some("amount".into()), data_type: None, description: None },
                ],
                original_file_path: Some(format!("models/{dir}/{name}.sql")),
                depends_on: RawDependsOn { nodes: parents },
                ..Default::default()
            },
        );
    }
    let boards: [(&str, &[&str]); 2] = [
        ("headcount_board", &["model.hr_employee"]),
        ("traffic_board", &["model.hr_employee", "model.fct_web_visits"]),
    ];
    for (name, parents) in boards {
        m.exposures.insert(
            full_id(&format!("exposure.{name}")),
            RawExposure {
                name: name.to_string(),
                exposure_type: Some("dashboard".into()),
                depends_on: RawDependsOn { nodes: parents.iter().map(|p| full_id(p)).collect() },
                ..Default::default()
            },
        );
    }
    m
}

// ---- a small project with two untested models ----

fn sample_manifest() -> RawManifest {
    let mut m = RawManifest::default();
    m.sources.insert(
        "source.sample.raw.orders".into(),
        RawSource { name: "orders".into(), resource_type: "source".into(), ..Default::default() },
    );
    let models: [(&str, &str, bool, &[&str]); 5] = [
        ("staging", "stg_orders", true, &["source.sample.raw.orders"]),
        ("staging", "stg_customers", true, &[]),
        ("intermediate", "int_orders", true, &["model.sample.stg_orders"]),
        ("marts", "dim_customers", false, &["model.sample.stg_customers", "model.sample.int_orders"]),
        ("marts", "agg_country_orders", false, &["model.sample.dim_customers"]),
    ];
    for (dir, name, tested, parents) in models {
        let uid = format!("model.sample.{name}");
        let parents: Vec<String> = parents.iter().map(|p| p.to_string()).collect();
        link(&mut m.parent_map, &mut m.child_map, &uid, &parents);
        if tested {
            m.nodes.insert(format!("test.sample.unique_{name}"), attached_test("unique", &uid));
        }
        m.nodes.insert(
            uid,
            RawNode {
                name: name.to_string(),
                resource_type: "model".into(),
                path: Some(format!("{dir}/{name}.sql")),
                ..Default::default()
            },
        );
    }
    m
}

/// The name of a JSON file.
fn json(stem: &str) -> String {
    format!("{stem}.json")
}

const FIXTURE: &str = "/tests/fixtures/manifest";

/// A path of the project that the manifests are read from.
fn located(path: &str) -> String {
    format!("/work/jaffle{path}")
}

/// What loading a file that is not there reports.
fn missing() -> LoadError {
    LoadError { message: "no such file".to_string() }
}

fn app() -> App {
    let dag = load_dag(Ok(fixture_manifest())).expect("fixture loads");
    App::new(dag, located(&json(FIXTURE)))
}

#[test]
fn app_yank_and_bookmark_record_oneshot_notices() {
    let mut a = app();
    assert_eq!(a.take_notice(), None, "fresh app has no pending notice");
    let out = apply_action(&mut a, Action::YankId);
    assert!(
        matches!(out.effects.as_slice(), [Effect::Yank(_)]),
        "yank still requests the clipboard effect"
    );
    assert_eq!(a.take_notice().as_deref(), Some("Copied unique_id"));
    assert_eq!(a.take_notice(), None, "take_notice drains (one-shot)");

    apply_action(&mut a, Action::BookmarkToggle);
    let note = a.take_notice().expect("bookmark toggle notices");
    assert!(note.starts_with("Bookmarked: "), "got {note:?}");
    apply_action(&mut a, Action::BookmarkToggle);
    let note = a.take_notice().expect("un-bookmark notices");
    assert!(note.starts_with("Removed bookmark: "), "got {note:?}");
}

#[test]
fn app_export_notice_names_the_written_path() {
    let mut a = app();
    let out = apply_action(&mut a, Action::ExportLineage);
    let Some(Effect::WriteFile { path, .. }) = out.effects.first() else {
        panic!("export must request the write effect");
    };
    assert_eq!(a.take_notice(), Some(format!("Exported {path}")));
}

#[test]
fn app_apply_action_forwards_uistate_arms_like_handle_key() {
    let mut a = app();
    let mut bare = UiState::new(a.model_list.len());
    for action in [
        Action::MoveDown,
        Action::MoveDown,
        Action::JumpBottom,
        Action::MoveUp,
    ] {
        let out = apply_action(&mut a, action);
        assert!(!out.quit && out.effects.is_empty());
        reduce_selection(&mut bare, action);
        assert_eq!(
            a.ui_state.selected(),
            bare.selected(),
            "{action:?} divergent"
        );
    }
}

#[test]
fn app_quit_action_sets_quit() {
    let mut a = app();
    assert!(apply_action(&mut a, Action::Quit).quit);
}

#[test]
fn app_unimplemented_domain_actions_are_safe_noops() {
    let mut a = app();
    let before = a.ui_state.selected();
    for action in [
        Action::HelpToggle,
        Action::DetailOpen,
        Action::SearchOpen,
        Action::DetailScroll(Direction::Down),
    ] {
        let out = apply_action(&mut a, action);
        assert!(!out.quit && out.effects.is_empty());
    }
    assert_eq!(
        a.ui_state.selected(),
        before,
        "no-op domain actions don't move selection"
    );
}

// ---- blast radius (impact_counts) ----

#[test]
fn app_impact_counts_match_frozen_fixture_closures() {
    let mut a = app();
    a.select_by_unique_id("model.jaffle_finance.fct_subscription_process");
    assert_eq!(a.impact_counts(), Some((2, 27)), "fct blast radius");
    // stg_payment__shoppers → 1 downstream / 2 upstream (closure_both…).
    a.select_by_unique_id("model.jaffle_finance.stg_payment__shoppers");
    assert_eq!(a.impact_counts(), Some((1, 2)), "stg shoppers blast radius");
}

#[test]
fn app_impact_counts_for_targets_the_given_node_not_the_root() {
    // The detail modal targets the FOCUS uid (a non-root source/seed/snapshot
    // under the lineage cursor), so the helper must count THAT node.
    let a = app();
    // A source with two downstream models (closure_downstream_only_shoppers…).
    let src = "source.jaffle_finance.dev_lake_jaffle_payment.shoppers";
    assert_eq!(a.impact_counts_for(src), (2, 0), "source down/up");
}

#[test]
fn app_impact_status_uses_chrome_badges_per_glyph_mode() {
    let mut a = app();
    a.select_by_unique_id("model.jaffle_finance.stg_payment__shoppers");
    a.glyph_mode = GlyphMode::Unicode;
    assert_eq!(a.impact_status().as_deref(), Some("impact ↓1 ↑2"));
    a.glyph_mode = GlyphMode::Ascii;
    assert_eq!(
        a.impact_status().as_deref(),
        Some("impact v1 ^2"),
        "ascii mode uses v/^ badges, never the unicode arrows"
    );
}

// ---- lineage breadcrumb ----

#[test]
fn app_breadcrumb_is_none_with_empty_history() {
    let mut a = app();
    a.select_by_unique_id("model.jaffle_finance.fct_subscription_process");
    assert!(a.back.is_empty());
    assert_eq!(a.breadcrumb(200), None, "no history → no breadcrumb");
}

#[test]
fn app_breadcrumb_shows_last_three_history_names_then_root() {
    // Drive the public API: each jump_to pushes the prior root onto `back`.
    let mut a = app();
    a.select_by_unique_id("model.jaffle_finance.fct_subscription_process");
    // fct → wt_delivery_base_metrics → fct_delivery_monthly_snapshot
    a.jump_to("model.jaffle_finance.wt_delivery_base_metrics");
    a.jump_to("model.jaffle_finance.fct_delivery_monthly_snapshot");
    assert_eq!(
        a.breadcrumb(200).as_deref(),
        Some("fct_subscription_process > wt_delivery_base_metrics > fct_delivery_monthly_snapshot"),
        "breadcrumb = back history names then the current root"
    );
}

#[test]
fn app_breadcrumb_caps_at_three_history_entries_plus_root() {
    // A four-deep back stack: only the LAST 3 history entries show + the root,
    // so the oldest (a > ) drops even before truncation.
    let mut a = app();
    a.back = vec![
        "model.jaffle_finance.pos_txn".into(),
        "model.jaffle_finance.pos_pay".into(),
        "model.jaffle_finance.stg_payment__shoppers".into(),
        "model.jaffle_finance.int_shoppers__enriched".into(),
    ];
    a.select_by_unique_id("model.jaffle_finance.fct_subscription_process");
    // 3 newest history (pos_pay, stg…, int…) + root; pos_txn is dropped.
    assert_eq!(
        a.breadcrumb(200).as_deref(),
        Some("pos_pay > stg_payment__shoppers > int_shoppers__enriched > fct_subscription_process"),
    );
}

#[test]
fn app_fit_breadcrumb_is_strict_and_drops_to_none() {
    let full = "alpha > beta > gamma";
    assert_eq!(fit_breadcrumb(full, 100).as_deref(), Some(full), "fits whole");
    // Width holds ".. > beta > gamma" (17) but not the full 20.
    assert_eq!(
        fit_breadcrumb(full, 17).as_deref(),
        Some(".. > beta > gamma"),
        "drop oldest, prefix .."
    );
    // Width holds only ".. > gamma" (10).
    assert_eq!(fit_breadcrumb(full, 10).as_deref(), Some(".. > gamma"));
    // Too narrow even for ".. > gamma": strict None (never an ellipsis char).
    assert_eq!(fit_breadcrumb(full, 5), None, "strict: None when nothing fits");
}

#[test]
fn app_breadcrumb_truncates_whole_entries_from_the_left_with_dotdot() {
    let mut a = app();
    a.back = vec!["model.jaffle_finance.stg_payment__shoppers".into()];
    a.select_by_unique_id("model.jaffle_finance.fct_subscription_process");
    let full = "stg_payment__shoppers > fct_subscription_process";
    // A width that cannot hold the full trail but can hold ".. > root".
    let max = ".. > fct_subscription_process".chars().count();
    assert!(max < full.chars().count());
    assert_eq!(
        a.breadcrumb(max).as_deref(),
        Some(".. > fct_subscription_process"),
        "overflow drops whole entries from the left, ASCII '..' prefix"
    );
    // The ".." prefix is ASCII, never the ellipsis char.
    assert!(!a.breadcrumb(max).unwrap().contains('…'));
}

#[test]
fn app_breadcrumb_skips_uids_that_no_longer_resolve() {
    // A vanished history uid is unconstructable via jump_to (it refuses an
    // unresolvable id), so set `back` directly — the breadcrumb must skip it.
    let mut a = app();
    a.back = vec![
        "model.jaffle_finance.ghost_does_not_exist".into(),
        "model.jaffle_finance.stg_payment__shoppers".into(),
    ];
    a.select_by_unique_id("model.jaffle_finance.fct_subscription_process");
    assert_eq!(
        a.breadcrumb(200).as_deref(),
        Some("stg_payment__shoppers > fct_subscription_process"),
        "the unresolvable ghost uid is dropped, not rendered"
    );
}

#[test]
fn app_select_by_unique_id_moves_selection_and_reports_missing() {
    let mut a = app();
    let target = "model.jaffle_finance.fct_subscription_process";
    assert!(a.select_by_unique_id(target));
    assert_eq!(
        a.active_list()
            .model_at(a.ui_state.selected())
            .unwrap()
            .unique_id,
        target
    );
    assert!(!a.select_by_unique_id("model.does.not.exist"));
}

#[test]
fn app_reload_preserves_selection_by_unique_id() {
    let mut a = app();
    let target = "model.jaffle_finance.pos_pay";
    a.select_by_unique_id(target);
    a.reload(load_dag(Ok(fixture_manifest()))).expect("reload ok");
    assert_eq!(
        a.active_list()
            .model_at(a.ui_state.selected())
            .unwrap()
            .unique_id,
        target,
        "selection survives reload"
    );
    assert_eq!(a.model_list.len(), 45, "reload rebuilt the full list");
}

#[test]
fn app_yank_mermaid_emits_a_graph_lr_diagram() {
    let mut a = app();
    a.select_by_unique_id("model.jaffle_finance.stg_payment__shoppers");
    let effects = apply_action(&mut a, Action::YankMermaid).effects;
    let text = match &effects[..] {
        [Effect::Yank(t)] => t.clone(),
        other => panic!("expected one Yank effect, got {other:?}"),
    };
    // Fenced so a Markdown paste renders a diagram, not plain text.
    assert!(
        text.starts_with("```mermaid\ngraph LR\n"),
        "fenced Mermaid header: {text}"
    );
    assert!(text.trim_end().ends_with("```"), "closing fence: {text}");
    // The selected node, an upstream, and a downstream all appear as nodes,
    // with sanitized ids and a materialization-tagged label.
    assert!(text.contains("model_jaffle_finance_stg_payment__shoppers"));
    assert!(
        text.contains("\"stg_payment__shoppers (view) *\""),
        "selected node tagged + marked"
    );
    assert!(
        text.contains("\"int_shoppers__enriched (view)\""),
        "downstream node present"
    );
    assert!(
        text.contains("\"shoppers (source)\""),
        "upstream source present"
    );
    // An edge line uses sanitized ids.
    assert!(
        text.contains("model_jaffle_finance_stg_payment__shoppers --> model_jaffle_finance_int_shoppers__enriched"),
        "downstream edge present:\n{text}"
    );
}

#[test]
fn app_yank_dot_emits_a_digraph() {
    let mut a = app();
    a.select_by_unique_id("model.jaffle_finance.stg_payment__shoppers");
    let text = match &apply_action(&mut a, Action::YankDot).effects[..] {
        [Effect::Yank(t)] => t.clone(),
        other => panic!("expected one Yank effect, got {other:?}"),
    };
    assert!(text.starts_with("digraph lineage {"), "DOT header: {text}");
    assert!(text.contains("rankdir=LR;"));
    assert!(text.contains(
        "\"model.jaffle_finance.stg_payment__shoppers\" [label=\"stg_payment__shoppers\\n(view)\"];"
    ));
    assert!(text.contains(" -> "), "has at least one edge");
    assert!(text.trim_end().ends_with('}'));
}

#[test]
fn app_yank_ascii_emits_the_lineage_text_diagram() {
    let mut a = app();
    a.select_by_unique_id("model.jaffle_finance.stg_payment__shoppers");
    let text = match &apply_action(&mut a, Action::YankAscii).effects[..] {
        [Effect::Yank(t)] => t.clone(),
        other => panic!("expected one Yank effect, got {other:?}"),
    };
    // The yank IS the pane's diagram: same layout, same glyphs.
    let expected = layout_mode(&a.lineage_subgraph(), a.glyph_mode)
        .grid
        .to_text();
    assert_eq!(text, expected, "yank matches the rendered grid");
    assert!(
        text.contains("stg_payment__shoppers"),
        "selected name in the diagram"
    );
    // ASCII mode swaps the glyph repertoire in the yank too.
    a.glyph_mode = GlyphMode::Ascii;
    let ascii = match &apply_action(&mut a, Action::YankAscii).effects[..] {
        [Effect::Yank(t)] => t.clone(),
        other => panic!("expected one Yank effect, got {other:?}"),
    };
    assert!(ascii.is_ascii(), "ASCII-mode yank is pure ASCII");
}

#[test]
fn app_yank_sql_emits_the_raw_code_and_noops_without_sql() {
    let mut a = app();
    a.select_by_unique_id("model.jaffle_finance.stg_payment__shoppers");
    let text = match &apply_action(&mut a, Action::YankSql).effects[..] {
        [Effect::Yank(t)] => t.clone(),
        other => panic!("expected one Yank effect, got {other:?}"),
    };
    assert_eq!(
        text.as_str(),
        a.dag
            .raw_code("model.jaffle_finance.stg_payment__shoppers")
            .unwrap(),
        "yank is the side-map raw SQL verbatim"
    );
    // Manifests record seeds with `raw_code: ""`; the selection-side filter
    // treats blank SQL as absent so a yank never clobbers the clipboard
    // with nothing. (Seeds are not list-selectable, so assert the side-map
    // shape the filter exists for.)
    assert_eq!(
        a.dag.raw_code("seed.jaffle_finance.fiscal_years"),
        Some(""),
        "seed raw_code is the empty string the filter guards against"
    );
}

#[test]
fn app_yank_impact_emits_a_markdown_blast_radius_report() {
    let mut a = app();
    a.select_by_unique_id("model.jaffle_finance.stg_payment__shoppers");
    let text = match &apply_action(&mut a, Action::YankImpact).effects[..] {
        [Effect::Yank(t)] => t.clone(),
        other => panic!("expected one Yank effect, got {other:?}"),
    };
    assert!(
        text.starts_with("# Impact: stg_payment__shoppers\n"),
        "title: {text}"
    );
    assert!(text.contains("- transitive: 2 upstream / 1 downstream\n"));
    assert!(text.contains("## Downstream (blast radius) (1)\n"));
    assert!(text.contains("## Upstream (2)\n"));
    assert!(
        text.contains("- int_shoppers__enriched\n"),
        "downstream member listed: {text}"
    );
    // Deterministic: a second yank is byte-identical.
    let again = match &apply_action(&mut a, Action::YankImpact).effects[..] {
        [Effect::Yank(t)] => t.clone(),
        other => panic!("expected one Yank effect, got {other:?}"),
    };
    assert_eq!(text, again, "two yanks are byte-identical");
}

#[test]
fn app_export_lineage_emits_a_write_file_effect_with_the_diagram() {
    let mut a = app();
    a.select_by_unique_id("model.jaffle_finance.stg_payment__shoppers");
    let effects = apply_action(&mut a, Action::ExportLineage).effects;
    let (path, contents) = match &effects[..] {
        [Effect::WriteFile { path, contents }] => (path.clone(), contents.clone()),
        other => panic!("expected one WriteFile effect, got {other:?}"),
    };
    assert_eq!(path, "stg_payment__shoppers_lineage.txt");
    assert_eq!(
        contents,
        a.lineage_ascii().unwrap(),
        "exported contents are the lineage text diagram"
    );
}

#[test]
fn app_page_down_and_up_move_the_list_selection_by_ten_clamped() {
    let mut a = app();
    assert_eq!(a.ui_state.selected(), 0);
    apply_action(&mut a, Action::PageDown);
    assert_eq!(a.ui_state.selected(), 10, "page down = +10");
    apply_action(&mut a, Action::PageUp);
    assert_eq!(a.ui_state.selected(), 0, "page up = -10");
    apply_action(&mut a, Action::PageUp);
    assert_eq!(a.ui_state.selected(), 0, "clamped at the top");
    for _ in 0..20 {
        apply_action(&mut a, Action::PageDown);
    }
    assert_eq!(
        a.ui_state.selected(),
        a.model_list.len() - 1,
        "clamped at the bottom"
    );
}

#[test]
fn app_modal_page_scroll_and_home_end_record_intent() {
    let mut a = app();
    a.select_by_unique_id("model.jaffle_finance.stg_payment__shoppers");
    apply_action(&mut a, Action::SqlOpen);
    assert!(matches!(a.mode, Mode::Sql(_)), "SQL modal open");
    apply_action(&mut a, Action::DetailScrollPage(Direction::Down));
    let scroll = |m: &Mode| match m {
        Mode::Sql(sv) => sv.scroll,
        other => panic!("expected Sql mode, got {other:?}"),
    };
    assert_eq!(scroll(&a.mode), 10, "page = 10 lines");
    apply_action(&mut a, Action::DetailScroll(Direction::Down));
    assert_eq!(scroll(&a.mode), 11, "line scroll still 1");
    apply_action(&mut a, Action::DetailScrollPage(Direction::Up));
    assert_eq!(scroll(&a.mode), 1, "page up = -10 saturating");
    apply_action(&mut a, Action::DetailScrollEnd);
    assert_eq!(scroll(&a.mode), usize::MAX, "End records MAX for the loop clamp");
    apply_action(&mut a, Action::DetailScrollHome);
    assert_eq!(scroll(&a.mode), 0, "Home rewinds to the top");
    // The same arms drive the help overlay.
    apply_action(&mut a, Action::DetailClose);
    apply_action(&mut a, Action::HelpToggle);
    apply_action(&mut a, Action::DetailScrollPage(Direction::Down));
    assert!(matches!(a.mode, Mode::Help { scroll: 10 }), "help pages too");
}

#[test]
fn app_gap_next_and_prev_cycle_through_untested_models() {
    // The big fixture has zero untested MODELS, so it pins the no-op side;
    // the sample manifest (dim_customers / agg_country_orders untested)
    // exercises the cycle itself.
    let mut full = app();
    apply_action(&mut full, Action::GapNext);
    assert_eq!(full.ui_state.selected(), 0, "no gaps -> selection unmoved");

    let sample = located(&json("/tests/fixtures/sample_manifest"));
    let mut a = App::new(load_dag(Ok(sample_manifest())).expect("sample loads"), sample.clone());
    let gaps: Vec<usize> = a
        .model_list
        .models
        .iter()
        .enumerate()
        .filter(|(_, m)| coverage_gap(m))
        .map(|(i, _)| i)
        .collect();
    assert_eq!(gaps.len(), 2, "sample manifest has two untested models");
    apply_action(&mut a, Action::GapNext);
    let first = a.ui_state.selected();
    assert!(gaps.contains(&first), "n lands on a coverage gap");
    apply_action(&mut a, Action::GapNext);
    let second = a.ui_state.selected();
    assert!(gaps.contains(&second) && second != first, "n cycles onward");
    apply_action(&mut a, Action::GapPrev);
    assert_eq!(a.ui_state.selected(), first, "N walks back");
}

#[test]
fn app_bookmark_cycle_back_walks_bookmarks_in_reverse() {
    let mut a = app();
    // Bookmark models at indices 3 and 7, then cycle backward from 0.
    for i in [3usize, 7] {
        a.ui_state.set_selected(i);
        apply_action(&mut a, Action::BookmarkToggle);
    }
    a.ui_state.set_selected(0);
    apply_action(&mut a, Action::BookmarkCycleBack);
    assert_eq!(a.ui_state.selected(), 7, "backward wraps to the last bookmark");
    apply_action(&mut a, Action::BookmarkCycleBack);
    assert_eq!(a.ui_state.selected(), 3, "backward again hits the earlier one");
    apply_action(&mut a, Action::BookmarkCycle);
    assert_eq!(a.ui_state.selected(), 7, "forward cycles onward");
}

#[test]
fn app_lineage_extreme_jumps_send_the_cursor_to_first_and_last_columns() {
    let mut a = app();
    a.select_by_unique_id("model.jaffle_finance.stg_payment__shoppers");
    let lay = layout(&a.lineage_subgraph());
    let max_col = values(&lay.columns).into_iter().max().copied().unwrap();
    assert!(max_col >= 2, "fixture lineage spans 3+ columns");
    apply_action(&mut a, Action::LineageRightmost);
    let cur = a.lineage_cursor_uid().unwrap();
    assert_eq!(*at(&lay.columns, &cur), max_col, "L lands in the last column");
    apply_action(&mut a, Action::LineageLeftmost);
    let cur = a.lineage_cursor_uid().unwrap();
    assert_eq!(*at(&lay.columns, &cur), 0, "H lands in the first column");
}

#[test]
fn app_untested_filter_narrows_the_list_and_toggles_off() {
    let sample = located(&json("/tests/fixtures/sample_manifest"));
    let mut a = App::new(load_dag(Ok(sample_manifest())).expect("sample loads"), sample.clone());
    let full = a.model_list.len();
    apply_action(&mut a, Action::ToggleUntestedFilter);
    assert_eq!(a.list_filter, ListFilter::Untested);
    assert_eq!(a.active_list().len(), 2, "only the two untested models");
    assert!(
        a.active_list().models.iter().all(coverage_gap),
        "every visible model is untested"
    );
    assert_eq!(
        a.ui_state.model_count(),
        2,
        "selection space follows the filtered view"
    );
    assert_eq!(a.list_filter_label(), Some("untested"));
    apply_action(&mut a, Action::ToggleUntestedFilter);
    assert_eq!(a.list_filter, ListFilter::All, "second press toggles off");
    assert_eq!(a.active_list().len(), full, "full list restored");
    assert_eq!(a.list_filter_label(), None);
}

#[test]
fn app_bookmark_filter_tracks_toggles_and_search_narrows_on_top() {
    let mut a = app();
    let kept = "model.jaffle_finance.stg_payment__shoppers";
    a.select_by_unique_id(kept);
    apply_action(&mut a, Action::BookmarkToggle);
    apply_action(&mut a, Action::ToggleBookmarkFilter);
    assert_eq!(a.active_list().len(), 1, "only the bookmarked model");
    assert_eq!(
        a.selected_unique_id().as_deref(),
        Some(kept),
        "selection re-resolved by id into the filtered view"
    );
    // A list search narrows FROM the bookmarked view: a query matching
    // many full-list models still shows only the bookmarked one.
    apply_action(&mut a, Action::SearchOpen);
    for c in "stg".chars() {
        apply_action(&mut a, Action::SearchType(c));
    }
    assert_eq!(a.active_list().len(), 1, "search composes with the filter");
    apply_action(&mut a, Action::SearchCancel);
    // Un-bookmarking the row under the live Bookmarked filter empties it.
    apply_action(&mut a, Action::BookmarkToggle);
    assert_eq!(a.active_list().len(), 0, "un-bookmark leaves the view");
    // Toggling the OTHER filter replaces, not stacks.
    apply_action(&mut a, Action::ToggleUntestedFilter);
    assert_eq!(a.list_filter, ListFilter::Untested);
    apply_action(&mut a, Action::ToggleBookmarkFilter);
    assert_eq!(a.list_filter, ListFilter::Bookmarked);
}

#[test]
fn app_critical_path_is_a_deterministic_source_rooted_chain() {
    let a = app();
    let sv = a.compute_stats_view();
    assert!(
        sv.critical_path.len() >= 4,
        "the fixture graph is at least 4 deep, got {:?}",
        sv.critical_path
    );
    // The chain start must have no parents (else its parent's chain would
    // be longer) and the end no children — both checked by name lookup.
    let by_name = |name: &str| {
        values(a.dag.nodes())
        .into_iter()
            .filter(|n| n.name == name)
            .collect::<Vec<_>>()
    };
    let first = sv.critical_path.first().unwrap();
    assert!(
        by_name(first).iter().any(|n| n.direct_up == 0),
        "chain starts at a root: {first}"
    );
    let last = sv.critical_path.last().unwrap();
    assert!(
        by_name(last).iter().any(|n| n.direct_down == 0),
        "chain ends at a leaf: {last}"
    );
    // Deterministic: a second computation is identical.
    assert_eq!(sv.critical_path, a.compute_stats_view().critical_path);
}

#[test]
fn app_sql_modal_payload_carries_the_file_path() {
    let mut a = app();
    a.select_by_unique_id("model.jaffle_finance.pos_txn");
    apply_action(&mut a, Action::SqlOpen);
    match &a.mode {
        Mode::Sql(sv) => assert_eq!(
            sv.path.as_deref(),
            Some("models/utilities/pos_prep/pos_txn.sql"),
            "path snapshotted at open"
        ),
        other => panic!("expected Sql mode, got {other:?}"),
    }
}

#[test]
fn app_select_by_name_resolves_models_and_rejects_unknowns() {
    let mut a = app();
    assert!(a.select_by_name("pos_txn"), "known model name selects");
    assert_eq!(
        a.selected_unique_id().as_deref(),
        Some("model.jaffle_finance.pos_txn")
    );
    let before = a.ui_state.selected();
    assert!(!a.select_by_name("no_such_model"), "unknown name rejected");
    assert_eq!(a.ui_state.selected(), before, "selection untouched");
    // The watch root in manifest mode is the manifest FILE.
    let (root, recursive) = a.watch_root();
    assert!(root.ends_with(&json("manifest")));
    assert!(!recursive);
}

#[test]
fn app_jump_to_records_history_and_back_forward_navigate() {
    let mut a = app();
    a.select_by_unique_id("model.jaffle_finance.stg_payment__shoppers");
    let start = a.selected_unique_id().unwrap();
    a.jump_to("model.jaffle_finance.int_shoppers__enriched");
    assert_eq!(
        a.selected_unique_id().as_deref(),
        Some("model.jaffle_finance.int_shoppers__enriched")
    );
    a.history_back();
    assert_eq!(
        a.selected_unique_id(),
        Some(start),
        "back returns to the origin"
    );
    a.history_forward();
    assert_eq!(
        a.selected_unique_id().as_deref(),
        Some("model.jaffle_finance.int_shoppers__enriched"),
        "forward re-applies the jump"
    );
    // A new jump clears the forward stack.
    a.history_back();
    a.jump_to("model.jaffle_finance.pos_txn");
    a.history_forward();
    assert_eq!(
        a.selected_unique_id().as_deref(),
        Some("model.jaffle_finance.pos_txn"),
        "forward is a no-op after a new jump cleared it"
    );
}

#[test]
fn app_lineage_view_toggles_and_depth_filter_the_subgraph() {
    let mut a = app();
    a.select_by_unique_id("model.jaffle_finance.fct_subscription_process");
    let full = a.lineage_subgraph().nodes.len();
    assert_eq!(full, 30, "full lineage = 27 up + selected + 2 down");

    // Upstream-only: drop the downstream side.
    apply_action(&mut a, Action::ToggleDownstream);
    let up_only = a.lineage_subgraph();
    assert_eq!(up_only.nodes.len(), 28, "27 upstream + selected");
    assert!(
        !up_only
            .nodes
            .iter()
            .any(|n| n.unique_id == "model.jaffle_finance.fct_delivery_monthly_snapshot"),
        "a downstream node is excluded"
    );

    // Reset restores the full view.
    apply_action(&mut a, Action::ResetView);
    assert_eq!(a.lineage_subgraph().nodes.len(), full);

    // Depth limit: None → 3 → 2 → 1, shrinking the neighbourhood.
    apply_action(&mut a, Action::DepthDecrease);
    apply_action(&mut a, Action::DepthDecrease);
    apply_action(&mut a, Action::DepthDecrease);
    assert_eq!(a.lineage_view.depth, Some(1));
    let d1 = a.lineage_subgraph().nodes.len();
    assert!(
        d1 > 1 && d1 < full,
        "1-hop neighbourhood is a strict subset: {d1}"
    );
    // Widening past the cap returns to unlimited.
    for _ in 0..10 {
        apply_action(&mut a, Action::DepthIncrease);
    }
    assert_eq!(
        a.lineage_view.depth, None,
        "widening past 8 hops → unlimited"
    );
    assert_eq!(a.lineage_subgraph().nodes.len(), full);
}

#[test]
fn app_reload_error_leaves_state_unchanged() {
    let dag = load_dag(Ok(fixture_manifest())).expect("fixture loads");
    let mut a = App::new(dag, json("/no/such/manifest"));
    a.select_by_unique_id("model.jaffle_finance.pos_txn");
    let before_len = a.model_list.len();
    let before_sel = a.selected_unique_id();
    assert!(a.reload(load_dag(Err(missing()))).is_err(), "missing manifest → Err");
    assert_eq!(
        a.model_list.len(),
        before_len,
        "list unchanged on reload error"
    );
    assert_eq!(
        a.selected_unique_id(),
        before_sel,
        "selection unchanged on reload error"
    );
}

#[test]
fn app_effect_actions_emit_effects_without_mutating_state() {
    let mut a = app();
    a.select_by_unique_id("model.jaffle_finance.pos_txn");
    let before = a.ui_state.selected();

    // Yank id / name produce a clipboard effect carrying the right text.
    assert_eq!(
        apply_action(&mut a, Action::YankId).effects,
        vec![Effect::Yank("model.jaffle_finance.pos_txn".into())]
    );
    assert_eq!(
        apply_action(&mut a, Action::YankName).effects,
        vec![Effect::Yank("pos_txn".into())]
    );
    // Reload always requests a reload effect.
    assert_eq!(
        apply_action(&mut a, Action::Reload).effects,
        vec![Effect::ReloadManifest]
    );
    // OpenEditor resolves the SQL path under the project root.
    match &apply_action(&mut a, Action::OpenEditor).effects[..] {
        [Effect::OpenEditor(path)] => {
            assert!(
                path.ends_with("models/utilities/pos_prep/pos_txn.sql"),
                "got {path}"
            );
        }
        other => panic!("expected one OpenEditor effect, got {other:?}"),
    }
    // The pure reducer never mutated selection while emitting effects.
    assert_eq!(a.ui_state.selected(), before);
}

#[test]
fn app_derive_project_root_strips_target() {
    let root = derive_project_root(&json("/x/proj/target/manifest"));
    assert_eq!(root, "/x/proj");
}

#[test]
fn app_lineage_styles_maps_materialization_and_tests() {
    let a = app();
    let lay = layout(&a.dag.subgraph("model.jaffle_finance.pos_txn"));
    let styles = a.lineage_styles(&lay);
    // pos_txn is a table model.
    assert_eq!(
        styles.get("model.jaffle_finance.pos_txn").unwrap().class,
        MaterializationClass::Table
    );
    // Its upstream subgraph contains source/seed nodes, classed accordingly.
    assert!(
        values(&styles).into_iter()
            .any(|c| c.class == MaterializationClass::Source),
        "a source node is classed Source"
    );
    assert!(
        values(&styles).into_iter()
            .any(|c| c.class == MaterializationClass::Seed),
        "a seed node is classed Seed"
    );
}

#[test]
fn app_help_toggle_opens_and_closes() {
    let mut a = app();
    apply_action(&mut a, Action::HelpToggle);
    assert!(matches!(a.mode, Mode::Help { .. }), "? opens help");
    apply_action(&mut a, Action::HelpToggle);
    assert!(matches!(a.mode, Mode::Selection), "? again closes help");
}

#[test]
fn app_lineage_search_jumps_to_a_matching_upstream_node() {
    // Open a lineage-target search from the RIGHT pane and confirm: a matching
    // UPSTREAM model becomes the new selection (re-root).
    let mut a = app();
    a.select_by_unique_id("model.jaffle_finance.fct_subscription_process");
    a.ui_state.set_focus(Focus::RightPane);
    apply_action(&mut a, Action::SearchOpen);
    assert!(
        matches!(&a.mode, Mode::Search(s) if s.target == SearchTarget::Lineage),
        "search from the lineage pane targets the lineage"
    );
    for c in "dimsupp".chars() {
        apply_action(&mut a, Action::SearchType(c));
    }
    // "dimsupp" matches a dim_supplier* model — an upstream of fct.
    let fct = "model.jaffle_finance.fct_subscription_process";
    let hit = a.current_lineage_match().expect("a lineage node matches");
    assert!(
        a.dag.upstream(fct).contains(&hit),
        "the match is an upstream of fct: {hit}"
    );
    assert_ne!(
        hit, fct,
        "the match is a different node than the current root"
    );
    apply_action(&mut a, Action::SearchConfirm);
    assert!(matches!(a.mode, Mode::Selection), "confirm leaves search");
    assert_eq!(
        a.active_list()
            .model_at(a.ui_state.selected())
            .unwrap()
            .unique_id,
        hit,
        "the matched upstream model is now selected (re-rooted)"
    );
}

// ---- lineage cursor: spatial movement, focus routing, Enter commit ----

const FCT: &str = "model.jaffle_finance.fct_subscription_process";

#[test]
fn app_lineage_cursor_moves_spatially_under_right_pane_focus() {
    let mut a = app();
    a.select_by_unique_id(FCT);
    a.ui_state.set_focus(Focus::RightPane);
    let lay = layout(&a.lineage_subgraph());
    let root_col = *at(&lay.columns, FCT);
    assert!(root_col > 0, "fct has upstream columns");

    // h: exactly one column upstream per keypress, down to column 0.
    apply_action(&mut a, Action::MoveLeft);
    let cur = a.lineage_cursor_uid().unwrap();
    assert_eq!(*at(&lay.columns, &cur), root_col - 1, "h = one column left");
    for expect in (0..root_col - 1).rev() {
        apply_action(&mut a, Action::MoveLeft);
        let c = a.lineage_cursor_uid().unwrap();
        assert_eq!(*at(&lay.columns, &c), expect, "each h steps one column");
    }
    let edge = a.lineage_cursor_uid().unwrap();
    apply_action(&mut a, Action::MoveLeft);
    assert_eq!(
        a.lineage_cursor_uid().as_deref(),
        Some(edge.as_str()),
        "h at the most-upstream column is a no-op"
    );

    // j/k: step through column 0's stack (sources/seeds — always ≥2 for
    // fct) and round-trip.
    let mut col: Vec<(String, usize)> = entries(&lay.rects)
        .into_iter()
        .filter(|(uid, _)| *at(&lay.columns, uid) == 0)
        .map(|(uid, r)| (uid.clone(), r.y))
        .collect();
    col.sort_by_key(|(_, y)| *y);
    assert!(col.len() >= 2, "fixture: column 0 stacks nodes");
    let i = col.iter().position(|(uid, _)| *uid == edge).unwrap();
    if i + 1 < col.len() {
        apply_action(&mut a, Action::MoveDown);
        assert_eq!(
            a.lineage_cursor_uid().as_deref(),
            Some(col[i + 1].0.as_str()),
            "j = next node down the column"
        );
        apply_action(&mut a, Action::MoveUp);
    } else {
        apply_action(&mut a, Action::MoveUp);
        assert_eq!(
            a.lineage_cursor_uid().as_deref(),
            Some(col[i - 1].0.as_str()),
            "k = previous node up the column"
        );
        apply_action(&mut a, Action::MoveDown);
    }
    assert_eq!(
        a.lineage_cursor_uid().as_deref(),
        Some(edge.as_str()),
        "j/k round-trips"
    );

    // l: one column back toward downstream.
    apply_action(&mut a, Action::MoveRight);
    let back = a.lineage_cursor_uid().unwrap();
    assert_eq!(*at(&lay.columns, &back), 1, "l = one column right");

    // The rooted selection never moved while the cursor walked.
    assert_eq!(a.selected_unique_id().as_deref(), Some(FCT));
}

#[test]
fn app_lineage_cursor_routing_display_subgraph_and_reset() {
    let mut a = app();
    a.select_by_unique_id(FCT);
    // List focus: movement keys drive the LIST selection; the cursor stays home.
    let before = a.ui_state.selected();
    apply_action(&mut a, Action::MoveDown);
    assert_eq!(
        a.ui_state.selected(),
        before + 1,
        "list focus moves the list"
    );
    assert_eq!(
        a.lineage_cursor_uid(),
        a.selected_unique_id(),
        "cursor home = the selection"
    );

    // Lineage focus: the cursor walks and the DISPLAY subgraph re-selects it…
    a.select_by_unique_id(FCT);
    a.ui_state.set_focus(Focus::RightPane);
    apply_action(&mut a, Action::MoveLeft);
    let cur = a.lineage_cursor_uid().unwrap();
    assert_ne!(cur.as_str(), FCT, "the cursor left the root");
    assert_eq!(
        a.lineage_display_subgraph().selected,
        cur,
        "display subgraph selects (→ emphasizes, anchors) the cursor"
    );
    // …while ROOT semantics (exports, matches, title) stay on the selection.
    assert_eq!(a.lineage_subgraph().selected, FCT);

    // z (recenter) sends the cursor home.
    apply_action(&mut a, Action::Recenter);
    assert_eq!(a.lineage_cursor_uid().as_deref(), Some(FCT));
}

#[test]
fn app_toggle_list_pane_pins_focus_and_movement_drives_the_lineage_cursor() {
    let mut a = app();
    a.select_by_unique_id(FCT);

    // Hide the list: focus is pinned to the lineage pane…
    apply_action(&mut a, Action::ToggleListPane);
    assert!(!a.ui_state.list_visible());
    assert_eq!(a.ui_state.focus(), Focus::RightPane);
    // …so the movement keys route to the lineage CURSOR, never the hidden
    // list (the selection — the lineage root — must not move).
    apply_action(&mut a, Action::MoveLeft);
    assert_ne!(
        a.lineage_cursor_uid().as_deref(),
        Some(FCT),
        "h walks the cursor upstream while the list is hidden"
    );
    assert_eq!(
        a.selected_unique_id().as_deref(),
        Some(FCT),
        "the rooted selection stays put"
    );

    // Show it again: the list pane takes focus back.
    apply_action(&mut a, Action::ToggleListPane);
    assert!(a.ui_state.list_visible());
    assert_eq!(a.ui_state.focus(), Focus::List);
}

#[test]
fn app_stale_lineage_cursor_falls_back_to_the_root() {
    let mut a = app();
    a.select_by_unique_id(FCT);
    a.ui_state.set_focus(Focus::RightPane);
    apply_action(&mut a, Action::MoveLeft); // cursor = an upstream node
    let cur = a.lineage_cursor_uid().unwrap();
    assert_ne!(cur.as_str(), FCT);
    // Dropping the upstream side removes the cursor's node from the subgraph.
    apply_action(&mut a, Action::ToggleUpstream);
    assert!(
        !a.lineage_subgraph().contains(&cur),
        "precondition: the cursor's node was dropped from the view"
    );
    assert_eq!(
        a.lineage_cursor_uid().as_deref(),
        Some(FCT),
        "a stale cursor falls back to the root"
    );
    assert_eq!(a.lineage_display_subgraph().selected, FCT);
}

#[test]
fn app_reload_sends_the_cursor_home() {
    let mut a = app();
    a.select_by_unique_id(FCT);
    a.ui_state.set_focus(Focus::RightPane);
    apply_action(&mut a, Action::MoveLeft);
    assert_ne!(a.lineage_cursor_uid().as_deref(), Some(FCT));
    a.reload(load_dag(Ok(fixture_manifest()))).expect("reload ok");
    assert_eq!(
        a.lineage_cursor_uid().as_deref(),
        Some(FCT),
        "reload re-homes the cursor to the (restored) root"
    );
}

#[test]
fn app_click_reroots_models_moves_cursor_for_sources_and_rehomes_on_root() {
    let mut a = app();
    a.select_by_unique_id(FCT);
    // Click an upstream MODEL: re-root + cursor home.
    let up_model = members(&a.dag.upstream(FCT))
        .iter()
        .filter(|u| u.starts_with("model."))
        .min()
        .cloned()
        .unwrap();
    a.click_lineage_node(&up_model);
    assert_eq!(a.selected_unique_id().as_deref(), Some(up_model.as_str()));
    assert_eq!(
        a.lineage_cursor_uid().as_deref(),
        Some(up_model.as_str()),
        "cursor is home on the new root"
    );

    // Click a SOURCE: no re-root, the CURSOR moves there.
    a.select_by_unique_id(FCT);
    let src = members(&a.dag.upstream(FCT))
        .iter()
        .filter(|u| u.starts_with("source."))
        .min()
        .cloned()
        .unwrap();
    a.click_lineage_node(&src);
    assert_eq!(
        a.selected_unique_id().as_deref(),
        Some(FCT),
        "clicking a source never re-roots"
    );
    assert_eq!(
        a.lineage_cursor_uid().as_deref(),
        Some(src.as_str()),
        "the cursor moved to the clicked source"
    );

    a.click_lineage_node(FCT);
    assert_eq!(a.selected_unique_id().as_deref(), Some(FCT));
    assert_eq!(
        a.lineage_cursor_uid().as_deref(),
        Some(FCT),
        "clicking the root re-homes the cursor"
    );
}

#[test]
fn app_enter_commits_cursor_reroot_for_models_structure_for_sources() {
    let mut a = app();
    a.select_by_unique_id(FCT);
    a.ui_state.set_focus(Focus::RightPane);

    // (a) cursor == root: Enter opens the root's structure (unchanged).
    apply_action(&mut a, Action::DetailOpen);
    match &a.mode {
        Mode::Detail(dv) => assert_eq!(dv.model_id, FCT),
        m => panic!("expected Detail for the root, got {m:?}"),
    }
    apply_action(&mut a, Action::DetailClose);

    // (b) cursor on an upstream MODEL: Enter re-roots (same as a click),
    // recording history.
    let up_model = members(&a.dag.upstream(FCT))
        .iter()
        .filter(|u| u.starts_with("model."))
        .min()
        .cloned()
        .expect("fct has an upstream model");
    a.lineage_cursor = Some(up_model.clone());
    apply_action(&mut a, Action::DetailOpen);
    assert!(
        matches!(a.mode, Mode::Selection),
        "a re-root stays in Selection mode"
    );
    assert_eq!(a.selected_unique_id().as_deref(), Some(up_model.as_str()));
    a.history_back();
    assert_eq!(
        a.selected_unique_id().as_deref(),
        Some(FCT),
        "the Enter re-root recorded history (b returns)"
    );

    // (c) cursor on a SOURCE (not list-selectable): Enter opens ITS
    // structure modal instead, and the root stays put.
    a.select_by_unique_id(FCT);
    let src = members(&a.dag.upstream(FCT))
        .iter()
        .filter(|u| u.starts_with("source."))
        .min()
        .cloned()
        .expect("fct has an upstream source");
    a.lineage_cursor = Some(src.clone());
    apply_action(&mut a, Action::DetailOpen);
    match &a.mode {
        Mode::Detail(dv) => {
            assert_eq!(dv.model_id, src);
            assert_eq!(
                Some(dv.name.as_str()),
                a.dag.get(&src).map(|n| n.name.as_str()),
                "the modal is titled with the source's name"
            );
        }
        m => panic!("expected Detail for the source, got {m:?}"),
    }
    assert_eq!(
        a.selected_unique_id().as_deref(),
        Some(FCT),
        "a non-model cursor never re-roots"
    );
}

#[test]
fn app_detail_open_snapshots_payload_from_side_maps() {
    let mut a = app();
    a.select_by_unique_id("model.jaffle_finance.pos_txn");
    apply_action(&mut a, Action::DetailOpen);
    match &a.mode {
        Mode::Detail(dv) => {
            assert_eq!(dv.model_id, "model.jaffle_finance.pos_txn");
            assert_eq!(dv.name, "pos_txn");
            assert_eq!(dv.detail.materialized.as_deref(), Some("table"));
            assert!(
                !dv.detail.columns.is_empty(),
                "columns came from the Dag side map"
            );
        }
        _ => panic!("expected Detail mode"),
    }
    apply_action(&mut a, Action::DetailClose);
    assert!(
        matches!(a.mode, Mode::Selection),
        "Esc/close returns to Selection"
    );
}

#[test]
fn app_selected_status_note_reports_materialization_and_tests() {
    let mut a = app();
    a.select_by_unique_id("model.jaffle_finance.pos_txn");
    let note = a.selected_status_note().expect("a model is selected");
    assert!(
        note.contains("table"),
        "status note names the materialization: {note}"
    );
    assert!(
        note.contains("tests:"),
        "status note includes a tests count: {note}"
    );
}

// ---- SQL preview / stats dashboard modals ----

#[test]
fn app_sql_open_snapshots_raw_code() {
    // A manifest-loaded model carries raw_code; SqlOpen snapshots it into the
    // Mode payload (no Dag in the render layer). pos_txn has clean ASCII SQL.
    let mut a = app();
    a.select_by_unique_id("model.jaffle_finance.pos_txn");
    apply_action(&mut a, Action::SqlOpen);
    match &a.mode {
        Mode::Sql(sv) => {
            assert_eq!(sv.model_id, "model.jaffle_finance.pos_txn");
            assert_eq!(sv.name, "pos_txn");
            assert!(
                !sv.sql.is_empty() && !sv.sql.starts_with("(no SQL"),
                "real raw_code was snapshotted: {:?}",
                &sv.sql[..sv.sql.len().min(40)]
            );
            assert_eq!(sv.scroll, 0);
        }
        m => panic!("expected Mode::Sql, got {m:?}"),
    }
    apply_action(&mut a, Action::DetailClose);
    assert!(matches!(a.mode, Mode::Selection), "DetailClose closes Sql");
}

#[test]
fn app_sql_open_source_shows_placeholder() {
    // A source has no raw_code → the modal shows a placeholder, not a panic.
    let mut a = app();
    a.select_by_unique_id(FCT);
    a.ui_state.set_focus(Focus::RightPane);
    // Move the cursor onto an upstream source.
    let src = members(&a.dag.upstream(FCT))
        .iter()
        .filter(|u| u.starts_with("source."))
        .min()
        .cloned()
        .expect("fct has an upstream source");
    a.lineage_cursor = Some(src.clone());
    apply_action(&mut a, Action::SqlOpen);
    match &a.mode {
        Mode::Sql(sv) => {
            assert_eq!(sv.model_id, src);
            assert!(
                sv.sql.starts_with("(no SQL"),
                "source SQL is a placeholder: {}",
                sv.sql
            );
        }
        m => panic!("expected Mode::Sql, got {m:?}"),
    }
}

#[test]
fn app_sql_open_respects_focus() {
    // Lineage focus previews the CURSOR; list focus previews the selection.
    let mut a = app();
    a.select_by_unique_id(FCT);
    a.ui_state.set_focus(Focus::RightPane);
    let up_model = members(&a.dag.upstream(FCT))
        .iter()
        .filter(|u| u.starts_with("model."))
        .min()
        .cloned()
        .expect("fct has an upstream model");
    a.lineage_cursor = Some(up_model.clone());
    apply_action(&mut a, Action::SqlOpen);
    match &a.mode {
        Mode::Sql(sv) => assert_eq!(sv.model_id, up_model, "lineage focus previews the cursor"),
        m => panic!("expected Mode::Sql, got {m:?}"),
    }
    apply_action(&mut a, Action::DetailClose);

    // List focus: the cursor is ignored; the selection (the root) is previewed.
    a.ui_state.set_focus(Focus::List);
    apply_action(&mut a, Action::SqlOpen);
    match &a.mode {
        Mode::Sql(sv) => assert_eq!(sv.model_id, FCT, "list focus previews the selection"),
        m => panic!("expected Mode::Sql, got {m:?}"),
    }
}

#[test]
fn app_stats_open_computes_dashboard() {
    let mut a = app();
    apply_action(&mut a, Action::StatsOpen);
    let sv = match &a.mode {
        Mode::Stats(sv) => sv,
        m => panic!("expected Mode::Stats, got {m:?}"),
    };
    // Coverage base == coverage_summary's (model|seed|snapshot): 45+7+1 = 53,
    // and the sole gap in the fixture is the untested snapshot.
    assert_eq!(sv.testable_total, 53, "fixture: 45 models + 7 seeds + 1 snapshot");
    assert_eq!(sv.untested_testable, 1, "fixture: only the snapshot is untested");
    assert_eq!(
        (sv.testable_tested, sv.testable_total),
        a.coverage_summary(),
        "dashboard coverage == the lens/status coverage_summary (single source)"
    );
    let rt = |k: &str| {
        sv.by_resource_type
            .iter()
            .find(|(name, _)| name == k)
            .map(|(_, n)| *n)
    };
    assert_eq!(rt("source"), Some(38), "fixture: 38 sources");
    assert_eq!(rt("seed"), Some(7), "fixture: 7 seeds");
    assert_eq!(rt("snapshot"), Some(1), "fixture: 1 snapshot");
    assert_eq!(
        sv.testable_tested + sv.untested_testable,
        sv.testable_total,
        "tested + untested == testable_total"
    );
    assert!(sv.top_hubs.len() <= 5, "at most 5 hubs");
    // Hubs are degree-desc, then unique_id-asc — verify the ordering.
    for w in sv.top_hubs.windows(2) {
        assert!(
            w[0].2 > w[1].2 || (w[0].2 == w[1].2 && w[0].0 <= w[1].0),
            "hubs sorted by degree desc then unique_id asc"
        );
    }

    assert_eq!(
        sv.transitive_hubs,
        vec![
            ("source_datetime_policy".to_string(), 20),
            ("pos_prod_aws_store_master".to_string(), 17),
            ("pos_cat".to_string(), 17),
            ("pos_pay".to_string(), 17),
            ("pos_rcv".to_string(), 17),
        ],
        "top-5 transitive blast-radius hubs (count desc, unique_id tie-break)"
    );
    // Cross-check the leader against the live closure (reuse, not a magic number).
    assert_eq!(
        a.dag
            .downstream("seed.jaffle_finance.source_datetime_policy")
            .len(),
        20,
        "leader's transitive downstream closure size"
    );

    assert_eq!(sv.orphan_models, Vec::<String>::new(), "fixture has no orphans");
    assert_eq!(
        sv.layer_violations,
        Vec::<(String, String)>::new(),
        "fixture has no layer violations (matches layer_violation_edges)"
    );

    // Deterministic: a second compute is bit-identical.
    assert_eq!(&a.compute_stats_view(), sv, "compute_stats_view is stable");
}

#[test]
fn app_sql_and_stats_scroll_through_detail_scroll() {
    let mut a = app();
    a.select_by_unique_id("model.jaffle_finance.pos_txn");
    // SQL modal: DetailScroll steps sv.scroll; up saturates at 0.
    apply_action(&mut a, Action::SqlOpen);
    apply_action(&mut a, Action::DetailScroll(Direction::Down));
    apply_action(&mut a, Action::DetailScroll(Direction::Down));
    match &a.mode {
        Mode::Sql(sv) => assert_eq!(sv.scroll, 2),
        m => panic!("expected Sql, got {m:?}"),
    }
    for _ in 0..5 {
        apply_action(&mut a, Action::DetailScroll(Direction::Up));
    }
    match &a.mode {
        Mode::Sql(sv) => assert_eq!(sv.scroll, 0, "scroll up saturates at 0"),
        m => panic!("expected Sql, got {m:?}"),
    }
    apply_action(&mut a, Action::DetailClose);

    // Stats modal: same plumbing.
    apply_action(&mut a, Action::StatsOpen);
    apply_action(&mut a, Action::DetailScroll(Direction::Down));
    match &a.mode {
        Mode::Stats(sv) => assert_eq!(sv.scroll, 1),
        m => panic!("expected Stats, got {m:?}"),
    }
}

#[test]
fn app_feature_toggle_stubs_are_safe_noops() {
    // The 5 scaffolded-but-unimplemented toggles must not mutate selection or
    // change the mode (filled by later steps).
    let mut a = app();
    a.select_by_unique_id(FCT);
    let before = a.ui_state.selected();
    for action in [
        Action::CycleLens,
        Action::BookmarkToggle,
        Action::BookmarkCycle,
        Action::SortCycle,
        Action::ToggleMinimap,
    ] {
        let out = apply_action(&mut a, action);
        assert!(!out.quit && out.effects.is_empty(), "{action:?} is a no-op");
        assert!(matches!(a.mode, Mode::Selection), "{action:?} keeps Selection");
    }
    assert_eq!(a.ui_state.selected(), before, "no toggle moved selection");
}

#[test]
fn app_overlay_scroll_acts_only_inside_an_overlay() {
    let mut a = app();
    // In Selection mode, an overlay-scroll action is a no-op (no panic).
    apply_action(&mut a, Action::DetailScroll(Direction::Down));
    assert!(matches!(a.mode, Mode::Selection));
    // In Help mode it advances the help scroll.
    apply_action(&mut a, Action::HelpToggle);
    apply_action(&mut a, Action::DetailScroll(Direction::Down));
    apply_action(&mut a, Action::DetailScroll(Direction::Down));
    match a.mode {
        Mode::Help { scroll } => assert_eq!(scroll, 2),
        _ => panic!("expected Help mode"),
    }
    // Up saturates at 0.
    for _ in 0..5 {
        apply_action(&mut a, Action::DetailScroll(Direction::Up));
    }
    match a.mode {
        Mode::Help { scroll } => assert_eq!(scroll, 0, "scroll up saturates at 0"),
        _ => panic!("expected Help mode"),
    }
}

// ---- test-coverage lens ('t') + automatic root↔cursor path ----

/// The one fixture node that is a coverage gap (testable, zero tests): the
/// delivery-classifications snapshot. All 45 models and all 7 seeds carry
/// tests, so the snapshot is the sole gap (verified against the fixture).
const GAP_SNAPSHOT: &str = "snapshot.jaffle_finance.delivery_classifications_snapshot";

#[test]
fn app_coverage_gap_predicate_over_resource_type_and_tests() {
    let a = app();
    // A tested model is NOT a gap; the snapshot with zero tests IS.
    let txn = a.dag.get("model.jaffle_finance.pos_txn").unwrap();
    assert!(txn.test_count > 0 && !coverage_gap(txn), "tested model: no gap");
    let snap = a.dag.get(GAP_SNAPSHOT).unwrap();
    assert!(
        snap.test_count == 0 && coverage_gap(snap),
        "untested snapshot is a coverage gap"
    );
    // A source is NEVER a gap even with zero tests (excluded by type).
    let src = values(a.dag.nodes())
        .into_iter()
        .find(|n| n.resource_type == "source" && n.test_count == 0)
        .expect("fixture has an untested source");
    assert!(!coverage_gap(src), "a source is never a coverage gap");
    // A synthetic untested model IS a gap (predicate is pure over NodeInfo).
    let m = NodeInfo {
        resource_type: "model".into(),
        test_count: 0,
        ..Default::default()
    };
    assert!(coverage_gap(&m), "an untested model is a gap");
}

#[test]
fn app_coverage_summary_counts_testable_resources() {
    // Fixture: 45 models + 7 seeds + 1 snapshot = 53 testable; only the
    // snapshot is untested → 52 tested.
    let a = app();
    assert_eq!(
        a.coverage_summary(),
        (52, 53),
        "coverage over model/snapshot/seed: 52 of 53 carry tests"
    );
}

#[test]
fn app_lineage_path_set_empty_when_cursor_home() {
    // Cursor home (== selection): the set is empty so a home cursor
    // highlights nothing.
    let mut a = app();
    a.select_by_unique_id(FCT);
    assert_eq!(a.lineage_cursor_uid().as_deref(), Some(FCT), "cursor home");
    assert!(
        a.lineage_path_set().is_empty(),
        "a home cursor produces an empty path set"
    );
}

#[test]
fn app_lineage_path_set_connects_root_to_an_upstream_cursor() {
    // Off-root (upstream) cursor: the path contains both endpoints, every
    // member is adjacent to another in the (undirected) subgraph edges, and
    // the result is deterministic across two calls.
    let mut a = app();
    a.select_by_unique_id(FCT);
    a.ui_state.set_focus(Focus::RightPane);
    apply_action(&mut a, Action::MoveLeft); // cursor → one column upstream
    let cur = a.lineage_cursor_uid().unwrap();
    assert_ne!(cur, FCT, "cursor left the root");

    let path = a.lineage_path_set();
    assert!(path.contains(FCT), "path includes the root");
    assert!(path.contains(&cur), "path includes the cursor");
    assert!(path.len() >= 2);

    // Connectivity: every path node touches another path node via some edge
    // (treated undirected), so the highlighted set is one connected chain.
    let sg = a.lineage_subgraph();
    for uid in &members(&path) {
        let touches = sg.edges.iter().any(|e| {
            (e.parent == *uid && path.contains(&e.child))
                || (e.child == *uid && path.contains(&e.parent))
        });
        assert!(touches, "path node {uid} is connected to another path node");
    }
    // Deterministic.
    assert_eq!(path, a.lineage_path_set(), "two calls are identical");
}

#[test]
fn app_lineage_path_set_is_undirected_for_a_downstream_cursor() {
    // The cursor can sit DOWNSTREAM of the root (not just upstream): the
    // undirected BFS must still connect them. Root a node and place the
    // cursor on a known downstream model.
    let root = "model.jaffle_finance.int_delivery_classifications__enriched";
    let down_model = "model.jaffle_finance.fct_delivery_monthly_snapshot";
    let mut a = app();
    a.select_by_unique_id(root);
    assert!(
        a.dag.downstream(root).contains(down_model),
        "precondition: the model is downstream of the root"
    );
    assert!(
        a.lineage_subgraph().contains(down_model),
        "the downstream model is in the rooted subgraph"
    );
    a.lineage_cursor = Some(down_model.to_string());
    let path = a.lineage_path_set();
    assert!(path.contains(root), "undirected path includes the root");
    assert!(
        path.contains(down_model),
        "undirected path includes the downstream cursor"
    );
    // Connected chain (undirected) and deterministic.
    let sg = a.lineage_subgraph();
    for uid in &members(&path) {
        let touches = sg.edges.iter().any(|e| {
            (e.parent == *uid && path.contains(&e.child))
                || (e.child == *uid && path.contains(&e.parent))
        });
        assert!(touches, "downstream path node {uid} stays connected");
    }
    assert_eq!(path, a.lineage_path_set(), "deterministic");
}

#[test]
fn app_coverage_lens_sets_warn_tint_only_when_active() {
    // Root on the gap snapshot so its own box is in the layout. With the lens
    // Off no attr carries a tint; cycling to Coverage marks the gap snapshot
    // Warn while a tested upstream model and a source stay None.
    let mut a = app();
    a.select_by_unique_id(FCT); // any selectable model; we layout the snapshot subgraph below
    let lay = layout(&a.dag.subgraph(GAP_SNAPSHOT));

    let styles_off = a.lineage_styles(&lay);
    assert!(
        values(&styles_off).into_iter().all(|c| c.lens == LensTint::Untinted),
        "lens off: nothing is tinted"
    );

    a.ui_state.cycle_lens();
    assert_eq!(a.ui_state.lens(), LineageLens::Coverage);
    let styles_on = a.lineage_styles(&lay);
    assert_eq!(
        styles_on.get(GAP_SNAPSHOT).unwrap().lens,
        LensTint::Warn,
        "Coverage lens: the gap snapshot is Warn-tinted"
    );
    // A tested upstream model is NOT tinted.
    let tested_up = "model.jaffle_finance.stg_masterdata__companies";
    assert!(
        styles_on.contains_key(tested_up),
        "precondition: tested model is in the snapshot subgraph"
    );
    assert_eq!(
        styles_on.get(tested_up).unwrap().lens,
        LensTint::Untinted,
        "a tested model is not tinted under the coverage lens"
    );
    // A source upstream is never tinted (excluded by coverage_gap).
    let src = keys(&lay.rects)
        .into_iter()
        .find(|uid| uid.starts_with("source."))
        .expect("the snapshot subgraph has an upstream source");
    assert_eq!(
        styles_on.get(&src).unwrap().lens,
        LensTint::Untinted,
        "a source is never tinted under the coverage lens"
    );
}

/// Style one node's own box by rooting the lineage on it and reading its
/// `lens` tint — the node is always present in its own subgraph, so this is a
/// deterministic way to assert a lens's per-node tint on the real fixture.
fn tint_of(a: &mut App, lens: LineageLens, uid: &str) -> LensTint {
    a.select_by_unique_id(uid);
    while a.ui_state.lens() != lens {
        a.ui_state.cycle_lens();
    }
    let lay = layout(&a.lineage_subgraph());
    a.lineage_styles(&lay).get(uid).copied().unwrap().lens
}

#[test]
fn app_degree_heat_lens_buckets_by_transitive_downstream() {
    let mut a = app();
    let hub = "model.jaffle_finance.pos_files__assignment";
    let mid = "model.jaffle_finance.stg_payment__suppliers";
    let leaf = "model.jaffle_finance.int_shoppers__enriched";
    assert_eq!(a.dag.downstream(hub).len(), 16, "fixture hub blast radius");
    assert_eq!(a.dag.downstream(mid).len(), 5, "fixture mid blast radius");
    assert_eq!(a.dag.downstream(FCT).len(), 2, "fixture FCT blast radius");
    assert_eq!(a.dag.downstream(leaf).len(), 0, "fixture leaf");
    assert_eq!(tint_of(&mut a, LineageLens::DegreeHeat, hub), LensTint::HeatHigh);
    assert_eq!(tint_of(&mut a, LineageLens::DegreeHeat, mid), LensTint::HeatMid);
    assert_eq!(tint_of(&mut a, LineageLens::DegreeHeat, FCT), LensTint::HeatLow);
    assert_eq!(tint_of(&mut a, LineageLens::DegreeHeat, leaf), LensTint::Untinted);
}

#[test]
fn app_layer_lens_tints_models_by_layer_and_leaves_non_models_untinted() {
    // Each layer maps to its own tint; a source keeps its class colour (None).
    let mut a = app();
    let staging = "model.jaffle_finance.stg_payment__shoppers";
    let inter = "model.jaffle_finance.int_shoppers__enriched";
    let marts = FCT; // fct_subscription_process is a marts model
    assert_eq!(
        tint_of(&mut a, LineageLens::Layer, staging),
        LensTint::LayerStaging
    );
    assert_eq!(
        tint_of(&mut a, LineageLens::Layer, inter),
        LensTint::LayerIntermediate
    );
    assert_eq!(
        tint_of(&mut a, LineageLens::Layer, marts),
        LensTint::LayerMarts
    );
    // A source upstream of stg_payment__shoppers gets None (its class colour).
    a.select_by_unique_id(staging);
    while a.ui_state.lens() != LineageLens::Layer {
        a.ui_state.cycle_lens();
    }
    let lay = layout(&a.lineage_subgraph());
    let styles = a.lineage_styles(&lay);
    let src = keys(&lay.rects)
        .into_iter()
        .find(|uid| uid.starts_with("source."))
        .expect("staging subgraph has an upstream source");
    assert_eq!(
        styles.get(&src).unwrap().lens,
        LensTint::Untinted,
        "a source is untinted under the layer lens (keeps its class colour)"
    );
}

#[test]
fn app_layer_violation_edges_empty_on_a_clean_fixture_and_no_violation_tint() {
    let mut a = app();
    assert!(
        layer_violation_edges(&a.dag).is_empty(),
        "the clean fixture has no layer-violation edges"
    );
    assert_eq!(
        tint_of(&mut a, LineageLens::LayerViolation, FCT),
        LensTint::Untinted,
        "no node is violation-tinted on a clean project"
    );
}

/// A tiny synthetic Dag with a deliberate layer violation: a `marts` model
/// (`mt`) feeds a `staging` model (`st`) — a backward edge — plus a clean
/// `staging → intermediate` edge (`st → it`) that is NOT a violation.
fn violation_dag() -> Dag {
    let mut nodes = StrMap::new();
    let mut add = |id: &str, name: &str, path: &str| {
        nodes.insert(
            id.to_string(),
            RawNode {
                name: name.into(),
                resource_type: "model".into(),
                path: Some(path.into()),
                ..Default::default()
            },
        );
    };
    add("model.p.mt", "mt", "marts/mt.sql");
    add("model.p.st", "st", "staging/st.sql");
    add("model.p.it", "it", "intermediate/it.sql");
    // child_map: mt → st (BACKWARD), st → it (clean). parent_map mirrors it.
    let mut child_map = StrMap::new();
    child_map.insert("model.p.mt".to_string(), vec!["model.p.st".to_string()]);
    child_map.insert("model.p.st".to_string(), vec!["model.p.it".to_string()]);
    let mut parent_map = StrMap::new();
    parent_map.insert("model.p.st".to_string(), vec!["model.p.mt".to_string()]);
    parent_map.insert("model.p.it".to_string(), vec!["model.p.st".to_string()]);
    Dag::build(&RawManifest { nodes, parent_map, child_map, ..Default::default() })
}

#[test]
fn app_layer_violation_edges_finds_the_backward_edge_only() {
    // Exactly the marts→staging edge is a violation; the clean staging→inter
    // edge is not. Deterministic (sorted) output.
    let dag = violation_dag();
    assert_eq!(
        layer_violation_edges(&dag),
        vec![("model.p.mt".to_string(), "model.p.st".to_string())],
        "only the marts→staging backward edge is a violation"
    );
}

#[test]
fn app_violation_lens_tints_both_incident_nodes_and_spares_the_rest() {
    // Root on the marts model so the whole synthetic graph is laid out; under
    // the violation lens the two incident nodes (mt, st) are Violation-tinted,
    // the clean downstream `it` is not.
    let mut a = App::new(violation_dag(), json("/tmp/x/target/manifest"));
    a.select_by_unique_id("model.p.mt");
    a.ui_state.cycle_lens(); // Coverage
    a.ui_state.cycle_lens(); // DegreeHeat
    a.ui_state.cycle_lens(); // Layer
    a.ui_state.cycle_lens(); // LayerViolation
    assert_eq!(a.ui_state.lens(), LineageLens::LayerViolation);
    let lay = layout(&a.lineage_subgraph());
    let styles = a.lineage_styles(&lay);
    assert_eq!(
        styles.get("model.p.mt").unwrap().lens,
        LensTint::Violation,
        "the marts parent is violation-tinted"
    );
    assert_eq!(
        styles.get("model.p.st").unwrap().lens,
        LensTint::Violation,
        "the staging child is violation-tinted"
    );
    assert_eq!(
        styles.get("model.p.it").unwrap().lens,
        LensTint::Untinted,
        "the clean downstream model is not violation-tinted"
    );
}

#[test]
fn app_lineage_styles_sets_on_path_for_an_off_root_cursor() {
    // With an off-root cursor, exactly the root↔cursor path nodes carry
    // on_path; nodes off the path do not.
    let mut a = app();
    a.select_by_unique_id(FCT);
    a.ui_state.set_focus(Focus::RightPane);
    apply_action(&mut a, Action::MoveLeft);
    let cur = a.lineage_cursor_uid().unwrap();
    assert_ne!(cur, FCT);

    let path = a.lineage_path_set();
    let lay = layout(&a.lineage_display_subgraph());
    let styles = a.lineage_styles(&lay);
    for (uid, attr) in entries(&styles) {
        assert_eq!(
            attr.on_path,
            path.contains(uid),
            "on_path matches the path set for {uid}"
        );
    }
    // The two endpoints are on the path.
    assert!(styles.get(FCT).unwrap().on_path, "root is on the path");
    assert!(styles.get(&cur).unwrap().on_path, "cursor is on the path");

    // Cursor home → no on_path anywhere.
    a.reset_lineage_cursor();
    let styles_home = a.lineage_styles(&lay);
    assert!(
        values(&styles_home).into_iter().all(|c| !c.on_path),
        "a home cursor highlights no path"
    );
}

#[test]
fn app_focus_dim_is_set_only_off_root_and_only_for_off_path_nodes() {
    // Focus dim is lens-INDEPENDENT (no lens active here): with the cursor at
    // home NOTHING is dimmed; with an off-root cursor, every node NOT on the
    // root↔cursor path is dimmed and the path nodes are not.
    let mut a = app();
    a.select_by_unique_id(FCT);

    // Home cursor → empty path → no dim anywhere (the diagram reads normally).
    let lay_home = layout(&a.lineage_display_subgraph());
    let styles_home = a.lineage_styles(&lay_home);
    assert!(
        values(&styles_home).into_iter().all(|c| !c.dimmed),
        "a home cursor dims nothing"
    );

    // Off-root cursor → dim partitions exactly on the path set.
    a.ui_state.set_focus(Focus::RightPane);
    apply_action(&mut a, Action::MoveLeft);
    let cur = a.lineage_cursor_uid().unwrap();
    assert_ne!(cur, FCT, "precondition: cursor walked off the root");
    let path = a.lineage_path_set();
    assert!(!path.is_empty(), "off-root path is non-empty");
    let lay = layout(&a.lineage_display_subgraph());
    let styles = a.lineage_styles(&lay);
    for (uid, attr) in entries(&styles) {
        assert_eq!(
            attr.dimmed,
            !path.contains(uid),
            "off-path nodes are dimmed, path nodes are not ({uid})"
        );
    }
    // The two endpoints are on the path, so never dimmed.
    assert!(!styles.get(FCT).unwrap().dimmed, "root never dims");
    assert!(!styles.get(&cur).unwrap().dimmed, "cursor never dims");
    // At least one off-path node exists in fct's subgraph and IS dimmed.
    assert!(
        values(&styles).into_iter().any(|c| c.dimmed),
        "fct's subgraph has off-path nodes that dim"
    );
}

#[test]
fn app_cycle_lens_advances_the_lens_as_a_noop_action() {
    let mut a = app();
    a.select_by_unique_id(FCT);
    let before = a.ui_state.selected();
    assert_eq!(a.ui_state.lens(), LineageLens::Off, "lens starts Off");
    let out = apply_action(&mut a, Action::CycleLens);
    assert!(!out.quit && out.effects.is_empty(), "cycle is a no-op action");
    assert!(matches!(a.mode, Mode::Selection), "stays in Selection");
    assert_eq!(a.ui_state.lens(), LineageLens::Coverage, "advanced to Coverage");
    // Cycle through the rest and back to Off.
    for expected in [
        LineageLens::DegreeHeat,
        LineageLens::Layer,
        LineageLens::LayerViolation,
        LineageLens::Off,
    ] {
        apply_action(&mut a, Action::CycleLens);
        assert_eq!(a.ui_state.lens(), expected);
    }
    assert_eq!(a.ui_state.selected(), before, "selection never moved");
}

#[test]
fn app_toggle_minimap_flips_the_flag_as_a_noop_action() {
    let mut a = app();
    a.select_by_unique_id(FCT);
    let before = a.ui_state.selected();
    assert!(!a.ui_state.minimap_visible(), "minimap starts off (default)");
    let out = apply_action(&mut a, Action::ToggleMinimap);
    assert!(!out.quit && out.effects.is_empty(), "toggle is a no-op action");
    assert!(matches!(a.mode, Mode::Selection), "stays in Selection");
    assert!(a.ui_state.minimap_visible(), "the flag flipped on");
    apply_action(&mut a, Action::ToggleMinimap);
    assert!(!a.ui_state.minimap_visible(), "and flips back off");
    assert_eq!(a.ui_state.selected(), before, "selection never moved");
}

#[test]
fn app_bookmark_toggle_inserts_then_removes_on_selected_uid() {
    let mut a = app();
    a.select_by_unique_id(FCT);
    assert!(a.bookmarks.is_empty(), "no bookmarks initially");
    apply_action(&mut a, Action::BookmarkToggle);
    assert!(a.bookmarks.contains(FCT), "first toggle adds the bookmark");
    apply_action(&mut a, Action::BookmarkToggle);
    assert!(!a.bookmarks.contains(FCT), "second toggle removes it");
    assert!(a.bookmarks.is_empty());
}

#[test]
fn app_bookmark_toggle_is_a_noop_when_nothing_selected() {
    // An empty filter leaves no selectable model, so selected_unique_id is
    // None and the toggle does nothing (no panic, no insert).
    let mut a = app();
    a.mode = Mode::Search(SearchState {
        target: SearchTarget::List,
        query: "zzzzzz".into(), // matches no model
        origin_uid: None,
        match_idx: 0,
    });
    a.refilter();
    assert!(a.selected_node().is_none(), "filter matched nothing");
    apply_action(&mut a, Action::BookmarkToggle);
    assert!(a.bookmarks.is_empty(), "toggle with no selection is a no-op");
}

#[test]
fn app_bookmark_cycle_wraps_to_next_bookmarked_model() {
    let mut a = app();
    // Bookmark two models; cycling from one lands on the other, and again
    // wraps back. Use the flat models list to pick deterministic neighbours.
    let ids: Vec<String> = a
        .model_list
        .models
        .iter()
        .map(|m| m.unique_id.clone())
        .collect();
    let first = ids[1].clone(); // not index 0, so the wrap is exercised
    let second = ids[5].clone();
    a.bookmarks.insert(first.clone());
    a.bookmarks.insert(second.clone());
    a.select_by_unique_id(&first);
    apply_action(&mut a, Action::BookmarkCycle);
    assert_eq!(
        a.selected_unique_id().as_deref(),
        Some(second.as_str()),
        "cycle moves to the next bookmarked model"
    );
    // From the later one, cycling wraps forward back to the earlier one.
    apply_action(&mut a, Action::BookmarkCycle);
    assert_eq!(
        a.selected_unique_id().as_deref(),
        Some(first.as_str()),
        "cycle wraps around to the first bookmark"
    );
}

#[test]
fn app_bookmark_cycle_is_a_noop_when_set_empty() {
    let mut a = app();
    a.select_by_unique_id(FCT);
    let before = a.selected_unique_id();
    apply_action(&mut a, Action::BookmarkCycle);
    assert_eq!(a.selected_unique_id(), before, "no bookmarks ⇒ no move");
}

#[test]
fn app_reload_prunes_vanished_bookmarks_and_keeps_survivors() {
    let mut a = app();
    // One real id (survives reload) and one stale id (pruned).
    a.bookmarks.insert(FCT.to_string());
    a.bookmarks.insert("model.jaffle_finance.gone_forever".to_string());
    a.reload(load_dag(Ok(fixture_manifest()))).expect("reload ok");
    assert!(a.bookmarks.contains(FCT), "surviving id kept");
    assert!(
        !a.bookmarks.contains("model.jaffle_finance.gone_forever"),
        "vanished id pruned"
    );
    assert_eq!(a.bookmarks.len(), 1);
}

#[test]
fn app_sort_cycle_advances_mode_and_preserves_selection_by_uid() {
    let mut a = app();
    a.select_by_unique_id(FCT);
    assert_eq!(a.sort, SortMode::Layer, "starts in Layer");
    apply_action(&mut a, Action::SortCycle);
    assert_eq!(a.sort, SortMode::Downstream, "cycles Layer→Downstream");
    // Selection is re-resolved BY uid across the rebuild — same node, even if
    // its row moved within its layer group.
    assert_eq!(
        a.selected_unique_id().as_deref(),
        Some(FCT),
        "selection survives the sort rebuild by unique_id"
    );
    apply_action(&mut a, Action::SortCycle);
    assert_eq!(a.sort, SortMode::Tests);
    apply_action(&mut a, Action::SortCycle);
    assert_eq!(a.sort, SortMode::Layer, "wraps back to Layer");
    assert_eq!(
        a.selected_unique_id().as_deref(),
        Some(FCT),
        "still the same node after a full cycle"
    );
}

#[test]
fn app_sort_cycle_refilters_in_the_new_order_during_search() {
    // With a list search active, SortCycle rebuilds the full list AND the
    // filtered view, keeping the selection by uid. The active list reorders.
    let mut a = app();
    a.mode = Mode::Search(SearchState {
        target: SearchTarget::List,
        query: "pos".into(),
        origin_uid: None,
        match_idx: 0,
    });
    a.refilter();
    let before: Vec<String> = a
        .active_list()
        .models
        .iter()
        .map(|m| m.unique_id.clone())
        .collect();
    assert!(before.len() > 1, "search matched several models");
    let sel = a.selected_unique_id();
    apply_action(&mut a, Action::SortCycle);
    // Still filtered (search mode preserved) and selection survives by uid.
    assert!(a.filter.is_some(), "filter rebuilt, search still active");
    assert_eq!(a.selected_unique_id(), sel, "selection unchanged by uid");
    let after: Vec<String> = a
        .active_list()
        .models
        .iter()
        .map(|m| m.unique_id.clone())
        .collect();
    // Same membership (a multiset), regardless of order.
    let mut b = before.clone();
    let mut af = after.clone();
    b.sort();
    af.sort();
    assert_eq!(b, af, "filtered membership is unchanged by the sort");
}

// ---- command palette round-trips ----

/// Open the palette, type `query`, then return the resulting `App` so a test
/// can confirm the filter/selection state before Enter.
fn open_palette_and_type(query: &str) -> App {
    let mut a = app();
    apply_action(&mut a, Action::PaletteOpen);
    assert!(matches!(a.mode, Mode::Palette(_)), "PaletteOpen → Palette");
    for c in query.chars() {
        apply_action(&mut a, Action::SearchType(c));
    }
    a
}

#[test]
fn app_palette_open_type_enter_runs_the_resolved_action() {
    // Filter to the minimap toggle and run it: the minimap pref flips and the
    // mode returns to Selection (the recursively-applied action's effect lands).
    let mut a = open_palette_and_type("minimap");
    let before = a.ui_state.minimap_visible();
    let out = apply_action(&mut a, Action::SearchConfirm);
    assert!(!out.quit && out.effects.is_empty());
    assert_eq!(a.mode, Mode::Selection, "palette closes on confirm");
    assert_ne!(
        a.ui_state.minimap_visible(),
        before,
        "the resolved ToggleMinimap action ran"
    );
}

#[test]
fn app_palette_confirm_propagates_quit_outcome() {
    // Choosing the quit command must quit (the whole Outcome propagates).
    let mut a = open_palette_and_type("quit");
    // "quit" is the only command whose help contains that subsequence.
    assert!(
        palette_candidates("quit")
            .iter()
            .any(|b| b.action == Action::Quit),
        "the quit command is a candidate"
    );
    let out = apply_action(&mut a, Action::SearchConfirm);
    assert!(out.quit, "confirming the quit command quits");
    assert_eq!(a.mode, Mode::Selection, "mode set to Selection before apply");
}

#[test]
fn app_palette_confirm_propagates_editor_effect() {
    // Choosing "open SQL in $EDITOR" must yield the editor Effect. A model
    // with a resolvable file path is selected first so the effect is produced.
    let mut a = app();
    a.select_by_unique_id("model.jaffle_finance.pos_txn");
    apply_action(&mut a, Action::PaletteOpen);
    for c in "$EDITOR".chars() {
        apply_action(&mut a, Action::SearchType(c));
    }
    // The OpenEditor row's help is "open SQL in $EDITOR".
    assert!(
        palette_candidates("$EDITOR")
            .iter()
            .any(|b| b.action == Action::OpenEditor),
        "the editor command is a candidate"
    );
    let out = apply_action(&mut a, Action::SearchConfirm);
    assert!(
        matches!(out.effects.as_slice(), [Effect::OpenEditor(_)]),
        "confirming the editor command emits its Effect: {:?}",
        out.effects
    );
    assert_eq!(a.mode, Mode::Selection);
}

#[test]
fn app_palette_selected_clamps_when_the_filter_shrinks() {
    // Move the cursor down on the full list, then narrow the query so fewer
    // candidates remain: `selected` must clamp into range (never out of bounds).
    let mut a = open_palette_and_type("");
    // Step down a few times over the full candidate list.
    for _ in 0..5 {
        apply_action(&mut a, Action::SearchMove(Direction::Down));
    }
    let moved = match &a.mode {
        Mode::Palette(p) => p.selected,
        _ => unreachable!(),
    };
    assert!(moved > 0, "the palette cursor moved down");
    // Now type a narrowing query; `selected` resets to 0 on each keystroke and
    // can never exceed the (smaller) candidate count.
    for c in "lens".chars() {
        apply_action(&mut a, Action::SearchType(c));
    }
    if let Mode::Palette(p) = &a.mode {
        let count = palette_candidates(&p.query).len();
        assert!(count > 0, "'lens' still has candidates");
        assert!(p.selected < count, "selected stays in range after shrink");
    } else {
        unreachable!();
    }
}

#[test]
fn app_palette_cancel_returns_to_selection_without_touching_the_filter() {
    // Esc closes the palette and leaves the list filter untouched (the palette
    // shares the SearchCancel action but never drives the list filter).
    let mut a = open_palette_and_type("lens");
    assert!(a.filter.is_none(), "the palette never builds a list filter");
    let out = apply_action(&mut a, Action::SearchCancel);
    assert!(!out.quit && out.effects.is_empty());
    assert_eq!(a.mode, Mode::Selection, "Esc closes the palette");
    assert!(a.filter.is_none(), "filter still untouched after cancel");
}

#[test]
fn app_palette_backspace_resets_selected_to_top() {
    // Backspace resets `selected` to 0 EXACTLY like typing, so the highlighted
    // row is a pure function of the query (no arrival-path dependence). Force a
    // non-zero selection, backspace, and assert it snapped back to the top.
    let mut a = open_palette_and_type("lens");
    if let Mode::Palette(p) = &mut a.mode {
        p.selected = palette_candidates(&p.query).len() - 1;
        assert!(p.selected > 0, "fixture has >1 'lens' candidate to move off 0");
    }
    apply_action(&mut a, Action::SearchBackspace); // "len"
    if let Mode::Palette(p) = &a.mode {
        assert_eq!(p.selected, 0, "backspace resets the highlight to the top");
    } else {
        unreachable!();
    }
}