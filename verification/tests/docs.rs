//! The generated documentation, over a project of 93 nodes and over large graphs.

use std::collections::HashSet;

use dbtl::docs::{generate_docs, layer_groups, node_files, FULL_GRAPH_NODE_LIMIT};
use dbtl::manifest::{RawColumn, RawConfig, RawDependsOn, RawExposure, RawManifest, RawNode, RawSource, RawTestMetadata};
use dbtl::sorted::StrMap;
use dbtl::{coverage_gap, load_dag, App, Dag};

/// The value of a key that the map holds.
fn at<'a, V>(m: &'a StrMap<V>, key: &str) -> &'a V {
    m.get(key).expect("the map holds the key")
}

fn values<V>(m: &StrMap<V>) -> Vec<&V> {
    (0..m.len()).map(|i| m.value_at(i)).collect()
}

fn map_of<V>(pairs: Vec<(String, V)>) -> StrMap<V> {
    let mut m = StrMap::new();
    for (k, v) in pairs {
        m.insert(k, v);
    }
    m
}

/// Records `child` under each of its parents, and them under it.
fn link(parent_map: &mut StrMap<Vec<String>>, child_map: &mut StrMap<Vec<String>>, child: &str, parents: &[String]) {
    for p in parents {
        for (m, from, to) in [(&mut *parent_map, child, p.as_str()), (&mut *child_map, p.as_str(), child)] {
            let mut list = m.get(from).cloned().unwrap_or_default();
            list.push(to.to_string());
            m.insert(from.to_string(), list);
        }
    }
}

// ---- a project of 93 nodes ----

/// The sources, by the group they belong to.
const SOURCES: &[(&str, &[&str])] = &[
    ("dev_lake_jaffle_pos", &["pos_cat", "pos_pay", "pos_rcv", "pos_shp"]),
    ("dev_lake_jaffle_payment", &["shoppers", "suppliers", "refunds"]),
    ("dev_lake_jaffle_billing", &["plans", "accounts", "invoices", "events"]),
    ("dev_lake_jaffle_crm", &["contacts", "regions"]),
    ("dev_lake_jaffle_masterdata", &["companies"]),
    ("dev_lake_jaffle_delivery", &["lanes"]),
    ("dev_lake_jaffle_hr", &["people", "teams", "roles", "offices"]),
    ("dev_lake_jaffle_web", &["sessions", "visits", "pages"]),
    (
        "dev_lake_jaffle_archive",
        &[
            "y2001", "y2002", "y2003", "y2004", "y2005", "y2006", "y2007", "y2008", "y2009", "y2010", "y2011",
            "y2012", "y2013", "y2014", "y2015", "y2016",
        ],
    ),
];

const SEEDS: &[&str] = &[
    "source_datetime_policy",
    "pos_prod_aws_store_master",
    "fiscal_years",
    "country_codes",
    "currency_codes",
    "holiday_calendar",
    "tax_rates",
];

/// The models: directory, name, materialization and parents.
const MODELS: &[(&str, &str, &str, &[&str])] = &[
    (
        "staging/pos",
        "pos_files__assignment",
        "view",
        &[
            "source.dev_lake_jaffle_pos.pos_cat",
            "source.dev_lake_jaffle_pos.pos_pay",
            "source.dev_lake_jaffle_pos.pos_rcv",
            "source.dev_lake_jaffle_pos.pos_shp",
            "seed.pos_prod_aws_store_master",
            "seed.source_datetime_policy",
        ],
    ),
    (
        "staging/payment",
        "stg_payment__shoppers",
        "view",
        &["source.dev_lake_jaffle_payment.shoppers", "seed.source_datetime_policy"],
    ),
    ("staging/payment", "stg_payment__suppliers", "view", &["source.dev_lake_jaffle_payment.suppliers"]),
    (
        "staging/payment",
        "stg_payment__refunds",
        "view",
        &["source.dev_lake_jaffle_payment.refunds", "seed.source_datetime_policy"],
    ),
    ("staging/billing", "stg_billing__plans", "view", &["source.dev_lake_jaffle_billing.plans"]),
    ("staging/billing", "stg_billing__accounts", "view", &["source.dev_lake_jaffle_billing.accounts"]),
    ("staging/billing", "stg_billing__invoices", "view", &["source.dev_lake_jaffle_billing.invoices"]),
    ("staging/billing", "stg_billing__events", "view", &["source.dev_lake_jaffle_billing.events"]),
    ("staging/crm", "stg_crm__contacts", "view", &["source.dev_lake_jaffle_crm.contacts"]),
    ("staging/crm", "stg_crm__regions", "view", &["source.dev_lake_jaffle_crm.regions"]),
    ("staging/masterdata", "stg_masterdata__companies", "view", &["source.dev_lake_jaffle_masterdata.companies"]),
    ("staging/delivery", "stg_delivery__lanes", "view", &["source.dev_lake_jaffle_delivery.lanes"]),
    ("staging/hr", "stg_hr__people", "view", &["source.dev_lake_jaffle_hr.people"]),
    ("staging/hr", "stg_hr__teams", "view", &["source.dev_lake_jaffle_hr.teams"]),
    ("staging/hr", "stg_hr__roles", "view", &["source.dev_lake_jaffle_hr.roles"]),
    ("staging/hr", "stg_hr__offices", "view", &["source.dev_lake_jaffle_hr.offices"]),
    ("staging/web", "stg_web__sessions", "view", &["source.dev_lake_jaffle_web.sessions"]),
    ("staging/web", "stg_web__visits", "view", &["source.dev_lake_jaffle_web.visits"]),
    ("staging/web", "stg_web__pages", "view", &["source.dev_lake_jaffle_web.pages"]),
    ("intermediate/payment", "int_shoppers__combined", "view", &["model.stg_payment__shoppers"]),
    ("intermediate/pos", "pos_pay", "view", &["model.pos_files__assignment"]),
    ("intermediate/pos", "pos_rcv", "view", &["model.pos_files__assignment"]),
    ("intermediate/pos", "pos_shp", "view", &["model.pos_files__assignment"]),
    ("intermediate/pos", "pos_cat", "view", &["model.pos_files__assignment"]),
    ("intermediate/pos", "int_pos__daily", "view", &["model.pos_shp", "model.pos_cat"]),
    ("intermediate/pos", "int_pos__monthly", "view", &["model.int_pos__daily"]),
    (
        "intermediate/billing",
        "int_subscriptions__joined",
        "view",
        &[
            "model.stg_billing__plans",
            "model.stg_billing__accounts",
            "model.stg_billing__invoices",
            "model.stg_billing__events",
        ],
    ),
    ("intermediate/crm", "int_contacts__merged", "view", &["model.stg_crm__contacts", "model.stg_crm__regions"]),
    (
        "intermediate/delivery",
        "int_delivery_lanes__combined",
        "view",
        &["snapshot.delivery_lanes_snapshot", "model.stg_delivery__lanes"],
    ),
    (
        "intermediate/hr",
        "int_hr__headcount",
        "view",
        &["model.stg_hr__people", "model.stg_hr__teams", "model.stg_hr__roles", "model.stg_hr__offices"],
    ),
    (
        "intermediate/web",
        "int_web__traffic",
        "view",
        &["model.stg_web__sessions", "model.stg_web__visits", "model.stg_web__pages"],
    ),
    ("marts", "dim_supplier_profile", "table", &["model.stg_payment__suppliers"]),
    ("marts", "rpt_supplier_summary", "table", &["model.dim_supplier_profile"]),
    (
        "marts",
        "fct_subscription_process",
        "table",
        &[
            "model.pos_pay",
            "model.pos_rcv",
            "model.dim_supplier_profile",
            "model.int_subscriptions__joined",
            "model.int_contacts__merged",
            "seed.fiscal_years",
        ],
    ),
    ("marts", "rpt_delivery_base_metrics", "table", &["model.fct_subscription_process"]),
    (
        "marts",
        "fct_delivery_monthly_snapshot",
        "incremental",
        &["model.fct_subscription_process", "model.int_delivery_lanes__combined"],
    ),
    ("marts", "fct_pos_sales", "table", &["model.int_pos__daily"]),
    ("marts", "rpt_pos_sales", "table", &["model.fct_pos_sales", "model.int_pos__monthly"]),
    ("marts", "store_profile", "table", &["model.pos_cat"]),
    ("marts", "rpt_store_ranking", "table", &["model.store_profile", "model.fct_pos_sales"]),
    ("marts", "hr_employee", "table", &["model.int_hr__headcount"]),
    ("marts", "fct_web_visits", "table", &["model.int_web__traffic", "model.hr_employee"]),
    ("utilities/pos_prep", "pos_txn", "table", &["model.pos_files__assignment"]),
    ("utilities/pos_prep", "pos_ret", "table", &["model.pos_txn"]),
    ("utilities/pos_prep", "pos_adj", "table", &["model.pos_ret"]),
];

/// The id of a resource given without its project.
fn full_id(short: &str) -> String {
    let (kind, rest) = short.split_once('.').expect("a kind and a name");
    format!("{kind}.jaffle_finance.{rest}")
}

/// A test attached to a resource.
fn attached_test(kind: &str, uid: &str) -> RawNode {
    RawNode {
        name: format!("{kind}_{uid}"),
        resource_type: "test".into(),
        attached_node: Some(uid.to_string()),
        column_name: Some("id".into()),
        test_metadata: Some(RawTestMetadata { name: Some(kind.to_string()) }),
        ..Default::default()
    }
}

fn fixture_manifest() -> RawManifest {
    let mut m = RawManifest::default();
    for (group, names) in SOURCES {
        for name in *names {
            m.sources.insert(
                full_id(&format!("source.{group}.{name}")),
                RawSource { name: name.to_string(), resource_type: "source".into(), ..Default::default() },
            );
        }
    }
    for name in SEEDS {
        let uid = full_id(&format!("seed.{name}"));
        let kind = if *name == "fiscal_years" { "accepted_values" } else { "not_null" };
        m.nodes.insert(format!("test.jaffle_finance.{kind}_{name}"), attached_test(kind, &uid));
        m.nodes.insert(
            uid,
            RawNode {
                name: name.to_string(),
                resource_type: "seed".into(),
                path: Some(format!("{name}.csv")),
                raw_code: Some(String::new()),
                original_file_path: Some(format!("seeds/{name}.csv")),
                ..Default::default()
            },
        );
    }
    let snapshot = full_id("snapshot.delivery_lanes_snapshot");
    m.nodes.insert(
        snapshot.clone(),
        RawNode {
            name: "delivery_lanes_snapshot".into(),
            resource_type: "snapshot".into(),
            path: Some("delivery_lanes_snapshot.sql".into()),
            raw_code: Some("select * from companies".into()),
            ..Default::default()
        },
    );
    link(&mut m.parent_map, &mut m.child_map, &snapshot, &[full_id("model.stg_masterdata__companies")]);
    for (dir, name, materialized, parents) in MODELS {
        let uid = full_id(&format!("model.{name}"));
        let parents: Vec<String> = parents.iter().map(|p| full_id(p)).collect();
        link(&mut m.parent_map, &mut m.child_map, &uid, &parents);
        m.nodes.insert(format!("test.jaffle_finance.unique_{name}"), attached_test("unique", &uid));
        m.nodes.insert(
            uid,
            RawNode {
                name: name.to_string(),
                resource_type: "model".into(),
                path: Some(format!("{dir}/{name}.sql")),
                raw_code: Some(format!("select id, amount from raw_{name}")),
                config: RawConfig { materialized: Some(materialized.to_string()) },
                columns: vec![
                    RawColumn {
                        key: "id".into(),
                        name: Some("id".into()),
                        data_type: Some("integer".into()),
                        description: Some("primary key".into()),
                    },
                    RawColumn { key: "amount".into(), name: Some("amount".into()), data_type: None, description: None },
                ],
                original_file_path: Some(format!("models/{dir}/{name}.sql")),
                depends_on: RawDependsOn { nodes: parents },
                ..Default::default()
            },
        );
    }
    let boards: [(&str, &[&str]); 2] = [
        ("headcount_board", &["model.hr_employee"]),
        ("traffic_board", &["model.hr_employee", "model.fct_web_visits"]),
    ];
    for (name, parents) in boards {
        m.exposures.insert(
            full_id(&format!("exposure.{name}")),
            RawExposure {
                name: name.to_string(),
                exposure_type: Some("dashboard".into()),
                depends_on: RawDependsOn { nodes: parents.iter().map(|p| full_id(p)).collect() },
                ..Default::default()
            },
        );
    }
    m
}

/// The name of a JSON file.
fn json(stem: &str) -> String {
    format!("{stem}.json")
}

const FIXTURE: &str = "/tests/fixtures/manifest";

const NODES_DIR: &str = "models";

const LAYER_ORDER: [&str; 4] = ["staging", "intermediate", "marts", "utilities"];

fn fixture_dag() -> Dag {
    load_dag(Ok(fixture_manifest())).expect("fixture manifest must load")
}

/// Find the contents of the generated file at `rel_path`.
fn file<'a>(out: &'a [(String, String)], rel_path: &str) -> &'a str {
    out.iter()
        .find(|(p, _)| p == rel_path)
        .map(|(_, c)| c.as_str())
        .unwrap_or_else(|| panic!("expected a generated file at {rel_path}"))
}

#[test]
fn generates_one_page_per_node_plus_readme() {
    let dag = fixture_dag();
    let out = generate_docs(&dag, "jaffle_finance", &json("tests/fixtures/manifest"));
    // 93 nodes (45 model + 38 source + 7 seed + 1 snapshot + 2 exposure)
    // plus the README index.
    assert_eq!(out.len(), dag.len() + 1, "one page per node + README");
    let readme_count = out.iter().filter(|(p, _)| p == "README.md").count();
    assert_eq!(readme_count, 1, "exactly one README");
    // Every node page lives under the nodes dir.
    for (path, _) in &out {
        assert!(
            path == "README.md" || path.starts_with(&format!("{NODES_DIR}/")),
            "unexpected path {path}"
        );
    }
}

#[test]
fn node_paths_are_unique_no_collisions() {
    let dag = fixture_dag();
    let out = generate_docs(&dag, "p", "src");
    let mut paths: Vec<&str> = out.iter().map(|(p, _)| p.as_str()).collect();
    let count = paths.len();
    paths.sort_unstable();
    paths.dedup();
    assert_eq!(paths.len(), count, "no two files share a path");
}

#[test]
fn deterministic_byte_identical_across_runs() {
    let dag = fixture_dag();
    let a = generate_docs(&dag, "jaffle_finance", &json("tests/fixtures/manifest"));
    let b = generate_docs(&dag, "jaffle_finance", &json("tests/fixtures/manifest"));
    assert_eq!(a, b, "two generations must be byte-identical");
}

#[test]
fn readme_links_resolve_to_real_generated_files() {
    let dag = fixture_dag();
    let out = generate_docs(&dag, "p", "src");
    let generated: HashSet<&str> = out.iter().map(|(p, _)| p.as_str()).collect();
    let readme = file(&out, "README.md");
    // Pull every `models/...md` target out of the README markdown links and
    // confirm each names a file we actually generated (no broken links).
    let mut checked = 0usize;
    for chunk in readme.split("](") {
        if let Some(end) = chunk.find(')') {
            let target = &chunk[..end];
            if target.starts_with(&format!("{NODES_DIR}/")) && target.ends_with(".md") {
                assert!(
                    generated.contains(target),
                    "README links to missing file {target}"
                );
                checked += 1;
            }
        }
    }
    assert!(checked >= dag.len(), "every node is linked from the README");
}

#[test]
fn readme_has_summary_counts_and_mermaid() {
    let dag = fixture_dag();
    let out = generate_docs(&dag, "jaffle_finance", &json("manifest"));
    let readme = file(&out, "README.md");
    assert!(readme.contains("# jaffle_finance"), "project heading");
    assert!(
        readme.contains(&format!("Generated from: `{}`", json("manifest"))),
        "provenance"
    );
    assert!(readme.contains("- total nodes: 93"), "total count");
    assert!(readme.contains("- model: 45"), "model count");
    assert!(readme.contains("- source: 38"), "source count");
    assert!(readme.contains("- seed: 7"), "seed count");
    assert!(readme.contains("- snapshot: 1"), "snapshot count");
    assert!(
        readme.contains("```mermaid\ngraph LR\n"),
        "project mermaid fence"
    );
}

#[test]
fn node_page_has_all_sections_and_a_mermaid_fence() {
    let dag = fixture_dag();
    let out = generate_docs(&dag, "p", "src");
    // Pick a model that the fixture freezes: fct_subscription_process.
    let uid = values(dag.nodes())
        .into_iter()
        .find(|n| n.name == "fct_subscription_process")
        .map(|n| n.unique_id.clone())
        .expect("fixture has fct_subscription_process");
    let files = node_files(&dag);
    let page = file(&out, at(&files, &uid).as_str());
    assert!(page.starts_with("# fct_subscription_process"), "heading");
    for section in [
        "## Description",
        "## Columns",
        "## Tests",
        "## Upstream dependencies",
        "## Downstream dependencies",
        "## Lineage",
    ] {
        assert!(page.contains(section), "missing section {section}");
    }
    assert!(page.contains("- unique_id: `"), "unique_id metadata");
    assert!(
        page.contains("```mermaid\ngraph LR\n"),
        "per-node mermaid fence"
    );
    // It has upstream dependencies, so the closure-count lines are present.
    assert!(
        page.contains("- transitive ancestors:"),
        "transitive up count"
    );
    assert!(
        page.contains("- transitive descendants:"),
        "transitive down count"
    );
}

#[test]
fn seed_with_accepted_values_test_lists_it() {
    // The fixture's fiscal_years seed carries an accepted_values test.
    let dag = fixture_dag();
    let out = generate_docs(&dag, "p", "src");
    let uid = values(dag.nodes())
        .into_iter()
        .find(|n| n.name == "fiscal_years" && n.resource_type == "seed")
        .map(|n| n.unique_id.clone())
        .expect("fixture has the fiscal_years seed");
    let files = node_files(&dag);
    let page = file(&out, at(&files, &uid).as_str());
    assert!(page.contains("## Tests"), "tests section present");
    assert!(
        page.contains("accepted_values"),
        "lists the accepted_values test"
    );
}

#[test]
fn empty_sections_are_labeled_not_dropped() {
    // A source with no tests still shows the Tests heading + "No tests."
    let dag = fixture_dag();
    let out = generate_docs(&dag, "p", "src");
    let uid = values(dag.nodes())
        .into_iter()
        .find(|n| n.resource_type == "source" && dag.tests(&n.unique_id).is_empty())
        .map(|n| n.unique_id.clone())
        .expect("fixture has an untested source");
    let files = node_files(&dag);
    let page = file(&out, at(&files, &uid).as_str());
    assert!(
        page.contains("## Tests\n\nNo tests."),
        "labeled empty tests"
    );
}

#[test]
fn hostile_names_and_descriptions_do_not_break_markdown_or_mermaid() {
    // A node whose name/description carry a `"`, a `|`, and a newline must
    // not break the Mermaid label, the Markdown table cell, or the fence.
    let columns = vec![RawColumn {
        key: "id".to_string(),
        name: Some("id".to_string()),
        data_type: Some("integer".to_string()),
        description: Some("a | piped \"quoted\" column".to_string()),
    }];
    let nodes = map_of(vec![
        (
            "model.p.evil".to_string(),
            RawNode {
                name: "ev\"il | model".into(),
                resource_type: "model".into(),
                path: Some("staging/evil.sql".into()),
                description: Some("line one\nline \"two\" | pipe".into()),
                columns,
                depends_on: RawDependsOn {
                    nodes: vec!["model.p.up".to_string()],
                },
                ..Default::default()
            },
        ),
        (
            "model.p.up".to_string(),
            RawNode {
                name: "up".into(),
                resource_type: "model".into(),
                path: Some("staging/up.sql".into()),
                ..Default::default()
            },
        ),
    ]);
    let parent_map =
        map_of(vec![("model.p.evil".to_string(), vec!["model.p.up".to_string()])]);
    let child_map =
        map_of(vec![("model.p.up".to_string(), vec!["model.p.evil".to_string()])]);
    let manifest = RawManifest {
        nodes,
        parent_map,
        child_map,
        ..Default::default()
    };
    let dag = Dag::build(&manifest);
    let out = generate_docs(&dag, "p", "src");
    let files = node_files(&dag);
    let page = file(&out, at(&files, "model.p.evil").as_str());
    // The Mermaid label escapes the quote (#quot;) and drops control chars,
    // so the raw `"` never reaches a Mermaid `["..."]` string nor the fence.
    assert!(page.contains("#quot;"), "mermaid label escaped the quote");
    // The hostile column description carries a `|`; the table cell escapes
    // it to `\|` so the row keeps its column count.
    assert!(
        page.contains("a \\| piped"),
        "table cell escaped the pipe in the column description"
    );
    // The whole-project README must also survive the hostile name.
    let readme = file(&out, "README.md");
    assert!(
        readme.contains("ev\"il \\| model"),
        "README cell escaped the pipe"
    );
    // Determinism still holds with the hostile data.
    let again = generate_docs(&dag, "p", "src");
    assert_eq!(out, again, "deterministic even with hostile data");
}

/// Pull every `models/…md` target out of a `click <id> "<href>"` line.
fn click_targets(markdown: &str) -> Vec<String> {
    markdown
        .lines()
        .filter_map(|l| {
            let l = l.trim_start();
            let rest = l.strip_prefix("click ")?;
            // `click <id> "<href>"` — the href is the only quoted span.
            let start = rest.find('"')? + 1;
            let end = rest[start..].find('"')? + start;
            Some(rest[start..end].to_string())
        })
        .collect()
}

#[test]
fn diagram_click_links_target_real_generated_files() {
    // Every `click` link in EVERY generated page (node pages + README) must
    // name a file we actually generated — no broken navigation.
    let dag = fixture_dag();
    let out = generate_docs(&dag, "p", "src");
    let generated: HashSet<&str> = out.iter().map(|(p, _)| p.as_str()).collect();
    let mut total_clicks = 0usize;
    for (page, contents) in &out {
        // README hrefs are root-relative (`models/…`); node-page hrefs are
        // bare basenames (`….md`), resolved against the page's own dir.
        let in_models = page.starts_with(&format!("{NODES_DIR}/"));
        for target in click_targets(contents) {
            total_clicks += 1;
            let resolved = if target.contains('/') {
                target.clone()
            } else if in_models {
                format!("{NODES_DIR}/{target}")
            } else {
                target.clone()
            };
            assert!(
                generated.contains(resolved.as_str()),
                "{page}: click links to missing file {target} (resolved {resolved})"
            );
        }
    }
    assert!(total_clicks > 0, "at least some click links were emitted");
}

#[test]
fn every_diagram_has_a_legend_pointing_at_real_files() {
    // The legend ("Nodes in this diagram:" + bullet links) is the
    // click-independent fallback; its links must resolve too.
    let dag = fixture_dag();
    let out = generate_docs(&dag, "p", "src");
    let generated: HashSet<&str> = out.iter().map(|(p, _)| p.as_str()).collect();
    for (page, contents) in &out {
        // A page with lineage carries a legend.
        if !contents.contains("```mermaid") {
            continue;
        }
        assert!(
            contents.contains("Nodes in this diagram:"),
            "{page}: a diagram is missing its legend"
        );
        let in_models = page.starts_with(&format!("{NODES_DIR}/"));
        // Legend links are Markdown `](href)`; resolve like click targets.
        for chunk in contents.split("](") {
            if let Some(end) = chunk.find(')') {
                let target = &chunk[..end];
                if !target.ends_with(".md") {
                    continue;
                }
                let resolved = if target.contains('/') {
                    target.to_string()
                } else if in_models {
                    format!("{NODES_DIR}/{target}")
                } else {
                    target.to_string()
                };
                assert!(
                    generated.contains(resolved.as_str()),
                    "{page}: legend/link target {target} missing (resolved {resolved})"
                );
            }
        }
    }
}

#[test]
fn readme_coverage_summary_matches_coverage_gap_predicate() {
    // The README's coverage numbers must be exactly the `coverage_gap` base
    // (the same predicate the TUI's `t` lens / `cov` segment use): testable
    // = model|snapshot|seed, tested = NOT coverage_gap.
    let dag = fixture_dag();
    let mut testable = 0usize;
    let mut tested = 0usize;
    for n in values(dag.nodes()) {
        if matches!(n.resource_type.as_str(), "model" | "snapshot" | "seed") {
            testable += 1;
            if !coverage_gap(n) {
                tested += 1;
            }
        }
    }
    let pct = tested * 100 / testable;
    let out = generate_docs(&dag, "p", "src");
    let readme = file(&out, "README.md");
    assert!(
        readme.contains(&format!(
            "- tested: {tested} / {testable} testable resources"
        )),
        "coverage tested/total line, expected {tested}/{testable}"
    );
    assert!(
        readme.contains(&format!("- coverage: {pct}%")),
        "coverage percent line, expected {pct}%"
    );
    assert!(
        readme.contains(&format!("- untested: {}", testable - tested)),
        "untested count line"
    );
}

#[test]
fn readme_orphan_list_matches_direct_down_zero_models() {
    // The orphan list is exactly the models with `direct_down == 0`, sorted.
    let dag = fixture_dag();
    let mut expected: Vec<&str> = values(dag.nodes())
        .into_iter()
        .filter(|n| n.resource_type == "model" && n.direct_down == 0)
        .map(|n| n.name.as_str())
        .collect();
    expected.sort_unstable();
    let out = generate_docs(&dag, "p", "src");
    let readme = file(&out, "README.md");
    assert!(readme.contains("## Orphan models"), "orphan section");
    // The section after "## Orphan models" lists every expected name; pull
    // the bullet names that appear under it.
    let section = readme
        .split("## Orphan models")
        .nth(1)
        .expect("orphan section present");
    for name in &expected {
        assert!(
            section.contains(&format!("[{name}](")) || section.contains(&format!("- {name}\n")),
            "orphan model {name} missing from the README list"
        );
    }
    assert!(!expected.is_empty(), "fixture has orphan models to assert");
}

#[test]
fn small_project_renders_one_whole_graph_diagram() {
    // Below the threshold (the 93-node fixture), the README lineage is a
    // SINGLE diagram (no per-layer `###` split headings).
    let dag = fixture_dag();
    assert!(dag.len() < FULL_GRAPH_NODE_LIMIT, "fixture is small");
    let out = generate_docs(&dag, "p", "src");
    let readme = file(&out, "README.md");
    let lineage = readme
        .split("## Lineage")
        .nth(1)
        .expect("README has a Lineage section");
    let fences = lineage.matches("```mermaid").count();
    assert_eq!(fences, 1, "small project = exactly one whole-graph diagram");
    assert!(
        !lineage.contains("split by layer"),
        "no split note below the threshold"
    );
}

/// A synthetic dag of `count` chained models spread across the four logical
/// layers, used to cross the [`FULL_GRAPH_NODE_LIMIT`] threshold in tests.
fn large_layered_dag(count: usize) -> Dag {
    let layers = ["staging", "intermediate", "marts", "utilities"];
    let mut nodes = StrMap::new();
    let mut parent_map: StrMap<Vec<String>> = StrMap::new();
    let mut child_map: StrMap<Vec<String>> = StrMap::new();
    for i in 0..count {
        let layer = layers[i % layers.len()];
        let uid = format!("model.big.m{i:04}");
        // Chain each node to the previous one in the SAME layer so every
        // group carries some intra-group edges.
        let depends: Vec<String> = if i >= layers.len() {
            vec![format!("model.big.m{:04}", i - layers.len())]
        } else {
            Vec::new()
        };
        link(&mut parent_map, &mut child_map, &uid, &depends);
        nodes.insert(
            uid.clone(),
            RawNode {
                name: format!("m{i:04}"),
                resource_type: "model".into(),
                path: Some(format!("{layer}/m{i:04}.sql")),
                depends_on: RawDependsOn { nodes: depends },
                ..Default::default()
            },
        );
    }
    Dag::build(&RawManifest {
        nodes,
        parent_map,
        child_map,
        ..Default::default()
    })
}

#[test]
fn large_project_splits_full_diagram_by_layer() {
    // At/above the threshold the README lineage splits into one diagram per
    // layer group, with an explanatory note — the single hairball is avoided.
    let dag = large_layered_dag(FULL_GRAPH_NODE_LIMIT + 8);
    assert!(dag.len() >= FULL_GRAPH_NODE_LIMIT);
    let out = generate_docs(&dag, "big", "src");
    let readme = file(&out, "README.md");
    let lineage = readme
        .split("## Lineage")
        .nth(1)
        .expect("README has a Lineage section");
    assert!(
        lineage.contains("split by layer"),
        "large project carries the split note"
    );
    // One diagram per layer group (staging/intermediate/marts/utilities).
    let fences = lineage.matches("```mermaid").count();
    assert_eq!(fences, 4, "one diagram per layer group");
    for layer in LAYER_ORDER {
        assert!(
            lineage.contains(&format!("### {layer} (")),
            "layer heading for {layer}"
        );
    }
    // Still deterministic for the large/split case.
    let again = generate_docs(&dag, "big", "src");
    assert_eq!(out, again, "split lineage is deterministic");
}

#[test]
fn split_diagrams_cover_every_node_exactly_once() {
    // Every node lands in exactly one layer group — no node dropped, none
    // duplicated across groups.
    let dag = large_layered_dag(FULL_GRAPH_NODE_LIMIT + 8);
    let groups = layer_groups(&dag);
    let mut all: Vec<String> = groups.iter().flat_map(|g| g.uids.clone()).collect();
    let total = all.len();
    all.sort();
    all.dedup();
    assert_eq!(all.len(), total, "no node appears in two groups");
    assert_eq!(total, dag.len(), "every node lands in exactly one group");
}

#[test]
fn full_doc_set_is_byte_identical_with_all_sprint2_additions() {
    // The end-to-end determinism guarantee covering the new surface: click
    // links, legends, the stats summary, and (via the large dag) the split.
    let small = fixture_dag();
    let a = generate_docs(&small, "jaffle_finance", &json("manifest"));
    let b = generate_docs(&small, "jaffle_finance", &json("manifest"));
    assert_eq!(a, b, "small project: byte-identical across runs");
    let big = large_layered_dag(FULL_GRAPH_NODE_LIMIT + 8);
    let c = generate_docs(&big, "big", "src");
    let d = generate_docs(&big, "big", "src");
    assert_eq!(c, d, "large project: byte-identical across runs");
}

#[test]
fn project_name_comes_from_unique_id_segment() {
    // The Dag-derived project name (the `unique_id` project segment) is what
    // the docs index should title with — robust to weird source labels.
    let dag = fixture_dag();
    assert_eq!(
        dag.project_name(),
        Some("jaffle_finance".to_string()),
        "project name read from unique_id"
    );
}

/// The fenced Mermaid block of a page, with both fences and the line break
/// behind it.
fn fenced_mermaid_block(page: &str) -> String {
    let open = "```mermaid\n";
    let start = page.find(open).expect("page has a mermaid fence");
    let after = start + open.len();
    let rel_end = page[after..].find("\n```\n").expect("closing fence");
    let end = after + rel_end + "\n```\n".len();
    page[start..end].to_string()
}

/// Drop the docs-only `click <id> "<href>"` navigation lines from a fenced
/// Mermaid block, leaving the bare diagram body (what the `m` yank emits).
fn strip_click_lines(block: &str) -> String {
    block
        .lines()
        .filter(|l| !l.trim_start().starts_with("click "))
        .map(|l| format!("{l}\n"))
        .collect()
}

#[test]
fn per_node_lineage_figure_equals_the_m_key_yank() {
    // The per-node docs Lineage figure must render the SAME diagram the
    // interactive `m` yank produces for that node at the default view
    // (upstream + downstream, unbounded depth) — both go through the one
    // shared `subgraph_mermaid_linked` core over the SAME full-closure
    // subgraph. The docs variant only adds `click` navigation lines inside
    // the fence; stripping those must leave a body byte-identical to the
    // yank. This locks the two surfaces together so they can never drift.

    let dag = fixture_dag();
    let files = node_files(&dag);
    let out = generate_docs(&dag, "p", "src");

    // A spread of shapes: a deep mart, a table model, and a leaf source.
    for name in ["fct_subscription_process", "pos_txn"] {
        let uid = values(dag.nodes())
        .into_iter()
            .find(|n| n.name == name)
            .map(|n| n.unique_id.clone())
            .unwrap_or_else(|| panic!("fixture has {name}"));

        let mut app = App::new(fixture_dag(), json(FIXTURE));
        assert!(app.select_by_name(name), "select {name}");
        let yank = app.lineage_mermaid().expect("m yank for a selected node");

        let page = file(&out, at(&files, &uid).as_str());
        let body = strip_click_lines(&fenced_mermaid_block(page));
        assert_eq!(
            body, yank,
            "docs Lineage figure for {name} must equal the `m` yank (minus click lines)"
        );
    }
}