//! Comparisons of two graphs.

use dbtl::manifest::{RawColumn, RawConfig, RawManifest, RawNode, RawTestMetadata};
use dbtl::sorted::StrMap;
use dbtl::{compute_diff, Dag, DiffStatus};

fn map_of<V>(pairs: Vec<(String, V)>) -> StrMap<V> {
    let mut m = StrMap::new();
    for (k, v) in pairs {
        m.insert(k, v);
    }
    m
}

/// A column of which only the name is known.
fn column(name: &str) -> RawColumn {
    RawColumn { key: name.to_string(), name: Some(name.to_string()), data_type: None, description: None }
}

fn model(name: &str, materialized: Option<&str>, sql: &str) -> RawNode {
    RawNode {
        name: name.into(),
        resource_type: "model".into(),
        path: Some(format!("marts/{name}.sql")),
        raw_code: Some(sql.to_string()),
        config: RawConfig {
            materialized: materialized.map(String::from),
        },
        ..Default::default()
    }
}

/// A tiny manifest: a -> b, with `b`'s shape parameterized so each test can
/// perturb exactly one compared surface.
fn manifest(b: RawNode, extra: Option<(&str, RawNode)>) -> RawManifest {
    let mut nodes = map_of(vec![
        (
            "model.p.a".to_string(),
            model("a", Some("view"), "select 1"),
        ),
        ("model.p.b".to_string(), b),
    ]);
    let mut child_map =
        map_of(vec![("model.p.a".to_string(), vec!["model.p.b".to_string()])]);
    let mut parent_map =
        map_of(vec![("model.p.b".to_string(), vec!["model.p.a".to_string()])]);
    if let Some((uid, node)) = extra {
        nodes.insert(uid.to_string(), node);
        parent_map.insert(uid.to_string(), vec!["model.p.b".to_string()]);
        child_map.insert("model.p.b".to_string(), vec![uid.to_string()]);
    }
    RawManifest {
        nodes,
        parent_map,
        child_map,
        ..Default::default()
    }
}

fn base_dag() -> Dag {
    Dag::build(&manifest(model("b", Some("table"), "select 2"), None))
}

#[test]
fn identical_dags_diff_empty() {
    let diff = compute_diff(&base_dag(), &base_dag());
    assert!(diff.is_empty(), "{diff:?}");
    assert_eq!(diff.status("model.p.a"), DiffStatus::Unchanged);
    assert_eq!(diff.counts(), (0, 0, 0));
}

#[test]
fn added_and_removed_nodes_and_edges_are_classified() {
    let base = base_dag();
    let current = Dag::build(&manifest(
        model("b", Some("table"), "select 2"),
        Some(("model.p.c", model("c", Some("view"), "select 3"))),
    ));
    let diff = compute_diff(&base, &current);
    assert_eq!(diff.status("model.p.c"), DiffStatus::Added);
    assert_eq!(diff.status("model.p.a"), DiffStatus::Unchanged);
    assert_eq!(diff.counts(), (1, 0, 0));
    assert_eq!(diff.edges_added, vec![("b".to_string(), "c".to_string())]);
    assert!(diff.edges_removed.is_empty());

    // The reverse direction reads as removed (node AND edge).
    let diff = compute_diff(&current, &base);
    assert_eq!(diff.counts(), (0, 0, 1));
    assert_eq!(diff.removed, vec![("c".to_string(), "model".to_string())]);
    assert_eq!(diff.edges_removed, vec![("b".to_string(), "c".to_string())]);
}

#[test]
fn modified_reasons_fire_per_surface_in_fixed_order() {
    let base = base_dag();
    // Change materialization AND SQL on b — two reasons, fixed order.
    let current = Dag::build(&manifest(
        model("b", Some("incremental"), "select 22"),
        None,
    ));
    let diff = compute_diff(&base, &current);
    assert_eq!(diff.status("model.p.b"), DiffStatus::Modified);
    assert_eq!(
        diff.modified.get("model.p.b"),
        Some(&vec![
            "materialized: table -> incremental".to_string(),
            "SQL changed".to_string(),
        ])
    );
    assert_eq!(diff.counts(), (0, 1, 0));
}

#[test]
fn upstream_dep_change_is_a_reason() {
    let base = base_dag();
    // Drop the a -> b edge: b keeps its shape but loses its parent.
    let mut m = manifest(model("b", Some("table"), "select 2"), None);
    m.parent_map = StrMap::new();
    m.child_map = StrMap::new();
    let current = Dag::build(&m);
    let diff = compute_diff(&base, &current);
    assert_eq!(
        diff.modified.get("model.p.b"),
        Some(&vec!["upstream deps changed".to_string()])
    );
    assert_eq!(diff.edges_removed, vec![("a".to_string(), "b".to_string())]);
}

#[test]
fn test_count_change_is_a_reason() {
    let base = base_dag();
    let mut m = manifest(model("b", Some("table"), "select 2"), None);
    m.nodes.insert(
        "test.p.t".to_string(),
        RawNode {
            name: "not_null_b_id".into(),
            resource_type: "test".into(),
            attached_node: Some("model.p.b".into()),
            column_name: Some("id".into()),
            test_metadata: Some(RawTestMetadata {
                name: Some("not_null".into()),
            }),
            ..Default::default()
        },
    );
    let current = Dag::build(&m);
    let diff = compute_diff(&base, &current);
    assert_eq!(
        diff.modified.get("model.p.b"),
        Some(&vec!["tests: 0 -> 1".to_string()])
    );
}

#[test]
fn one_sided_raw_code_is_not_a_change() {
    // A manifest that omits raw_code (vs a baseline that has it) is a loader
    // artifact: it must NOT read as "SQL changed".
    let base = base_dag();
    let mut b = model("b", Some("table"), "");
    b.raw_code = None;
    let current = Dag::build(&manifest(b, None));
    let diff = compute_diff(&base, &current);
    assert_eq!(diff.status("model.p.b"), DiffStatus::Unchanged, "{diff:?}");
    // And trailing whitespace never reads as an edit.
    let current = Dag::build(&manifest(model("b", Some("table"), "select 2\n"), None));
    assert!(compute_diff(&base, &current).is_empty());
}

#[test]
fn cross_mode_surfaces_are_excluded_per_node_kind() {
    // Seed columns and snapshot raw_code are the two surfaces the
    // manifest<->source consistency gate excludes; the diff must not read
    // them as changes either (a --diff pair routinely spans load modes).
    let seed = |cols: &[&str]| {
        let mut n = RawNode {
            name: "fiscal".into(),
            resource_type: "seed".into(),
            ..Default::default()
        };
        for c in cols {
            n.columns.push(column(c));
        }
        n
    };
    let snap = |sql: &str| RawNode {
        name: "snap".into(),
        resource_type: "snapshot".into(),
        raw_code: Some(sql.to_string()),
        ..Default::default()
    };
    let dag_with = |seed_node: RawNode, snap_node: RawNode| {
        Dag::build(&RawManifest {
            nodes: map_of(vec![
                ("seed.p.fiscal".to_string(), seed_node),
                ("snapshot.p.snap".to_string(), snap_node),
            ]),
            ..Default::default()
        })
    };
    // Base: documented seed columns only + the dbt-style snapshot body.
    let base = dag_with(seed(&["id"]), snap("select 1"));
    // Current: CSV-header superset + the whole-file snapshot wrapper.
    let current = dag_with(
        seed(&["id", "year", "label"]),
        snap("{% snapshot snap %}\nselect 1\n{% endsnapshot %}"),
    );
    let diff = compute_diff(&base, &current);
    assert!(
        diff.is_empty(),
        "seed columns / snapshot SQL are loader artifacts, not changes: {diff:?}"
    );
}

#[test]
fn column_reorder_is_not_a_change_and_equal_count_test_change_is_named() {
    // Reordering schema.yml column docs is a tidy, not a model change.
    let with_cols = |cols: &[&str]| {
        let mut b = model("b", Some("table"), "select 2");
        for c in cols {
            b.columns.push(column(c));
        }
        Dag::build(&manifest(b, None))
    };
    let diff = compute_diff(&with_cols(&["id", "amount"]), &with_cols(&["amount", "id"]));
    assert!(diff.is_empty(), "column order is ignored: {diff:?}");

    // A test that moved column (same count) reads as "tests changed",
    // never a no-op-looking "1 -> 1".
    let with_test = |col: &str| {
        let mut m = manifest(model("b", Some("table"), "select 2"), None);
        m.nodes.insert(
            "test.p.t".to_string(),
            RawNode {
                name: format!("not_null_b_{col}"),
                resource_type: "test".into(),
                attached_node: Some("model.p.b".into()),
                column_name: Some(col.into()),
                test_metadata: Some(RawTestMetadata {
                    name: Some("not_null".into()),
                }),
                ..Default::default()
            },
        );
        Dag::build(&m)
    };
    let diff = compute_diff(&with_test("id"), &with_test("amount"));
    assert_eq!(
        diff.modified.get("model.p.b"),
        Some(&vec!["tests changed".to_string()])
    );
}

#[test]
fn diff_is_deterministic() {
    let base = base_dag();
    let current = Dag::build(&manifest(
        model("b", Some("incremental"), "select 9"),
        Some(("model.p.c", model("c", None, "select 3"))),
    ));
    assert_eq!(compute_diff(&base, &current), compute_diff(&base, &current));
}