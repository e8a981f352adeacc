//! The graph that is built from a manifest: what it holds, its closures and its
//! subgraphs.

use std::collections::HashSet;

use dbtl::manifest::{
    RawConfig, RawDependsOn, RawExposure, RawExposureOwner, RawManifest, RawNode, RawSource, RawTestMetadata,
};
use dbtl::sorted::{StrMap, StrSet};
use dbtl::Dag;

fn map_of<V>(pairs: Vec<(String, V)>) -> StrMap<V> {
    let mut m = StrMap::new();
    for (k, v) in pairs {
        m.insert(k, v);
    }
    m
}

fn set_of(items: Vec<String>) -> StrSet {
    let mut s = StrSet::new();
    for item in items {
        s.insert(item);
    }
    s
}

fn sample_manifest() -> RawManifest {
    // a -> b -> c, plus a test node hanging off b (must not bridge). The test
    // carries metadata so the pre-prune tests-capture is exercised too.
    let nodes = map_of(vec![
        (
            "model.p.a".to_string(),
            RawNode {
                name: "a".into(),
                resource_type: "model".into(),
                path: Some("staging/a.sql".into()),
                ..Default::default()
            },
        ),
        (
            "model.p.b".to_string(),
            RawNode {
                name: "b".into(),
                resource_type: "model".into(),
                path: Some("marts/b.sql".into()),
                config: RawConfig {
                    materialized: Some("view".into()),
                },
                ..Default::default()
            },
        ),
        (
            "test.p.t".to_string(),
            RawNode {
                name: "t".into(),
                resource_type: "test".into(),
                attached_node: Some("model.p.b".into()),
                column_name: Some("id".into()),
                test_metadata: Some(RawTestMetadata {
                    name: Some("not_null".into()),
                }),
                ..Default::default()
            },
        ),
    ]);
    let sources = map_of(vec![(
        "source.p.s.c".to_string(),
        RawSource {
            name: "c".into(),
            resource_type: "source".into(),
            path: None,
            ..Default::default()
        },
    )]);
    // child_map: a -> b -> t (test). If we traversed raw + filtered after,
    // a -> b -> t would still stop at t; but the prune-first guarantee is
    // that t is never a transit point. Add c as an upstream of a.
    let parent_map = map_of(vec![
        ("model.p.a".to_string(), vec!["source.p.s.c".to_string()]),
        ("model.p.b".to_string(), vec!["model.p.a".to_string()]),
        ("test.p.t".to_string(), vec!["model.p.b".to_string()]),
    ]);
    let child_map = map_of(vec![
        ("source.p.s.c".to_string(), vec!["model.p.a".to_string()]),
        ("model.p.a".to_string(), vec!["model.p.b".to_string()]),
        ("model.p.b".to_string(), vec!["test.p.t".to_string()]),
    ]);
    RawManifest {
        nodes,
        sources,
        exposures: StrMap::new(),
        parent_map,
        child_map,
    }
}

#[test]
fn merge_excludes_test_and_operation() {
    let dag = Dag::build(&sample_manifest());
    // model a, model b, source c == 3 kept; test t excluded.
    assert_eq!(dag.len(), 3);
    assert!(dag.contains("model.p.a"));
    assert!(dag.contains("source.p.s.c"));
    assert!(!dag.contains("test.p.t"));
    assert_eq!(dag.count_by_resource_type("test"), 0);
}

#[test]
fn closure_is_multihop_and_excludes_self() {
    let dag = Dag::build(&sample_manifest());
    // c -> a -> b downstream.
    let down = dag.downstream("source.p.s.c");
    assert_eq!(
        down,
        set_of(vec!["model.p.a".to_string(), "model.p.b".to_string()])
    );
    assert!(!down.contains("source.p.s.c"));
    // b upstream is a and c.
    let up = dag.upstream("model.p.b");
    assert_eq!(
        up,
        set_of(vec!["model.p.a".to_string(), "source.p.s.c".to_string()])
    );
}

#[test]
fn excluded_node_is_not_a_transit_hop() {
    let dag = Dag::build(&sample_manifest());
    // b's downstream child in raw child_map is the test node only, so after
    // exclusion downstream(b) is empty (the test is dropped, not bridged).
    assert!(dag.downstream("model.p.b").is_empty());
}

#[test]
fn tests_are_captured_pre_prune_without_bridging_topology() {
    // The test node `t` is attached to model b. It must be recorded in the
    // tests side map for b, yet must NOT appear as a node nor bridge lineage:
    // downstream(b) stays empty.
    let dag = Dag::build(&sample_manifest());
    let b_tests = dag.tests("model.p.b");
    assert_eq!(b_tests.len(), 1, "b has one captured test");
    assert_eq!(b_tests[0].kind, "not_null");
    assert_eq!(b_tests[0].column_name.as_deref(), Some("id"));
    assert!(!dag.contains("test.p.t"), "test node is not a DAG node");
    assert!(
        dag.downstream("model.p.b").is_empty(),
        "test never bridges lineage"
    );
    assert!(dag.tests("model.p.a").is_empty(), "no tests on a");
}

#[test]
fn detail_surfaces_materialized_from_config() {
    let dag = Dag::build(&sample_manifest());
    let b = dag.detail("model.p.b").expect("b has detail");
    assert_eq!(b.materialized.as_deref(), Some("view"));
    // A source has no materialization.
    assert_eq!(dag.detail("source.p.s.c").unwrap().materialized, None);
    // Unknown node has no detail.
    assert!(dag.detail("model.p.nope").is_none());
}

#[test]
fn closure_is_cycle_safe() {
    // a <-> b cycle.
    let nodes = map_of(vec![
        (
            "model.p.a".to_string(),
            RawNode {
                name: "a".into(),
                resource_type: "model".into(),
                ..Default::default()
            },
        ),
        (
            "model.p.b".to_string(),
            RawNode {
                name: "b".into(),
                resource_type: "model".into(),
                ..Default::default()
            },
        ),
    ]);
    let child_map = map_of(vec![
        ("model.p.a".to_string(), vec!["model.p.b".to_string()]),
        ("model.p.b".to_string(), vec!["model.p.a".to_string()]),
    ]);
    let manifest = RawManifest {
        nodes,
        child_map,
        ..Default::default()
    };
    let dag = Dag::build(&manifest);
    let down = dag.downstream("model.p.a");
    // Must terminate; self excluded, b included.
    assert_eq!(down, set_of(vec!["model.p.b".to_string()]));
}

#[test]
fn unknown_start_returns_empty() {
    let dag = Dag::build(&sample_manifest());
    assert!(dag.upstream("model.p.nonexistent").is_empty());
    assert!(dag.downstream("model.p.nonexistent").is_empty());
}

#[test]
fn subgraph_collects_nodes_and_edges() {
    // c -> a -> b (source c, models a/b). Subgraph of `a` is {c, a, b} with
    // edges c->a and a->b.
    let dag = Dag::build(&sample_manifest());
    let sg = dag.subgraph("model.p.a");
    let ids: HashSet<&str> = sg.nodes.iter().map(|n| n.unique_id.as_str()).collect();
    assert_eq!(
        ids,
        HashSet::from(["source.p.s.c", "model.p.a", "model.p.b"]),
        "subgraph of a is its full lineage"
    );
    assert_eq!(sg.selected, "model.p.a");
    // Both dependency edges present, endpoints in the set.
    let edge_pairs: HashSet<(&str, &str)> = sg
        .edges
        .iter()
        .map(|e| (e.parent.as_str(), e.child.as_str()))
        .collect();
    assert_eq!(
        edge_pairs,
        HashSet::from([("source.p.s.c", "model.p.a"), ("model.p.a", "model.p.b")]),
        "edges are the two parent->child dependencies"
    );
}

#[test]
fn subgraph_is_deterministic_and_sorted() {
    let dag = Dag::build(&sample_manifest());
    let a = dag.subgraph("model.p.b");
    let b = dag.subgraph("model.p.b");
    assert_eq!(a, b, "subgraph must be deterministic across calls");
    // nodes sorted by unique_id; edges sorted by (parent, child).
    let node_ids: Vec<&str> = a.nodes.iter().map(|n| n.unique_id.as_str()).collect();
    let mut sorted = node_ids.clone();
    sorted.sort_unstable();
    assert_eq!(node_ids, sorted, "nodes sorted by unique_id");
}

#[test]
fn exposures_join_as_terminator_leaves_with_side_map_payload() {
    // An exposure declared via depends_on ONLY (the source-mode shape: no
    // parent_map/child_map entries) still joins the kept set as a leaf:
    // parents from depends_on, downstream closure reaches it, and it never
    // gains children. The kind/owner/url land in the side map; a dangling
    // dep is dropped like an unresolved ref.
    let mut manifest = sample_manifest();
    manifest.exposures.insert(
        "exposure.p.dash".to_string(),
        RawExposure {
            name: "dash".into(),
            exposure_type: Some("dashboard".into()),
            owner: RawExposureOwner {
                name: Some("Finance".into()),
                email: Some("fin@example.com".into()),
            },
            url: Some("https://bi.example.com/1".into()),
            description: Some("Weekly overview.\n".into()),
            depends_on: RawDependsOn {
                nodes: vec![
                    "model.p.b".to_string(),
                    "model.p.missing".to_string(), // dangling: dropped
                ],
            },
            ..Default::default()
        },
    );
    let dag = Dag::build(&manifest);
    let exp = "exposure.p.dash";
    assert_eq!(dag.count_by_resource_type("exposure"), 1);
    let info = dag.get(exp).expect("exposure is a kept node");
    assert_eq!(info.resource_type, "exposure");
    assert_eq!(
        (info.direct_up, info.direct_down),
        (1, 0),
        "leaf with 1 parent"
    );
    assert_eq!(
        dag.upstream(exp),
        set_of(vec![
            "model.p.b".to_string(),
            "model.p.a".to_string(),
            "source.p.s.c".to_string(),
        ]),
        "the dangling dep never became an edge"
    );
    assert!(dag.downstream(exp).is_empty(), "exposures have no children");
    assert!(
        dag.downstream("model.p.a").contains(exp),
        "the exposure is reachable downstream of its ancestors"
    );
    let payload = dag.exposure(exp).expect("side-map payload");
    assert_eq!(payload.exposure_type.as_deref(), Some("dashboard"));
    assert_eq!(payload.owner_name.as_deref(), Some("Finance"));
    assert_eq!(payload.owner_email.as_deref(), Some("fin@example.com"));
    assert_eq!(payload.url.as_deref(), Some("https://bi.example.com/1"));
    assert!(
        dag.exposure("model.p.b").is_none(),
        "models have no payload"
    );
    let detail = dag.detail(exp).expect("exposure detail");
    assert_eq!(detail.description.as_deref(), Some("Weekly overview."));
    assert_eq!(detail.materialized, None);
}

#[test]
fn exposure_edges_from_parent_map_and_depends_on_are_deduplicated() {
    // A real manifest records exposure edges in parent_map/child_map AND in
    // depends_on; the merge must not double-count them (direct_up == 1).
    let mut manifest = sample_manifest();
    manifest.exposures.insert(
        "exposure.p.dash".to_string(),
        RawExposure {
            name: "dash".into(),
            depends_on: RawDependsOn {
                nodes: vec!["model.p.b".to_string()],
            },
            ..Default::default()
        },
    );
    manifest
        .parent_map
        .insert("exposure.p.dash".to_string(), vec!["model.p.b".to_string()]);
    let mut children = manifest.child_map.get("model.p.b").cloned().unwrap_or_default();
    children.push("exposure.p.dash".to_string());
    manifest.child_map.insert("model.p.b".to_string(), children);
    let dag = Dag::build(&manifest);
    let info = dag.get("exposure.p.dash").unwrap();
    assert_eq!(
        info.direct_up, 1,
        "parent_map + depends_on dedup to one edge"
    );
    let b = dag.get("model.p.b").unwrap();
    assert_eq!(b.direct_down, 1, "child side deduplicated too");
}

#[test]
fn subgraph_unknown_node_is_empty() {
    let dag = Dag::build(&sample_manifest());
    let sg = dag.subgraph("model.p.nope");
    assert!(sg.nodes.is_empty());
    assert!(sg.edges.is_empty());
    assert_eq!(sg.selected, "model.p.nope");
}