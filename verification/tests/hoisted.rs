use aube::fs_path::FsPath;
use aube::graph::{DepType, DependencyEdge, DirectDep, Importer, LocalSource, LockedPackage, LockfileGraph};
use aube::hoisted::placements::HoistedPlacements;
use aube::hoisted::plan::{HoistingLimits, PlacementPlan, PlanError};
use aube::hoisted::planner::{complete_plan, plan_importer, seed_importer, HoistedWorkspaceImporter};
use aube::hoisted::preferences::build_workspace_preferences;
use aube::hoisted::workspace::plan_workspace;
use aube::str_map::{StrMap, StrSet};
use std::collections::VecDeque;

fn path(text: &str) -> FsPath {
    FsPath::parse(text)
}

fn dep(name: &str, dep_path: &str) -> DirectDep {
    DirectDep {
        name: name.to_string(),
        dep_path: dep_path.to_string(),
        dep_type: DepType::Production,
        specifier: None,
    }
}

fn pkg(name: &str, version: &str, deps: &[(&str, &str)]) -> LockedPackage {
    let mut dependencies = StrMap::new();
    for (dep_name, tail) in deps {
        dependencies.insert(
            dep_name.to_string(),
            DependencyEdge { tail: tail.to_string(), shared_dep_path: None },
        );
    }
    LockedPackage {
        name: name.to_string(),
        version: version.to_string(),
        dep_path: format!("{name}@{version}"),
        dependencies,
        ..Default::default()
    }
}

fn importer(modules_dir: &str, dependencies: Vec<DirectDep>) -> HoistedWorkspaceImporter {
    HoistedWorkspaceImporter { modules_dir: path(modules_dir), dependencies }
}

fn package_dirs(plan: &PlacementPlan, dep_path: &str) -> Vec<String> {
    plan.nodes
        .iter()
        .filter(|node| node.dep_path.as_deref() == Some(dep_path))
        .filter_map(|node| node.pkg_dir.as_ref().map(|p| p.to_text()))
        .collect()
}

fn package_dir(plan: &PlacementPlan, dep_path: &str) -> String {
    package_dirs(plan, dep_path)
        .into_iter()
        .next()
        .unwrap_or_else(|| panic!("{dep_path} was not placed"))
}

fn workspace(
    root_nm: &FsPath,
    importers: &Vec<HoistedWorkspaceImporter>,
    graph: &LockfileGraph,
    limits: HoistingLimits,
) -> PlacementPlan {
    plan_workspace(root_nm, importers, graph, limits, &StrSet::new()).unwrap()
}

fn single(nm: &FsPath, deps: &Vec<DirectDep>, graph: &LockfileGraph, limits: HoistingLimits) -> PlacementPlan {
    plan_importer(nm, deps, graph, limits, &StrSet::new()).unwrap()
}

#[test]
fn workspace_limit_controls_cross_importer_hoisting() {
    let root_nm = path("/project/node_modules");
    let mut graph = LockfileGraph::default();
    graph.packages.insert("shared@1.0.0".into(), pkg("shared", "1.0.0", &[]));
    let importers = vec![
        importer("/project/packages/app/node_modules", vec![dep("shared", "shared@1.0.0")]),
        importer("/project/packages/lib/node_modules", vec![dep("shared", "shared@1.0.0")]),
    ];

    let unlimited = workspace(&root_nm, &importers, &graph, HoistingLimits::Unlimited);
    assert_eq!(package_dirs(&unlimited, "shared@1.0.0"), vec![root_nm.join("shared").to_text()]);

    let workspace_limited = workspace(&root_nm, &importers, &graph, HoistingLimits::Workspaces);
    assert_eq!(
        package_dirs(&workspace_limited, "shared@1.0.0"),
        vec![
            "/project/packages/app/node_modules/shared".to_string(),
            "/project/packages/lib/node_modules/shared".to_string(),
        ]
    );
}

#[test]
fn workspace_prefers_version_used_by_more_dependents_and_peers() {
    let root_nm = path("/project/node_modules");
    let mut graph = LockfileGraph::default();
    graph.packages.insert("react@19.2.3".into(), pkg("react", "19.2.3", &[]));
    graph.packages.insert("react@19.2.6".into(), pkg("react", "19.2.6", &[]));
    let zustand_dep_path = "zustand@5.0.11(react@19.2.6)";
    let mut zustand = pkg("zustand", "5.0.11", &[("react", "19.2.6")]);
    zustand.dep_path = zustand_dep_path.to_string();
    zustand.peer_dependencies.insert("react".to_string(), ">=18.0.0".to_string());
    graph.packages.insert(zustand_dep_path.into(), zustand);
    let importers = vec![
        importer("/project/packages/mobile/node_modules", vec![dep("react", "react@19.2.3")]),
        importer(
            "/project/packages/web/node_modules",
            vec![dep("react", "react@19.2.6"), dep("zustand", zustand_dep_path)],
        ),
    ];

    let plan = workspace(&root_nm, &importers, &graph, HoistingLimits::Unlimited);

    assert_eq!(package_dirs(&plan, "react@19.2.6"), vec![root_nm.join("react").to_text()]);
    assert_eq!(
        package_dirs(&plan, "react@19.2.3"),
        vec!["/project/packages/mobile/node_modules/react".to_string()]
    );
    assert_eq!(package_dir(&plan, zustand_dep_path), root_nm.join("zustand").to_text());
}

#[test]
fn workspace_root_direct_dependency_overrides_usage_preference() {
    let root_nm = path("/project/node_modules");
    let mut graph = LockfileGraph::default();
    graph.packages.insert("react@19.2.3".into(), pkg("react", "19.2.3", &[]));
    graph.packages.insert("react@19.2.6".into(), pkg("react", "19.2.6", &[]));
    graph.packages.insert("consumer@1.0.0".into(), pkg("consumer", "1.0.0", &[("react", "19.2.6")]));
    let importers = vec![
        importer("/project/node_modules", vec![dep("react", "react@19.2.3")]),
        importer(
            "/project/packages/web/node_modules",
            vec![dep("react", "react@19.2.6"), dep("consumer", "consumer@1.0.0")],
        ),
    ];

    let plan = workspace(&root_nm, &importers, &graph, HoistingLimits::Unlimited);

    assert_eq!(package_dirs(&plan, "react@19.2.3"), vec![root_nm.join("react").to_text()]);
    assert_eq!(package_dirs(&plan, "react@19.2.6").len(), 2);
}

#[test]
fn workspace_defers_direct_conflict_until_preferred_transitive_is_discovered() {
    let root_nm = path("/project/node_modules");
    let mut graph = LockfileGraph::default();
    graph.packages.insert("shared@1.0.0".into(), pkg("shared", "1.0.0", &[]));
    graph.packages.insert("shared@2.0.0".into(), pkg("shared", "2.0.0", &[]));
    for consumer in ["consumer-a", "consumer-b"] {
        graph
            .packages
            .insert(format!("{consumer}@1.0.0"), pkg(consumer, "1.0.0", &[("shared", "2.0.0")]));
    }
    let importers = vec![
        importer("/project/packages/first/node_modules", vec![dep("shared", "shared@1.0.0")]),
        importer(
            "/project/packages/second/node_modules",
            vec![dep("consumer-a", "consumer-a@1.0.0"), dep("consumer-b", "consumer-b@1.0.0")],
        ),
    ];

    let plan = workspace(&root_nm, &importers, &graph, HoistingLimits::Unlimited);

    assert_eq!(package_dirs(&plan, "shared@2.0.0"), vec![root_nm.join("shared").to_text()]);
    assert_eq!(
        package_dirs(&plan, "shared@1.0.0"),
        vec!["/project/packages/first/node_modules/shared".to_string()]
    );
}

#[test]
fn workspace_preferences_exclude_root_ineligible_candidates() {
    let root_nm = path("/project/node_modules");
    let mut graph = LockfileGraph::default();
    graph.packages.insert("shared@2.0.0".into(), pkg("shared", "2.0.0", &[]));
    graph.packages.insert("shared@3.0.0".into(), pkg("shared", "3.0.0", &[]));
    let link_dep_path = "shared@link:../shared";
    let mut linked = pkg("shared", "0.0.0", &[]);
    linked.local_source = Some(LocalSource::Link("packages/shared".to_string()));
    graph.packages.insert(link_dep_path.into(), linked);

    let mut importers = vec![
        importer("/project/packages/web/node_modules", vec![dep("shared", "shared@3.0.0")]),
        importer("/project/packages/lib/node_modules", vec![dep("shared", "shared@3.0.0")]),
    ];
    for idx in 0..3 {
        importers.push(importer(
            &format!("/sibling-{idx}/node_modules"),
            vec![dep("shared", "shared@2.0.0")],
        ));
    }
    for idx in 0..4 {
        importers.push(importer(
            &format!("/project/packages/linked-{idx}/node_modules"),
            vec![dep("shared", link_dep_path)],
        ));
    }

    let preferred = build_workspace_preferences(&root_nm, &importers, &graph);

    assert_eq!(preferred.get("shared").map(String::as_str), Some("shared@3.0.0"));
}

#[test]
fn preference_fallback_places_first_candidate_when_preferred_is_unavailable() {
    let root_nm = path("/project/node_modules");
    let mut graph = LockfileGraph::default();
    graph.packages.insert("shared@1.0.0".into(), pkg("shared", "1.0.0", &[]));
    let root_deps = vec![dep("shared", "shared@1.0.0")];
    let mut plan = PlacementPlan::new(root_nm.copy());
    let mut queue = VecDeque::new();
    seed_importer(&mut queue, 0, 0, &root_deps, &graph);
    let mut preferred = StrMap::new();
    preferred.insert("shared".to_string(), "shared@2.0.0".to_string());

    complete_plan(&mut plan, queue, &graph, HoistingLimits::Unlimited, &preferred, &StrSet::new()).unwrap();

    assert_eq!(package_dirs(&plan, "shared@1.0.0"), vec![root_nm.join("shared").to_text()]);
}

#[test]
fn workspace_plan_keeps_direct_links_in_the_consuming_importer() {
    let root_nm = path("/project/node_modules");
    let importer_nm = path("/project/packages/app/node_modules");
    let mut linked = pkg("linked", "0.0.0", &[]);
    linked.local_source = Some(LocalSource::Link("packages/linked".to_string()));
    let mut graph = LockfileGraph::default();
    graph.packages.insert("linked@link:../linked".into(), linked);
    let importers = vec![importer(
        "/project/packages/app/node_modules",
        vec![dep("linked", "linked@link:../linked")],
    )];

    let plan = workspace(&root_nm, &importers, &graph, HoistingLimits::Unlimited);

    assert_eq!(package_dir(&plan, "linked@link:../linked"), importer_nm.join("linked").to_text());
}

#[test]
fn dependencies_limit_keeps_transitives_under_their_direct_dep() {
    let nm = path("/project/node_modules");
    let mut graph = LockfileGraph::default();
    graph.packages.insert("app@1.0.0".into(), pkg("app", "1.0.0", &[("left-pad", "1.0.0")]));
    graph.packages.insert("left-pad@1.0.0".into(), pkg("left-pad", "1.0.0", &[("repeat", "1.0.0")]));
    graph.packages.insert("repeat@1.0.0".into(), pkg("repeat", "1.0.0", &[]));
    let root_deps = vec![dep("app", "app@1.0.0")];

    let unlimited = single(&nm, &root_deps, &graph, HoistingLimits::Unlimited);
    assert_eq!(package_dir(&unlimited, "left-pad@1.0.0"), nm.join("left-pad").to_text());
    assert_eq!(package_dir(&unlimited, "repeat@1.0.0"), nm.join("repeat").to_text());

    let limited = single(&nm, &root_deps, &graph, HoistingLimits::Dependencies);
    assert_eq!(
        package_dir(&limited, "left-pad@1.0.0"),
        nm.join("app/node_modules/left-pad").to_text()
    );
    assert_eq!(
        package_dir(&limited, "repeat@1.0.0"),
        nm.join("app/node_modules/left-pad/node_modules/repeat").to_text()
    );
}

#[test]
fn dependencies_limit_reuses_matching_direct_dependency_above_floor() {
    let nm = path("/project/node_modules");
    let mut graph = LockfileGraph::default();
    graph.packages.insert("app@1.0.0".into(), pkg("app", "1.0.0", &[("shared", "1.0.0")]));
    graph.packages.insert("shared@1.0.0".into(), pkg("shared", "1.0.0", &[]));
    let root_deps = vec![dep("shared", "shared@1.0.0"), dep("app", "app@1.0.0")];

    let limited = single(&nm, &root_deps, &graph, HoistingLimits::Dependencies);

    assert_eq!(package_dir(&limited, "shared@1.0.0"), nm.join("shared").to_text());
    assert_eq!(
        limited
            .nodes
            .iter()
            .filter(|node| node.dep_path.as_deref() == Some("shared@1.0.0"))
            .count(),
        1
    );
}

#[test]
fn dependencies_limit_does_not_reuse_above_version_blocker() {
    let nm = path("/project/node_modules");
    let mut graph = LockfileGraph::default();
    graph
        .packages
        .insert("app@1.0.0".into(), pkg("app", "1.0.0", &[("shared", "2.0.0"), ("tool", "1.0.0")]));
    graph.packages.insert("tool@1.0.0".into(), pkg("tool", "1.0.0", &[("shared", "1.0.0")]));
    graph.packages.insert("shared@1.0.0".into(), pkg("shared", "1.0.0", &[]));
    graph.packages.insert("shared@2.0.0".into(), pkg("shared", "2.0.0", &[]));
    let root_deps = vec![dep("shared", "shared@1.0.0"), dep("app", "app@1.0.0")];

    let limited = single(&nm, &root_deps, &graph, HoistingLimits::Dependencies);

    let shared_v1_dirs = package_dirs(&limited, "shared@1.0.0");
    assert_eq!(shared_v1_dirs.len(), 2);
    assert!(shared_v1_dirs.contains(&nm.join("shared").to_text()));
    assert!(shared_v1_dirs.contains(&nm.join("app/node_modules/tool/node_modules/shared").to_text()));
}

#[test]
fn from_graph_respects_dependencies_limit() {
    let root = path("/tmp/project");
    let nm = root.join("node_modules");
    let app_dir = nm.join("app");
    let left_pad_dir = app_dir.join("node_modules/left-pad");

    let mut graph = LockfileGraph::default();
    graph
        .importers
        .insert(".".into(), Importer { physical: true, dependencies: vec![dep("app", "app@1.0.0")] });
    graph.packages.insert("app@1.0.0".into(), pkg("app", "1.0.0", &[("left-pad", "1.0.0")]));
    graph.packages.insert("left-pad@1.0.0".into(), pkg("left-pad", "1.0.0", &[]));

    let existing = vec![app_dir, left_pad_dir.copy()];
    let placements = HoistedPlacements::from_graph(
        &root,
        &graph,
        "node_modules",
        HoistingLimits::Dependencies,
        &StrSet::new(),
        &existing,
    )
    .unwrap();

    assert_eq!(placements.package_dir("left-pad@1.0.0"), Some(&left_pad_dir));
}

#[test]
fn from_graph_reconstructs_shared_workspace_root_placement() {
    let root = path("/tmp/project");
    let shared_dir = root.join("node_modules/shared");

    let mut graph = LockfileGraph::default();
    graph.importers.insert(
        "packages/app".into(),
        Importer { physical: true, dependencies: vec![dep("shared", "shared@1.0.0")] },
    );
    graph.importers.insert(
        "packages/lib".into(),
        Importer { physical: true, dependencies: vec![dep("shared", "shared@1.0.0")] },
    );
    graph.packages.insert("shared@1.0.0".into(), pkg("shared", "1.0.0", &[]));

    let placements = HoistedPlacements::from_graph(
        &root,
        &graph,
        "node_modules",
        HoistingLimits::Unlimited,
        &StrSet::new(),
        &vec![shared_dir.copy()],
    )
    .unwrap();

    assert_eq!(placements.package_dir("shared@1.0.0"), Some(&shared_dir));
    assert_eq!(placements.all_package_dirs("shared@1.0.0").len(), 1);
}

#[test]
fn parent_relative_importer_cannot_reuse_workspace_root_placement() {
    let root_nm = path("/workspace/node_modules");
    let mut graph = LockfileGraph::default();
    graph.packages.insert("shared@1.0.0".into(), pkg("shared", "1.0.0", &[]));
    let importers = vec![
        importer("/workspace/node_modules", vec![dep("shared", "shared@1.0.0")]),
        importer("/sibling/node_modules", vec![dep("shared", "shared@1.0.0")]),
    ];

    let plan = workspace(&root_nm, &importers, &graph, HoistingLimits::Unlimited);
    let dirs = package_dirs(&plan, "shared@1.0.0");

    assert_eq!(dirs.len(), 2);
    assert!(dirs.contains(&root_nm.join("shared").to_text()));
    assert!(dirs.contains(&"/sibling/node_modules/shared".to_string()));
}

#[test]
fn importer_outside_the_workspace_is_found_by_a_parent_path() {
    let root = path("/workspace/app");
    let mut graph = LockfileGraph::default();
    graph.importers.insert(
        "../sibling".into(),
        Importer { physical: true, dependencies: vec![dep("shared", "shared@1.0.0")] },
    );
    graph.importers.insert(
        "ghost".into(),
        Importer { physical: false, dependencies: vec![dep("shared", "shared@1.0.0")] },
    );
    graph.packages.insert("shared@1.0.0".into(), pkg("shared", "1.0.0", &[]));
    let dir = path("/workspace/sibling/node_modules/shared");
    let placements = HoistedPlacements::from_graph(
        &root,
        &graph,
        "node_modules",
        HoistingLimits::Unlimited,
        &StrSet::new(),
        &vec![dir.copy()],
    )
    .unwrap();
    assert_eq!(placements.package_dir("shared@1.0.0"), Some(&dir));
    assert_eq!(placements.package_dir("other@1.0.0"), None);
    assert!(placements.all_package_dirs("other@1.0.0").is_empty());
}

#[test]
fn a_refused_name_stops_the_plan() {
    let nm = path("/project/node_modules");
    let mut graph = LockfileGraph::default();
    graph.packages.insert("app@1.0.0".into(), pkg("app", "1.0.0", &[("../evil", "1.0.0")]));
    graph.packages.insert("../evil@1.0.0".into(), pkg("../evil", "1.0.0", &[]));
    let mut refused = StrSet::new();
    refused.insert("../evil".to_string());
    let r = plan_importer(&nm, &vec![dep("app", "app@1.0.0")], &graph, HoistingLimits::Unlimited, &refused);
    assert!(matches!(r, Err(PlanError::RefusedName(n)) if n == "../evil"));
}

#[test]
fn shared_local_packages_are_found_by_their_own_key() {
    let nm = path("/project/node_modules");
    let mut graph = LockfileGraph::default();
    let mut app = pkg("app", "1.0.0", &[]);
    app.dependencies.insert(
        "tool".to_string(),
        DependencyEdge {
            tail: "https://example.com/tool.tgz".to_string(),
            shared_dep_path: Some("tool@url+abc".to_string()),
        },
    );
    graph.packages.insert("app@1.0.0".into(), app);
    graph.packages.insert("tool@url+abc".into(), pkg("tool", "1.0.0", &[]));
    let plan = single(&nm, &vec![dep("app", "app@1.0.0")], &graph, HoistingLimits::Unlimited);
    assert_eq!(package_dir(&plan, "tool@url+abc"), nm.join("tool").to_text());
}

#[test]
fn placing_twice_reuses_and_conflicts_nest() {
    let none = StrSet::new();
    let mut plan = PlacementPlan::new(path("/p/node_modules"));
    let a = plan.place(0, 0, "a", "a@1", &none).unwrap();
    assert!(a.created);
    let again = plan.place(0, 0, "a", "a@1", &none).unwrap();
    assert!(!again.created);
    assert_eq!(again.node_idx, a.node_idx);
    // From inside `a`, another version of a name that the root holds nests.
    let b = plan.place(0, 0, "b", "b@1", &none).unwrap();
    let nested = plan.place(a.node_idx, 0, "b", "b@2", &none).unwrap();
    assert!(nested.created && nested.node_idx != b.node_idx);
    assert_eq!(package_dir(&plan, "b@2"), "/p/node_modules/a/node_modules/b");
    assert!(plan.is_ancestor_or_self(0, nested.node_idx));
    assert!(plan.is_ancestor_or_self(a.node_idx, nested.node_idx));
    assert!(!plan.is_ancestor_or_self(b.node_idx, nested.node_idx));
    assert_eq!(plan.resolve(nested.node_idx, "b"), Some(nested.node_idx));
    assert_eq!(plan.resolve(nested.node_idx, "a"), Some(a.node_idx));
    assert_eq!(plan.resolve(nested.node_idx, "zzz"), None);
}

#[test]
fn recorded_placements_are_listed_in_key_order() {
    let mut placements = HoistedPlacements::new();
    placements.record("b@1", path("/p/node_modules/b"));
    placements.record("a@1", path("/p/node_modules/a"));
    placements.record("b@1", path("/p/node_modules/a/node_modules/b"));
    let listed: Vec<(String, String)> =
        placements.iter().iter().map(|(k, p)| (k.to_string(), p.to_text())).collect();
    assert_eq!(
        listed,
        vec![
            ("a@1".to_string(), "/p/node_modules/a".to_string()),
            ("b@1".to_string(), "/p/node_modules/b".to_string()),
            ("b@1".to_string(), "/p/node_modules/a/node_modules/b".to_string()),
        ]
    );
    assert_eq!(placements.package_dir("b@1"), Some(&path("/p/node_modules/b")));

    let mut by_dep_path = StrMap::new();
    by_dep_path.insert("empty@1".to_string(), Vec::new());
    let restored = HoistedPlacements::from_package_dirs(by_dep_path);
    assert_eq!(restored.package_dir("empty@1"), None);
}

#[test]
fn equal_usage_is_decided_by_first_mention() {
    let root_nm = path("/project/node_modules");
    let mut graph = LockfileGraph::default();
    graph.packages.insert("s@1.0.0".into(), pkg("s", "1.0.0", &[]));
    graph.packages.insert("s@2.0.0".into(), pkg("s", "2.0.0", &[]));
    let importers = vec![
        importer("/project/b/node_modules", vec![dep("s", "s@2.0.0")]),
        importer("/project/a/node_modules", vec![dep("s", "s@1.0.0")]),
    ];
    let preferred = build_workspace_preferences(&root_nm, &importers, &graph);
    assert_eq!(preferred.get("s").map(String::as_str), Some("s@2.0.0"));
}

fn found(plan: &PlacementPlan, from: usize, name: &str) -> Option<String> {
    plan.resolve(from, name).and_then(|k| plan.nodes[k].dep_path.clone())
}

fn conflicting_graph() -> (LockfileGraph, Vec<DirectDep>) {
    let mut graph = LockfileGraph::default();
    for p in [
        pkg("a", "1.0.0", &[("b", "1.0.0"), ("d", "1.0.0")]),
        pkg("b", "1.0.0", &[("x", "1.0.0"), ("y", "1.0.0")]),
        pkg("b", "9.0.0", &[]),
        pkg("d", "1.0.0", &[("x", "2.0.0"), ("y", "1.0.0")]),
        pkg("d", "9.0.0", &[]),
        pkg("x", "1.0.0", &[]),
        pkg("x", "2.0.0", &[]),
        pkg("y", "1.0.0", &[]),
    ] {
        graph.packages.insert(p.dep_path.clone(), p);
    }
    let deps = vec![dep("a", "a@1.0.0"), dep("b", "b@9.0.0"), dep("d", "d@9.0.0"), dep("x", "x@1.0.0")];
    (graph, deps)
}

#[test]
fn packages_find_what_they_need_where_nothing_is_hoisted() {
    let (graph, deps) = conflicting_graph();
    let plan = single(&path("/project/node_modules"), &deps, &graph, HoistingLimits::Dependencies);
    for d in &deps {
        assert_eq!(found(&plan, 0, &d.name), Some(d.dep_path.clone()));
    }
    for (i, node) in plan.nodes.iter().enumerate().skip(1) {
        let needs = &graph.packages.get(node.dep_path.as_deref().unwrap()).unwrap().dependencies;
        for k in 0..needs.len() {
            let (name, edge) = (needs.key_at(k), needs.value_at(k));
            assert_eq!(found(&plan, i, name), Some(format!("{name}@{}", edge.tail)));
        }
    }
}

#[test]
fn a_name_of_one_package_is_found_wherever_it_is_needed() {
    let (graph, deps) = conflicting_graph();
    for limits in [HoistingLimits::Unlimited, HoistingLimits::Workspaces, HoistingLimits::Dependencies] {
        let plan = single(&path("/project/node_modules"), &deps, &graph, limits);
        for (i, node) in plan.nodes.iter().enumerate() {
            if node.dep_path.as_deref() == Some("b@1.0.0") || node.dep_path.as_deref() == Some("d@1.0.0") {
                assert_eq!(found(&plan, i, "y"), Some("y@1.0.0".to_string()));
            }
        }
    }
}

#[test]
fn the_shallowest_directory_stands_for_a_package() {
    let placed = |dirs: &[&str]| {
        let mut recorded = StrMap::new();
        recorded.insert("foo@1.0.0".to_string(), dirs.iter().map(|d| path(d)).collect::<Vec<_>>());
        HoistedPlacements::from_package_dirs(recorded)
    };
    let nested = placed(&["/p/node_modules/bar/node_modules/foo", "/p/node_modules/foo"]);
    assert_eq!(nested.package_dir("foo@1.0.0"), Some(&path("/p/node_modules/foo")));
    let equal = placed(&["/p/a/node_modules/foo", "/p/b/node_modules/foo"]);
    assert_eq!(equal.package_dir("foo@1.0.0"), Some(&path("/p/a/node_modules/foo")));
    assert_eq!(placed(&[]).package_dir("foo@1.0.0"), None);
    assert_eq!(nested.package_dir("bar@1.0.0"), None);
}

#[test]
fn a_root_that_is_no_importer_stays_empty() {
    let root_nm = path("/project/node_modules");
    let mut graph = LockfileGraph::default();
    graph.packages.insert("a@1.0.0".into(), pkg("a", "1.0.0", &[("shared", "1.0.0")]));
    graph.packages.insert("shared@1.0.0".into(), pkg("shared", "1.0.0", &[]));
    let importers = vec![
        importer("/project/app/node_modules", vec![dep("a", "a@1.0.0")]),
        importer("/project/lib/node_modules", vec![dep("shared", "shared@1.0.0")]),
    ];
    for limits in [HoistingLimits::Workspaces, HoistingLimits::Dependencies] {
        let plan = workspace(&root_nm, &importers, &graph, limits);
        assert_eq!(plan.nodes[0].children.len(), 0);
        assert_eq!(package_dirs(&plan, "a@1.0.0"), vec!["/project/app/node_modules/a"]);
        assert_eq!(package_dirs(&plan, "shared@1.0.0").len(), 2);
    }
    let plan = workspace(&root_nm, &importers, &graph, HoistingLimits::Unlimited);
    assert_eq!(package_dirs(&plan, "shared@1.0.0"), vec!["/project/node_modules/shared"]);
}
