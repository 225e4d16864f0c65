use aube::fs_path::FsPath;
use aube::graph::{DepType, DependencyEdge, DirectDep, Importer, LocalSource, LockedPackage, LockfileGraph};
use aube::hoisted::materialize::{
    file_plan, index_or_error, node_step, sweep_steps, LinkStats, MaterializeError, Materializer, NodeStep,
};
use aube::hoisted::placements::HoistedPlacements;
use aube::hoisted::plan::{HoistingLimits, PlacementPlan};
use aube::hoisted::planner::HoistedWorkspaceImporter;
use aube::hoisted::workspace::{link_hoisted_importer, link_hoisted_workspace};
use aube::str_map::{StrMap, StrSet};

fn path(text: &str) -> FsPath {
    FsPath::parse(text)
}

fn dep(name: &str, dep_path: &str) -> DirectDep {
    DirectDep { name: name.into(), dep_path: dep_path.into(), dep_type: DepType::Production, specifier: None }
}

/// The root needs `a` and a link; `a` needs another version of `b` than the
/// root does.
fn graph() -> LockfileGraph {
    let mut graph = LockfileGraph::default();
    let mut dependencies = StrMap::new();
    dependencies.insert("b".into(), DependencyEdge { tail: "2.0.0".into(), shared_dep_path: None });
    graph.packages.insert(
        "a@1.0.0".into(),
        LockedPackage {
            name: "a".into(),
            version: "1.0.0".into(),
            dep_path: "a@1.0.0".into(),
            dependencies,
            integrity: Some("sha512-a".into()),
            alias_of: Some("real-a".into()),
            ..Default::default()
        },
    );
    for version in ["1.0.0", "2.0.0"] {
        graph.packages.insert(
            format!("b@{version}"),
            LockedPackage {
                name: "b".into(),
                version: version.into(),
                dep_path: format!("b@{version}"),
                ..Default::default()
            },
        );
    }
    graph.packages.insert(
        "l@link:lib".into(),
        LockedPackage {
            name: "l".into(),
            version: "0.0.0".into(),
            dep_path: "l@link:lib".into(),
            local_source: Some(LocalSource::Link("lib".into())),
            ..Default::default()
        },
    );
    graph.importers.insert(".".into(), Importer { physical: true, dependencies: Vec::new() });
    graph
}

fn plan() -> PlacementPlan {
    let deps = vec![dep("a", "a@1.0.0"), dep("b", "b@1.0.0")];
    link_hoisted_importer(&path("/p"), "node_modules", &deps, &graph(), HoistingLimits::Unlimited, &StrSet::new())
        .unwrap()
}

#[test]
fn a_plan_is_carried_out_node_by_node() {
    let graph = graph();
    let plan = plan();
    let root = path("/p");
    let sweep = sweep_steps(&plan);
    assert_eq!(sweep.len(), 1);
    assert_eq!(sweep[0].nm_dir.to_text(), "/p/node_modules");
    assert_eq!(sweep[0].keep, vec!["a", "b"]);

    let stats = LinkStats { packages_linked: 0, files_linked: 0, top_level_linked: 0 };
    let mut work = Materializer::new(stats, HoistedPlacements::new());
    let mut packages = Vec::new();
    while work.next < plan.nodes.len() {
        if let NodeStep::Package(step) = node_step(&plan, work.next, &graph, &root) {
            packages.push((step.dep_path, step.pkg_dir.to_text(), step.registry_name));
        }
        work.complete_node(&plan, &graph, 2);
    }
    work.finish(&plan);
    assert_eq!(
        packages,
        vec![
            ("a@1.0.0".to_string(), "/p/node_modules/a".to_string(), "real-a".to_string()),
            ("b@1.0.0".to_string(), "/p/node_modules/b".to_string(), "b".to_string()),
            ("b@2.0.0".to_string(), "/p/node_modules/a/node_modules/b".to_string(), "b".to_string()),
        ]
    );
    assert_eq!(work.stats, LinkStats { packages_linked: 3, files_linked: 6, top_level_linked: 2 });
    assert_eq!(work.placements.package_dir("b@2.0.0").unwrap().to_text(), "/p/node_modules/a/node_modules/b");
}

#[test]
fn a_live_link_leads_to_its_directory() {
    let graph = graph();
    let importers =
        vec![HoistedWorkspaceImporter { modules_dir: path("/p/app/node_modules"), dependencies: vec![dep("l", "l@link:lib")] }];
    let plan = link_hoisted_workspace(
        &path("/p"),
        "node_modules",
        &importers,
        &graph,
        HoistingLimits::Unlimited,
        &StrSet::new(),
    )
    .unwrap();
    let root = path("/p");
    let steps: Vec<NodeStep> = (0..plan.nodes.len()).map(|i| node_step(&plan, i, &graph, &root)).collect();
    let link = steps
        .iter()
        .find_map(|s| if let NodeStep::Link(l) = s { Some(l) } else { None })
        .expect("the link is placed");
    assert_eq!(link.pkg_dir.to_text(), "/p/app/node_modules/l");
    assert_eq!(link.parent.as_ref().unwrap().to_text(), "/p/app/node_modules");
    assert_eq!(link.target.to_text(), "../../lib");
}

#[test]
fn files_are_written_below_the_package() {
    let files: Vec<String> = ["package.json", "lib/a.js", "lib/b.js"].iter().map(|f| f.to_string()).collect();
    let plan = file_plan(&path("/p/node_modules/a"), &files, &StrSet::new()).unwrap();
    let parents: Vec<String> = plan.parents.iter().map(|p| p.to_text()).collect();
    assert_eq!(parents, vec!["/p/node_modules/a", "/p/node_modules/a/lib"]);
    assert_eq!(plan.targets[2].to_text(), "/p/node_modules/a/lib/b.js");
    let empty = file_plan(&path("/p/node_modules/a"), &Vec::new(), &StrSet::new()).unwrap();
    assert_eq!(empty.parents.iter().map(|p| p.to_text()).collect::<Vec<_>>(), vec!["/p/node_modules/a"]);
    let mut refused = StrSet::new();
    refused.insert("../x".into());
    let files = vec!["a".to_string(), "../x".to_string()];
    assert_eq!(
        file_plan(&path("/p"), &files, &refused).unwrap_err(),
        MaterializeError::RefusedFile("../x".into())
    );
}

#[test]
fn a_package_needs_its_file_list() {
    assert_eq!(index_or_error(Some(1), Some(2), "a@1.0.0"), Ok(1));
    assert_eq!(index_or_error(None, Some(2), "a@1.0.0"), Ok(2));
    assert_eq!(
        index_or_error::<u8>(None, None, "a@1.0.0"),
        Err(MaterializeError::MissingPackageIndex("a@1.0.0".into()))
    );
}
