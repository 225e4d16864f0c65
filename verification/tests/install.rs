use aube::embedder::Embedder;
use aube::fs_path::FsPath;
use aube::graph::{DepType, DependencyEdge, DirectDep, Importer, LocalSource, LockedPackage, LockfileGraph};
use aube::install::choices::{
    already_linked_shortcut, build_policy_source, checksummed_hook, expected_packages, fails_on_unreviewed_builds,
    hook_paths, is_fresh_resolution, links_root_only, lockfile_target, prior_metadata, project_label,
    project_local_packages, resolve_scope, runtime_network, store_lock_path, target_lockfile_kind, with_catch_up,
    writes_in_place, FetchCounts, LockfileTarget, NetworkMode, PolicySource, PriorMetadata, ResolveScope, StoreLock,
};
use aube::install::concurrency::{fetch_network_concurrency, stream_capacity, tarball_limits};
use aube::install::hooks::{
    has_explicit_store_dir_override, package_build_is_allowed, run_dev_preinstall, AllowDecision,
};
use aube::install::packages::{
    apply_computed_integrities, contextualized_indices, fill_tarball_urls, missing_packages, strip_peer_context_suffix,
};
use aube::install::phases::{phase_name, phase_span, Phase};
use aube::install::run::{failure_message, run, Cleanup, Failure, Outcome, Run, Status};
use aube::install::selection::{filter_graph_for_install, DepSelection};
use aube::install::stages::{
    Facts, is_wanted, next_stage, place_of, FrozenMode, InstallOptions, LayoutChoice, LockfileFound, LockfileKind, Stage,
};
use aube::install::stream::{
    stream_step, tarball_error, tarball_plan, ResolvedPackage, StreamFetch, StreamResult, StreamStep,
};
use aube::install::timings::InstallPhaseTimings;
use aube::str_map::{StrMap, StrSet};

fn locked(name: &str, version: &str) -> LockedPackage {
    LockedPackage {
        name: name.into(),
        version: version.into(),
        dep_path: format!("{name}@{version}"),
        ..Default::default()
    }
}

#[test]
fn computed_integrity_updates_peer_variants() {
    let mut graph = LockfileGraph::default();
    graph.packages.insert(
        "consumer@1.0.0(peer@2.0.0)".into(),
        LockedPackage {
            name: "consumer".into(),
            version: "1.0.0".into(),
            dep_path: "consumer@1.0.0(peer@2.0.0)".into(),
            ..Default::default()
        },
    );
    graph.packages.insert(
        "already@1.0.0".into(),
        LockedPackage {
            name: "already".into(),
            version: "1.0.0".into(),
            dep_path: "already@1.0.0".into(),
            integrity: Some("sha512-existing".into()),
            ..Default::default()
        },
    );
    let mut computed = StrMap::new();
    computed.insert("consumer@1.0.0".into(), "sha512-computed".into());
    computed.insert("already@1.0.0".into(), "sha512-new".into());

    apply_computed_integrities(&mut graph, &computed);

    assert_eq!(
        graph.packages.get("consumer@1.0.0(peer@2.0.0)").unwrap().integrity.as_deref(),
        Some("sha512-computed")
    );
    assert_eq!(graph.packages.get("already@1.0.0").unwrap().integrity.as_deref(), Some("sha512-existing"));
}

/// The store directory that flags name, looked up as settings are: under the
/// setting's name or its name on the command line. The lookup is not the
/// library's; what is shown is that a directory which it finds is an override,
/// and that flags without one are none.
fn store_dir_from_cli(flags: &[(&str, &str)]) -> Option<String> {
    flags.iter().find(|(key, _)| ["storeDir", "store-dir"].contains(key)).map(|(_, dir)| dir.to_string())
}

fn overrides_store_dir(flags: &[(&str, &str)]) -> bool {
    has_explicit_store_dir_override(false, store_dir_from_cli(flags).as_deref())
}

#[test]
fn recognizes_canonical_and_kebab_case_cli_keys() {
    assert!(overrides_store_dir(&[("storeDir", "/store")]));
    assert!(overrides_store_dir(&[("store-dir", "/store")]));
    assert!(!overrides_store_dir(&[("cache-dir", "/cache")]));
}

#[test]
fn the_host_may_choose_the_store_too() {
    assert!(has_explicit_store_dir_override(true, None));
    assert!(has_explicit_store_dir_override(true, Some("/store")));
    assert!(!has_explicit_store_dir_override(false, None));
}

#[test]
fn local_packages_get_no_integrity_and_no_url() {
    let mut graph = LockfileGraph::default();
    graph.packages.insert("a@1.0.0".into(), locked("a", "1.0.0"));
    graph.packages.insert(
        "b@1.0.0".into(),
        LockedPackage { local_source: Some(LocalSource::Other), ..locked("b", "1.0.0") },
    );
    graph.packages.insert(
        "c@1.0.0".into(),
        LockedPackage { tarball_url: Some("https://own/c".into()), ..locked("c", "1.0.0") },
    );
    let mut computed = StrMap::new();
    computed.insert("b@1.0.0".into(), "sha512-b".into());
    apply_computed_integrities(&mut graph, &computed);
    assert!(graph.packages.get("b@1.0.0").unwrap().integrity.is_none());

    fill_tarball_urls(&mut graph, &vec!["https://r/a".into(), "https://r/b".into(), "https://r/c".into()]);
    assert!(graph.include_tarball_url);
    assert_eq!(graph.packages.get("a@1.0.0").unwrap().tarball_url.as_deref(), Some("https://r/a"));
    assert!(graph.packages.get("b@1.0.0").unwrap().tarball_url.is_none());
    assert_eq!(graph.packages.get("c@1.0.0").unwrap().tarball_url.as_deref(), Some("https://own/c"));
}

#[test]
fn missing_packages_are_those_of_a_registry_without_files() {
    let mut graph = LockfileGraph::default();
    graph.packages.insert("a@1.0.0".into(), locked("a", "1.0.0"));
    graph.packages.insert("b@1.0.0".into(), locked("b", "1.0.0"));
    graph.packages.insert(
        "l@link:../l".into(),
        LockedPackage { local_source: Some(LocalSource::Link("../l".into())), ..locked("l", "0.0.0") },
    );
    let mut indices = StrSet::new();
    indices.insert("a@1.0.0".into());
    let missing = missing_packages(&graph, &indices);
    assert_eq!(missing.len(), 1);
    assert!(missing.contains("b@1.0.0"));
    assert_eq!(strip_peer_context_suffix("a@1.0.0(b@2.0.0)(c@3.0.0)"), "a@1.0.0");
    assert_eq!(strip_peer_context_suffix("a@1.0.0"), "a@1.0.0");
}

#[test]
fn fetch_bounds_follow_the_concurrency() {
    assert_eq!(fetch_network_concurrency(Some(3), Some(9), 128), 3);
    assert_eq!(fetch_network_concurrency(None, Some(9), 128), 9);
    assert_eq!(fetch_network_concurrency(None, None, 128), 128);
    assert_eq!(stream_capacity(1), 1024);
    assert_eq!(stream_capacity(128), 2048);
    assert_eq!(stream_capacity(usize::MAX), usize::MAX);
    let low = tarball_limits(1);
    assert_eq!((low.seed, low.floor, low.ceiling), (4, 4, 256));
    let high = tarball_limits(300);
    assert_eq!((high.seed, high.floor, high.ceiling), (300, 4, 300));
}

#[test]
fn hooks_run_from_the_workspace_root() {
    let project = FsPath::parse("/w/packages/a");
    let root = FsPath::parse("/w");
    let hook = run_dev_preinstall(&project, Some(&root), false, false, false, Some("update")).unwrap();
    assert_eq!(hook.root_dir.to_text(), "/w");
    assert_eq!(hook.script, "pnpm:devPreinstall");
    assert_eq!(hook.initialize_environment_for.as_deref(), Some("update"));
    let hook = run_dev_preinstall(&project, None, false, false, false, None).unwrap();
    assert_eq!(hook.root_dir.to_text(), "/w/packages/a");
    assert!(run_dev_preinstall(&project, None, true, false, false, None).is_none());
    assert!(run_dev_preinstall(&project, None, false, true, false, None).is_none());
    assert!(run_dev_preinstall(&project, None, false, false, true, None).is_none());
}

#[test]
fn builds_run_only_where_they_are_allowed() {
    assert!(package_build_is_allowed(AllowDecision::Allow));
    assert!(!package_build_is_allowed(AllowDecision::Deny));
    assert!(!package_build_is_allowed(AllowDecision::Unspecified));
}

#[test]
fn phases_are_timed_where_they_are_reported() {
    let mut silent: InstallPhaseTimings<u64> = InstallPhaseTimings::from_env(None, None);
    assert_eq!(silent.record("resolve", 5, None), None);
    assert_eq!(silent.phases_ms.len(), 0);
    assert!(silent.write("/p", None, 9, 1, 1, 0).is_none());

    let mut timings = InstallPhaseTimings::from_env(Some("/tmp/phases".into()), Some(1u64));
    assert_eq!(timings.record("resolve", 5, Some(3)), Some((1, 3)));
    assert_eq!(timings.record("fetch", 7, Some(4)), Some((3, 4)));
    assert_eq!(timings.record("link", 2, None), None);
    let report = timings.write("/p", Some("cold".into()), 20, 3, 2, 1).unwrap();
    assert_eq!(report.path, "/tmp/phases");
    assert_eq!(report.cwd, "/p");
    assert_eq!((report.total_ms, report.packages, report.cached, report.fetched), (20, 3, 2, 1));
    assert_eq!(report.phases_ms.get("fetch"), Some(&7));
}

fn edge(tail: &str) -> DependencyEdge {
    DependencyEdge { tail: tail.into(), shared_dep_path: None }
}

fn direct(name: &str, dep_type: DepType) -> DirectDep {
    DirectDep { name: name.into(), dep_path: format!("{name}@1.0.0"), dep_type, specifier: None }
}

/// The root needs `a` (which needs `c`), `b` for development (which needs `c`
/// and `d`) and `o` optionally; the member needs `m`.
fn selection_graph() -> LockfileGraph {
    let mut graph = LockfileGraph::default();
    for name in ["c", "d", "m", "o"] {
        graph.packages.insert(format!("{name}@1.0.0"), locked(name, "1.0.0"));
    }
    let mut a = locked("a", "1.0.0");
    a.dependencies.insert("c".into(), edge("1.0.0"));
    graph.packages.insert("a@1.0.0".into(), a);
    let mut b = locked("b", "1.0.0");
    b.dependencies.insert("c".into(), edge("1.0.0"));
    b.dependencies.insert("d".into(), edge("1.0.0"));
    graph.packages.insert("b@1.0.0".into(), b);
    graph.importers.insert(
        ".".into(),
        Importer {
            physical: true,
            dependencies: vec![
                direct("a", DepType::Production),
                direct("b", DepType::Dev),
                direct("o", DepType::Optional),
            ],
        },
    );
    graph.importers.insert(
        "packages/m".into(),
        Importer { physical: true, dependencies: vec![direct("m", DepType::Production)] },
    );
    graph
}

fn keys(graph: &LockfileGraph) -> Vec<String> {
    (0..graph.packages.len()).map(|i| graph.packages.key_at(i).to_string()).collect()
}

fn select(prod_only: bool, dev_only: bool, skip_optional: bool) -> DepSelection {
    DepSelection { prod_only, dev_only, skip_optional }
}

#[test]
fn selected_packages_are_those_that_kept_dependencies_need() {
    let none = select(false, false, false);
    assert!(!none.is_filtered());
    let all = filter_graph_for_install(selection_graph(), &none, None, false);
    assert_eq!(all.packages.len(), 6);

    let prod = filter_graph_for_install(selection_graph(), &select(true, false, false), None, false);
    assert_eq!(keys(&prod), vec!["a@1.0.0", "c@1.0.0", "m@1.0.0", "o@1.0.0"]);
    let dev = filter_graph_for_install(selection_graph(), &select(false, true, false), None, false);
    assert_eq!(keys(&dev), vec!["b@1.0.0", "c@1.0.0", "d@1.0.0"]);
    assert_eq!(dev.importers.get("packages/m").unwrap().dependencies.len(), 0);
    let lean = filter_graph_for_install(selection_graph(), &select(true, false, true), None, true);
    assert_eq!(keys(&lean), vec!["a@1.0.0", "c@1.0.0"]);
    assert_eq!(lean.importers.len(), 1);

    let mut names = StrSet::new();
    names.insert("packages/m".into());
    let member = filter_graph_for_install(selection_graph(), &none, Some(&names), true);
    assert_eq!(keys(&member), vec!["m@1.0.0"]);
    assert!(member.importers.contains_key("packages/m"));
    assert!(!member.importers.contains_key("."));
}

#[test]
fn a_cycle_of_packages_is_walked_once() {
    let mut graph = LockfileGraph::default();
    let mut a = locked("a", "1.0.0");
    a.dependencies.insert("b".into(), edge("1.0.0"));
    let mut b = locked("b", "1.0.0");
    b.dependencies.insert("a".into(), edge("1.0.0"));
    b.dependencies.insert("gone".into(), edge("1.0.0"));
    graph.packages.insert("a@1.0.0".into(), a);
    graph.packages.insert("b@1.0.0".into(), b);
    graph.importers.insert(
        ".".into(),
        Importer { physical: true, dependencies: vec![direct("a", DepType::Production)] },
    );
    let kept = filter_graph_for_install(graph.clone(), &select(true, false, false), None, false);
    assert_eq!(keys(&kept), vec!["a@1.0.0", "b@1.0.0"]);
    assert_eq!(keys(&graph), vec!["a@1.0.0", "b@1.0.0"]);
}

fn resolved(name: &str) -> ResolvedPackage {
    ResolvedPackage {
        name: name.into(),
        version: "1.0.0".into(),
        dep_path: format!("{name}@1.0.0"),
        alias_of: None,
        local: false,
        supported: true,
        integrity: None,
        tarball_url: None,
        deprecated: None,
        pending: 0,
    }
}

#[test]
fn every_resolved_package_is_accounted_for() {
    let mut stream = StreamFetch::new();
    let foreign = ResolvedPackage { supported: false, ..resolved("foreign") };
    assert_eq!(stream_step(&foreign), StreamStep::Defer);
    stream.settle(&foreign, StreamResult::Deferred);
    let local = ResolvedPackage { local: true, supported: false, ..resolved("local") };
    assert_eq!(stream_step(&local), StreamStep::ImportLocal);
    stream.settle(&local, StreamResult::Linked);
    let cached = ResolvedPackage { deprecated: Some("use another".into()), ..resolved("cached") };
    assert_eq!(stream_step(&cached), StreamStep::LookUp);
    stream.settle(&cached, StreamResult::Cached);
    stream.settle(&resolved("fetched"), StreamResult::Fetching);
    assert_eq!(stream.total_floor(6), 10);
    assert_eq!(stream.cached_count(), 1);
    assert_eq!(stream.fetch_count(), 1);
    assert!(stream.indices().contains("cached@1.0.0"));
    assert!(!stream.indices().contains("fetched@1.0.0"));

    stream.fetched("fetched@1.0.0(peer@2.0.0)", Some("sha512-x".into()));
    assert!(stream.indices().contains("fetched@1.0.0(peer@2.0.0)"));
    assert_eq!(stream.computed_integrities().get("fetched@1.0.0"), Some(&"sha512-x".to_string()));
    assert_eq!(stream.deprecations().len(), 1);
    let said = &stream.deprecations()[0];
    assert_eq!((said.name.as_str(), said.version.as_str()), ("cached", "1.0.0"));
    assert_eq!((said.dep_path.as_str(), said.message.as_str()), ("cached@1.0.0", "use another"));
}

#[test]
fn an_alias_is_looked_up_by_its_target() {
    let alias = ResolvedPackage { alias_of: Some("h3".into()), ..resolved("h3-v2") };
    assert_eq!(alias.registry_name(), "h3");
    assert_eq!(resolved("plain").registry_name(), "plain");
}

#[test]
fn tarballs_are_streamed_where_they_can_be_checked() {
    let plan = tarball_plan(&resolved("a"), "https://r/a", true);
    assert_eq!(plan.url, "https://r/a");
    assert!(plan.streaming && plan.compute_integrity);
    let own = ResolvedPackage {
        integrity: Some("sha512-x".into()),
        tarball_url: Some("https://own/a".into()),
        ..resolved("a")
    };
    let plan = tarball_plan(&own, "https://r/a", true);
    assert_eq!(plan.url, "https://own/a");
    assert!(plan.streaming && !plan.compute_integrity);
    let old = ResolvedPackage { integrity: Some("sha1-x".into()), ..resolved("a") };
    assert!(!tarball_plan(&old, "https://r/a", true).streaming);
    assert!(!tarball_plan(&resolved("a"), "https://r/a", false).streaming);
    assert_eq!(tarball_error("a", "1.0.0", "503", "\nchain: . > a"), "failed to fetch a@1.0.0: 503\nchain: . > a");
}

fn options(mode: FrozenMode) -> InstallOptions {
    InstallOptions {
        mode,
        dry_run: false,
        strict_no_lockfile: false,
        ignore_scripts: false,
        skip_root_lifecycle: false,
        run_dev_preinstall: true,
    }
}

struct World {
    up_to_date: bool,
    layout: LayoutChoice,
    lockfile: LockfileFound,
    pending: bool,
    missing: bool,
    integrities: bool,
    fail_at: Option<Stage>,
}

fn world(lockfile: LockfileFound) -> World {
    World {
        up_to_date: false,
        layout: LayoutChoice {
            lockfile_enabled: true,
            lockfile_only: false,
            shared_workspace_lockfile: true,
            include_tarball_url: false,
        },
        lockfile,
        pending: true,
        missing: false,
        integrities: false,
        fail_at: None,
    }
}

fn drive(mut r: Run, w: &World) -> Run {
    while let Status::Running(stage) = r.status() {
        let outcome = if w.fail_at == Some(stage) {
            Outcome::Failed
        } else {
            match stage {
                Stage::TryFastPath => Outcome::FastPath { up_to_date: w.up_to_date, store_locked: true },
                Stage::ResolveLayout => Outcome::Layout { choice: w.layout, default_kind: LockfileKind::Aube },
                Stage::DiscoverWorkspace => Outcome::Workspace {
                    has_workspace: false,
                    planned_gvs: true,
                    strict_peers: true,
                    has_scanner: true,
                },
                Stage::DetectLockfileKind => Outcome::Kind(Some(LockfileKind::Pnpm)),
                Stage::PreParseLockfile => Outcome::PreParsed(false),
                Stage::CheckFrozenLockfile | Stage::SelectLockfile => Outcome::Lockfile(w.lockfile),
                Stage::WriteLockfile => Outcome::Written { pending: w.pending },
                Stage::TrimGraph => Outcome::Trimmed { missing_packages: w.missing },
                Stage::CatchUpFetch => Outcome::CaughtUp { new_integrities: w.integrities },
                _ => Outcome::Done,
            }
        };
        r.complete(outcome);
    }
    r
}

#[test]
fn a_current_tree_is_reported_and_left_alone() {
    let w = World { up_to_date: true, ..world(LockfileFound::Absent) };
    let r = drive(run(options(FrozenMode::Prefer), false), &w);
    assert_eq!(r.status(), Status::Finished);
    assert_eq!(
        r.history(),
        &vec![Stage::ResetForcedState, Stage::TryFastPath, Stage::RegisterFastPath, Stage::ReportUpToDate]
    );
}

#[test]
fn a_lockfile_is_installed_from_without_resolving() {
    let r = drive(run(options(FrozenMode::Frozen), false), &world(LockfileFound::Current));
    assert_eq!(r.status(), Status::Finished);
    for stage in [Stage::RootPreinstall, Stage::DevPreinstall, Stage::Fetch, Stage::Link, Stage::Finalize] {
        assert!(r.history().contains(&stage), "{stage:?}");
    }
    for stage in [Stage::Resolve, Stage::WriteLockfile, Stage::PreParseLockfile, Stage::JoinLockfileWrite] {
        assert!(!r.history().contains(&stage), "{stage:?}");
    }
}

#[test]
fn a_fresh_install_resolves_writes_and_links_in_order() {
    let w = World { missing: true, integrities: true, ..world(LockfileFound::Absent) };
    let r = drive(run(options(FrozenMode::Prefer), false), &w);
    assert_eq!(r.status(), Status::Finished);
    let at = |stage: Stage| r.history().iter().position(|s| *s == stage).unwrap_or_else(|| panic!("{stage:?}"));
    let order = [
        Stage::PreParseLockfile,
        Stage::CheckConflictMarkers,
        Stage::SelectLockfile,
        Stage::Resolve,
        Stage::RereadPatches,
        Stage::RouteAdvisories,
        Stage::RunScanner,
        Stage::Fetch,
        Stage::WriteLockfile,
        Stage::CatchUpFetch,
        Stage::JoinWriteForRewrite,
        Stage::RewriteLockfile,
        Stage::CheckPeers,
        Stage::CheckEngines,
        Stage::Link,
        Stage::Finalize,
    ];
    for pair in order.windows(2) {
        assert!(at(pair[0]) < at(pair[1]), "{pair:?}");
    }
    assert!(!r.facts().write_pending);
    assert!(!r.history().contains(&Stage::JoinLockfileWrite));
}

#[test]
fn a_write_in_the_background_is_waited_for() {
    let r = drive(run(options(FrozenMode::No), false), &world(LockfileFound::Absent));
    assert!(r.history().contains(&Stage::JoinLockfileWrite));
    assert!(!r.history().contains(&Stage::RewriteLockfile));
    assert!(!r.history().contains(&Stage::PreParseLockfile));
    let w = World { pending: false, ..world(LockfileFound::Absent) };
    let r = drive(run(options(FrozenMode::No), false), &w);
    assert!(!r.history().contains(&Stage::JoinLockfileWrite));
}

#[test]
fn a_dry_run_stops_at_the_lockfile() {
    let o = InstallOptions { dry_run: true, ..options(FrozenMode::Prefer) };
    let r = drive(run(o, false), &world(LockfileFound::Absent));
    assert_eq!(r.status(), Status::Finished);
    assert_eq!(r.history().last(), Some(&Stage::LockfileOnly));
    assert!(!r.may_write_lockfile());
    for stage in [Stage::ResetForcedState, Stage::EnsureRuntime, Stage::DevPreinstall, Stage::CheckFrozenLockfile] {
        assert!(!r.history().contains(&stage), "{stage:?}");
    }
}

#[test]
fn ignored_scripts_and_a_lockfile_alone_run_no_hooks() {
    let o = InstallOptions { ignore_scripts: true, ..options(FrozenMode::Prefer) };
    let r = drive(run(o, false), &world(LockfileFound::Current));
    assert!(!r.history().contains(&Stage::DevPreinstall));
    assert!(!r.history().contains(&Stage::RootPreinstall));
    let mut w = world(LockfileFound::Current);
    w.layout.lockfile_only = true;
    let r = drive(run(options(FrozenMode::Prefer), false), &w);
    assert!(!r.history().contains(&Stage::RootPreinstall));
    assert_eq!(r.history().last(), Some(&Stage::LockfileOnly));
    assert!(r.may_write_lockfile());
}

#[test]
fn a_strict_frozen_install_fails_without_its_lockfile() {
    let o = InstallOptions { strict_no_lockfile: true, ..options(FrozenMode::Frozen) };
    let r = drive(run(o, false), &world(LockfileFound::Absent));
    assert_eq!(r.status(), Status::Failed(Failure::NoLockfile));
    let dry = InstallOptions { dry_run: true, ..o };
    let r = drive(run(dry, false), &world(LockfileFound::Absent));
    assert_eq!(r.status(), Status::Failed(Failure::NoLockfile));
    assert_eq!(r.history().last(), Some(&Stage::CheckFrozenLockfile));
    let r = drive(run(o, false), &world(LockfileFound::Broken));
    assert_eq!(r.status(), Status::Failed(Failure::BrokenLockfile));

    let embedder = Embedder::standalone();
    assert_eq!(
        failure_message(Failure::NoLockfile, &embedder).unwrap(),
        "no lockfile found and --frozen-lockfile is set\nhelp: commit pnpm-lock.yaml to your repository, or run `aube install --no-frozen-lockfile` to generate one"
    );
    assert_eq!(failure_message(Failure::BrokenLockfile, &embedder).unwrap(), "failed to parse lockfile");
    assert!(failure_message(Failure::Cancelled, &embedder).is_none());
}

#[test]
fn a_failure_ends_the_run_where_it_stands() {
    for (stage, cleanup) in [
        (Stage::Resolve, Cleanup::AbortStreamFetch),
        (Stage::Fetch, Cleanup::AwaitPrewarm),
        (Stage::Link, Cleanup::Nothing),
        (Stage::CancelPointLockfile, Cleanup::Nothing),
    ] {
        let w = World { fail_at: Some(stage), ..world(LockfileFound::Absent) };
        let mut r = drive(run(options(FrozenMode::Prefer), false), &w);
        assert_eq!(r.status(), Status::Failed(Failure::Stage(stage, cleanup)));
        assert!(!r.history().contains(&stage));
        r.complete(Outcome::Done);
        assert_eq!(r.status(), Status::Failed(Failure::Stage(stage, cleanup)));
    }
    let r = run(options(FrozenMode::Prefer), true);
    assert_eq!(r.status(), Status::Failed(Failure::Cancelled));
}

#[test]
fn a_lockfile_that_is_switched_off_is_not_written() {
    let mut w = world(LockfileFound::Absent);
    w.layout.lockfile_enabled = false;
    let r = drive(run(options(FrozenMode::Prefer), false), &w);
    assert_eq!(r.status(), Status::Finished);
    for stage in [Stage::DetectLockfileKind, Stage::PreParseLockfile, Stage::WriteLockfile, Stage::StampChecksums] {
        assert!(!r.history().contains(&stage), "{stage:?}");
    }
    assert!(r.history().contains(&Stage::Resolve));
}

#[test]
fn phases_span_their_stages() {
    let o = options(FrozenMode::Prefer);
    let locked = drive(run(o, false), &world(LockfileFound::Current)).facts();
    assert_eq!(phase_span(&o, &locked, Phase::Resolve), Some((Stage::OpenStore, Stage::CancelPointGraph)));
    assert_eq!(phase_span(&o, &locked, Phase::Fetch), Some((Stage::PlanVirtualStore, Stage::JoinPrewarm)));
    assert_eq!(phase_span(&o, &locked, Phase::PrewarmGvs), None);

    let fresh = drive(run(o, false), &world(LockfileFound::Absent)).facts();
    assert_eq!(phase_span(&o, &fresh, Phase::Resolve), Some((Stage::OpenStore, Stage::CancelPointFetch)));
    assert_eq!(phase_span(&o, &fresh, Phase::Fetch), Some((Stage::Fetch, Stage::Fetch)));
    assert_eq!(phase_span(&o, &fresh, Phase::PrewarmGvs), Some((Stage::PlanVirtualStore, Stage::JoinPrewarm)));
    let caught_up = Facts { missing_packages: true, new_integrities: false, ..fresh };
    assert_eq!(phase_span(&o, &caught_up, Phase::CatchupFetch), Some((Stage::CatchUpFetch, Stage::CatchUpFetch)));
    let rewritten = Facts { new_integrities: true, ..caught_up };
    assert_eq!(phase_span(&o, &rewritten, Phase::CatchupFetch), Some((Stage::CatchUpFetch, Stage::RewriteLockfile)));
    let quiet = InstallOptions { ignore_scripts: true, ..o };
    assert_eq!(phase_span(&quiet, &fresh, Phase::RootPreinstall), None);
    assert_eq!(phase_name(Phase::PrewarmGvs), "prewarm_gvs");
}

#[test]
fn stages_follow_one_another() {
    let r = run(options(FrozenMode::Prefer), false);
    let o = options(FrozenMode::Prefer);
    let f = r.facts();
    assert_eq!(next_stage(&o, &f, 0), Some(Stage::ResetForcedState));
    assert_eq!(place_of(Stage::ResetForcedState), 0);
    assert!(is_wanted(&o, &f, Stage::LoadConfig));
    assert!(!is_wanted(&o, &f, Stage::Link));
    assert_eq!(next_stage(&o, &f, place_of(Stage::Finalize) + 1), None);
}

#[test]
fn choices_follow_the_settings() {
    assert_eq!(runtime_network(NetworkMode::Offline, NetworkMode::Online), NetworkMode::Offline);
    assert_eq!(runtime_network(NetworkMode::Online, NetworkMode::PreferOffline), NetworkMode::PreferOffline);
    assert!(fails_on_unreviewed_builds(false, true) && !fails_on_unreviewed_builds(false, false));
    assert_eq!(build_policy_source(true, true), PolicySource::Override);
    assert_eq!(build_policy_source(false, true), PolicySource::ManifestsAndInherited);
    assert_eq!(build_policy_source(false, false), PolicySource::Manifests);
    assert_eq!(target_lockfile_kind(false, LockfileKind::Pnpm), None);
    assert_eq!(target_lockfile_kind(true, LockfileKind::Pnpm), Some(LockfileKind::Pnpm));
    assert!(already_linked_shortcut(false, false));
    assert!(!already_linked_shortcut(true, false) && !already_linked_shortcut(false, true));
    assert!(links_root_only(true, false) && !links_root_only(true, true) && !links_root_only(false, false));
    assert_eq!(lockfile_target(false, true), LockfileTarget::PerProject);
    assert_eq!(lockfile_target(false, false), LockfileTarget::Shared);
    assert_eq!(lockfile_target(true, true), LockfileTarget::Shared);
    assert!(is_fresh_resolution(false, true) && !is_fresh_resolution(true, true));
    assert_eq!(expected_packages(Some(3), Some(9)), Some(3));
    assert_eq!(expected_packages(None, Some(9)), Some(9));
    assert_eq!(store_lock_path(&FsPath::parse("/s/v1/files")).to_text(), "/s/v1/.install.lock");
    assert!(writes_in_place(StoreLock::Acquired));
    assert!(!writes_in_place(StoreLock::Taken) && !writes_in_place(StoreLock::Unavailable));
    assert_eq!(project_label(None), "(unnamed)");
    assert_eq!(project_label(Some("x")), "x");
    let sum = with_catch_up(FetchCounts { cached: 1, fetched: 2 }, FetchCounts { cached: 3, fetched: 4 });
    assert_eq!((sum.cached, sum.fetched), (4, 6));
}

#[test]
fn every_variant_of_a_fetched_package_is_there() {
    let mut graph = LockfileGraph::default();
    for key in ["a@1.0.0(react@18.0.0)", "a@1.0.0(react@19.0.0)", "b@1.0.0", "c@1.0.0(a@1.0.0)"] {
        graph.packages.insert(key.into(), LockedPackage { dep_path: key.into(), ..locked("x", "1.0.0") });
    }
    let mut fetched = StrSet::new();
    for key in ["a@1.0.0", "b@1.0.0", "gone@1.0.0"] {
        fetched.insert(key.into());
    }
    let indices = contextualized_indices(&graph, &fetched);
    assert_eq!(indices.len(), 3);
    assert!(indices.contains("a@1.0.0(react@18.0.0)"));
    assert!(indices.contains("a@1.0.0(react@19.0.0)"));
    assert!(indices.contains("b@1.0.0"));
    let missing = missing_packages(&graph, &indices);
    assert_eq!(missing.len(), 1);
    assert!(missing.contains("c@1.0.0(a@1.0.0)"));
}

#[test]
fn hooks_and_local_packages_go_by_the_options() {
    let paths = || vec![FsPath::parse("/g.cjs"), FsPath::parse("/p/.pnpmfile.cjs")];
    assert_eq!(hook_paths(false, paths()), paths());
    assert!(hook_paths(true, paths()).is_empty());
    let hook = || Some(FsPath::parse("/p/.pnpmfile.cjs"));
    assert_eq!(checksummed_hook(false, hook()), hook());
    assert_eq!(checksummed_hook(true, hook()), None);
    assert_eq!(checksummed_hook(false, None), None);
    let closure = || {
        let mut set = StrSet::new();
        set.insert("vite@4.0.0".into());
        set
    };
    assert!(project_local_packages(true, closure()).contains("vite@4.0.0"));
    assert_eq!(project_local_packages(false, closure()).len(), 0);
    assert_eq!(resolve_scope(true), ResolveScope::Workspace);
    assert_eq!(resolve_scope(false), ResolveScope::Project);
    assert_eq!(prior_metadata(true, true), PriorMetadata::PreParsed);
    assert_eq!(prior_metadata(false, true), PriorMetadata::OnDisk);
    assert_eq!(prior_metadata(false, false), PriorMetadata::Nothing);
}
