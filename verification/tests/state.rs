use aube::digest::{digest_hex, hash_bytes, hash_file, hash_file_if_exists};
use aube::embedder::Embedder;
use aube::fs_path::FsPath;
use aube::graph::{DepType, DependencyEdge, DirectDep, Importer, LocalSource, LockedPackage, LockfileGraph};
use aube::hoisted::placements::HoistedPlacements;
use aube::hoisted::plan::HoistingLimits;
use aube::relative::relative_path_or_original;
use aube::state::collect::{
    collect_local_directory_hashes, collect_member_lockfile_state, collect_package_json_hashes_from_manifests,
    collect_package_license_state, license_state_fingerprint, licenses_are_current, local_directories,
    snapshot_active_lockfile, MemberLockfile,
};
use aube::state::facts::{Facts, ManifestFact, Member, Probe};
use aube::state::freshness::{member_lockfiles_stale, package_jsons_stale, Check, CheckInput};
use aube::state::layout::{shared_store_packages, NodeLinker, StoreEntry, WriteStateLayout};
use aube::state::layout_check::{empty_blake3_hash, gvs_nested_links_are_current, verify_install_layout};
use aube::state::lockfile::{active_lockfile, lockfile_candidates};
use aube::state::model::{
    FileMeta, FreshnessState, InstallLayoutMode, InstallLayoutState, InstallLicenseState, InstallState,
    InstalledPackageState, LocalDirectoryFingerprint,
};
use aube::state::placement_file::{
    parse_placements, read_hoisted_placements, record_placements, write_hoisted_placements,
};
use aube::state::record::{
    default_state_dir, read_default_state_layout, read_or_migrate_fresh_state, read_state_delta_snapshot,
    read_state_layout, read_state_package_content_hashes, read_state_package_licenses, read_state_subtree_hashes,
    read_state_unreviewed_builds, remove_state, removes_legacy_file, resolve_paths, state_removal, write_state,
    Deletion, Removal, StatePath, StoredState, WriteStateInput,
};
use aube::state::settings::{hash_settings, settings_bytes, LabeledFile, SettingsSnapshot};
use aube::state::settings_files::{settings_files, SettingsContents};
use aube::state::snapshot::{FileReading, FileSnapshot, ReadAnswer, ReadStep};
use aube::state::verdict::{check_needs_install, check_needs_install_with_flags, Verdict};
use aube::str_map::{StrMap, StrSet};
use std::collections::BTreeMap;

fn path(text: &str) -> FsPath {
    FsPath::parse(text)
}

fn map<V>(pairs: Vec<(&str, V)>) -> StrMap<V> {
    let mut out = StrMap::new();
    for (k, v) in pairs {
        out.insert(k.to_string(), v);
    }
    out
}

fn texts(pairs: &[(&str, &str)]) -> StrMap<String> {
    let mut out = StrMap::new();
    for (k, v) in pairs {
        out.insert(k.to_string(), v.to_string());
    }
    out
}

fn layout_state() -> InstallLayoutState {
    InstallLayoutState {
        linker: InstallLayoutMode::Isolated,
        modules_dir_name: String::new(),
        hoisting_limits: None,
        virtual_store_dir_max_length: None,
        direct_entries: StrMap::new(),
        packages: StrMap::new(),
        gvs_nested_links: None,
    }
}

fn install_state() -> InstallState {
    InstallState {
        lockfile_hash: String::new(),
        lockfile_snapshot_name: None,
        lockfile_meta: None,
        member_lockfile_hashes: StrMap::new(),
        member_lockfile_meta: StrMap::new(),
        package_json_hashes: StrMap::new(),
        package_json_meta: StrMap::new(),
        local_directory_hashes: Some(StrMap::new()),
        aube_version: "1.0.0".to_string(),
        section_filtered: false,
        settings_hash: String::new(),
        package_content_hashes: StrMap::new(),
        graph_lthash: String::new(),
        package_subtree_hashes: StrMap::new(),
        package_json_shape_digests: StrMap::new(),
        layout: None,
        unreviewed_builds: Vec::new(),
    }
}

/// Files by their paths, and what else can be asked of a project.
#[derive(Default)]
struct Disk {
    files: BTreeMap<String, Vec<u8>>,
    /// Size and time are those of the file's last write.
    clock: BTreeMap<String, i64>,
    shapes: BTreeMap<String, Vec<u8>>,
    entries: Vec<String>,
    links: Vec<(String, String)>,
    members: Vec<String>,
    dirs: Vec<String>,
    fingerprints: BTreeMap<String, (String, String)>,
    settings: String,
    reads: usize,
}

impl Disk {
    fn write(&mut self, file: &str, content: &str, time: i64) {
        self.files.insert(file.to_string(), content.as_bytes().to_vec());
        self.clock.insert(file.to_string(), time);
    }

    fn meta(&self, file: &str) -> Option<FileMeta> {
        self.files.get(file).map(|c| FileMeta::capture(c.len() as u64, Some((self.clock[file], 0))))
    }

    fn answer(&mut self, facts: &mut Facts, probe: Probe) {
        match probe {
            Probe::Exists(p) => {
                let t = p.to_text();
                let there = self.files.contains_key(&t) || self.dirs.contains(&t);
                facts.exists.insert(t, there);
            }
            Probe::Meta(p) => {
                let t = p.to_text();
                let meta = self.meta(&t);
                facts.meta.insert(t, meta);
            }
            Probe::Content(p) => {
                self.reads += 1;
                let t = p.to_text();
                let content = self.files.get(&t).cloned();
                facts.content.insert(t, content);
            }
            Probe::Shape(p) => {
                let t = p.to_text();
                let shape = self.shapes.get(&t).cloned();
                facts.shape.insert(t, shape);
            }
            Probe::Manifest(p) => {
                let t = p.to_text();
                let fact = if self.files.contains_key(&t) { ManifestFact::Unreadable } else { ManifestFact::Missing };
                facts.manifest.insert(t, fact);
            }
            Probe::DirMetadata(p) => {
                let t = p.to_text();
                let print = self.fingerprints.get(&t).map(|f| f.1.clone());
                facts.dir_metadata.insert(t, print);
            }
            Probe::DirContent(p) => {
                self.reads += 1;
                let t = p.to_text();
                let print = self.fingerprints.get(&t).map(|f| f.0.clone());
                facts.dir_content.insert(t, print);
            }
            Probe::Members => {
                facts.members = Some(
                    self.members
                        .iter()
                        .map(|m| Member { dir: path(m), preferred_lockfile: "aube-lock.yaml".to_string() })
                        .collect(),
                );
            }
            Probe::Entries => {
                let mut set = StrSet::new();
                for e in &self.entries {
                    set.insert(e.clone());
                }
                facts.entries = Some(set);
            }
            Probe::Links => {
                let mut links = StrMap::new();
                for (k, v) in &self.links {
                    links.insert(k.clone(), v.clone());
                }
                facts.links = Some(links);
            }
            Probe::Settings => {
                facts.settings_hash = Some(self.settings.clone());
            }
        }
    }

    fn settle(&mut self, mut check: impl FnMut(&Facts) -> Check) -> Option<String> {
        let mut facts = Facts::new();
        for _ in 0..1000 {
            match check(&facts) {
                Check::Pass => return None,
                Check::Stale(reason) => return Some(reason),
                Check::Ask(probe) => self.answer(&mut facts, probe),
            }
        }
        panic!("the check does not come to an end");
    }

    fn verdict(&mut self, mut check: impl FnMut(&Facts) -> Verdict) -> Verdict {
        let mut facts = Facts::new();
        for _ in 0..1000 {
            match check(&facts) {
                Verdict::Ask(probe) => self.answer(&mut facts, probe),
                done => return done,
            }
        }
        panic!("the check does not come to an end");
    }
}

/// Read a file of which size and time, and contents, are as given.
fn snapshot(content: Option<&Vec<u8>>, meta: Option<FileMeta>) -> Option<FileSnapshot> {
    let mut reading = FileReading::new();
    loop {
        match reading.next() {
            ReadStep::Meta => reading.answer(ReadAnswer::Meta(meta)),
            ReadStep::Content => reading.answer(ReadAnswer::Content(content.cloned())),
            ReadStep::Done => return reading.finish(),
        }
    }
}

fn input() -> CheckInput {
    CheckInput {
        project_dir: path("/p"),
        modules_dir: path("/p/node_modules"),
        lockfile_basename: "aube-lock.yaml".to_string(),
        preferred_lockfile: "aube-lock.yaml".to_string(),
    }
}

#[test]
fn relative_path_helper_keeps_original_path_when_diff_fails() {
    let original = path("/tmp/aube-test/package.json");
    let base = path("project/../project");

    assert_eq!(relative_path_or_original(&original, &base), "/tmp/aube-test/package.json");
}

#[test]
fn relative_paths_lead_from_base_to_path() {
    assert_eq!(relative_path_or_original(&path("/p/packages/a/package.json"), &path("/p")), "packages/a/package.json");
    assert_eq!(relative_path_or_original(&path("/p/a"), &path("/p/b/c")), "../../a");
    assert_eq!(relative_path_or_original(&path("/p/a\\b"), &path("/p")), "a/b");
    assert_eq!(relative_path_or_original(&path("/p/.."), &path("/p")), "..");
    assert_eq!(relative_path_or_original(&path("/p/a"), &path("/p/../q")), "/p/a");
    assert_eq!(relative_path_or_original(&path("/p/../a"), &path("/p/../q")), "../a");
    assert_eq!(relative_path_or_original(&path("a/b"), &path("./c")), "a/../b");
    assert_eq!(relative_path_or_original(&path("./a"), &path("c")), ".././a");
    assert_eq!(relative_path_or_original(&path("/p"), &path("/p/../q")), "../..");
}

#[test]
fn hoisted_placement_sidecar_preserves_exact_conflicting_version_paths() {
    let project_dir = path("/work/exact-hoisted-placements");
    let root_v2 = project_dir.join("node_modules/foo");
    let nested_v1 = project_dir.join("node_modules/bar/node_modules/foo");
    let placements = HoistedPlacements::from_package_dirs(map(vec![
        ("foo@1.0.0", vec![nested_v1.copy()]),
        ("foo@2.0.0", vec![root_v2.copy()]),
    ]));

    let bytes = write_hoisted_placements(&project_dir, Some(&placements)).unwrap();
    let written = parse_placements(&bytes).unwrap();
    assert_eq!(written.get("foo@1.0.0").unwrap(), &vec!["node_modules/bar/node_modules/foo".to_string()]);
    assert_eq!(written.get("foo@2.0.0").unwrap(), &vec!["node_modules/foo".to_string()]);
    let existing = vec![root_v2.copy(), nested_v1.copy()];
    let restored = read_hoisted_placements(&project_dir, Some(&written), &existing).unwrap();

    assert!(restored.package_dir("foo@1.0.0").unwrap().same(&nested_v1));
    assert!(restored.package_dir("foo@2.0.0").unwrap().same(&root_v2));
    assert_eq!(listing(&restored), listing(&placements));
    assert!(write_hoisted_placements(&project_dir, None).is_none());
    assert!(read_hoisted_placements(&project_dir, None, &existing).is_none());
    assert!(remove_state(Deletion::Done));
}

fn listing(placements: &HoistedPlacements) -> Vec<(String, String)> {
    placements.iter().iter().map(|(dep_path, dir)| (dep_path.to_string(), dir.to_text())).collect()
}

#[test]
fn a_listing_comes_back_as_it_was_recorded() {
    let project_dir = path("/p");
    let dirs = ["node_modules/a/node_modules/foo", "node_modules/foo", "node_modules/b/node_modules/foo"];
    let dirs: Vec<FsPath> = dirs.iter().map(|d| project_dir.join(d)).collect();
    let placements = HoistedPlacements::from_package_dirs(map(vec![
        ("foo@2.0.0", vec![dirs[1].copy()]),
        ("bar@1.0.0", Vec::new()),
        ("foo@1.0.0", vec![dirs[2].copy(), dirs[0].copy()]),
    ]));
    let expected: Vec<(String, String)> = [
        ("foo@1.0.0", "/p/node_modules/b/node_modules/foo"),
        ("foo@1.0.0", "/p/node_modules/a/node_modules/foo"),
        ("foo@2.0.0", "/p/node_modules/foo"),
    ]
    .iter()
    .map(|(k, d)| (k.to_string(), d.to_string()))
    .collect();
    assert_eq!(listing(&placements), expected);
    assert_eq!(
        record_placements(&project_dir, &placements).get("foo@1.0.0"),
        Some(&vec!["node_modules/b/node_modules/foo".to_string(), "node_modules/a/node_modules/foo".to_string()])
    );
    let bytes = write_hoisted_placements(&project_dir, Some(&placements)).unwrap();
    let text = r#"{"foo@1.0.0":["node_modules/b/node_modules/foo","node_modules/a/node_modules/foo"],"foo@2.0.0":["node_modules/foo"]}"#;
    assert_eq!(std::str::from_utf8(&bytes), Ok(text));
    let written = parse_placements(&bytes).unwrap();
    assert!(written.get("bar@1.0.0").is_none());
    let restored = read_hoisted_placements(&project_dir, Some(&written), &dirs).unwrap();
    assert_eq!(listing(&restored), expected);
}

#[test]
fn what_is_no_record_is_not_read() {
    for bytes in ["", "null", "[]", "{", r#"{"a":"b"}"#, r#"{"a":[1]}"#, r#"{"a":null}"#, "{}x"] {
        assert!(parse_placements(bytes.as_bytes()).is_none(), "{bytes}");
    }
    assert!(parse_placements(&[b'{', b'"', 0xff, b'"', b':', b'[', b']', b'}']).is_none());
    let read = parse_placements(br#" { "b": [], "a": ["x"], "a": ["y", "z"] } "#).unwrap();
    assert_eq!(read.len(), 2);
    assert_eq!(read.get("a"), Some(&vec!["y".to_string(), "z".to_string()]));
    assert_eq!(read.get("b"), Some(&Vec::new()));
}

#[test]
fn any_name_is_written_so_that_it_is_read_again() {
    let project_dir = path("/p");
    let names = ["quote\"d", "tab\tline\nend\u{1}", "\u{e9}\u{1f600}", "(react@18.0.0)", " "];
    let dirs: Vec<FsPath> = names.iter().map(|n| project_dir.join("node_modules").join(n)).collect();
    let pairs = names.iter().zip(&dirs).map(|(n, d)| (*n, vec![d.copy()])).collect();
    let placements = HoistedPlacements::from_package_dirs(map(pairs));
    let bytes = write_hoisted_placements(&project_dir, Some(&placements)).unwrap();
    let written = parse_placements(&bytes).unwrap();
    let restored = read_hoisted_placements(&project_dir, Some(&written), &dirs).unwrap();
    assert_eq!(listing(&restored), listing(&placements));
}

#[test]
fn placements_whose_directory_is_gone_are_not_restored() {
    let project_dir = path("/p");
    let written = map(vec![("foo@1.0.0", vec!["node_modules/foo".to_string()])]);
    let restored = read_hoisted_placements(&project_dir, Some(&written), &Vec::new()).unwrap();
    assert!(restored.package_dir("foo@1.0.0").is_none());
}

#[test]
fn verify_install_layout_treats_legacy_empty_hash_as_cache_miss() {
    let project_dir = path("/work/legacy-empty-hash");
    let mut layout = layout_state();
    layout.packages.insert(
        "is-odd@3.0.1".to_string(),
        InstalledPackageState {
            name: "is-odd".to_string(),
            version: "3.0.1".to_string(),
            package_json_path: "node_modules/.aube/missing/node_modules/is-odd/package.json".to_string(),
            package_json_hash: empty_blake3_hash().to_string(),
            link: false,
        },
    );

    let mut disk = Disk::default();
    assert_eq!(
        disk.settle(|facts| verify_install_layout(&project_dir, Some(&layout), facts)),
        Some(
            "installed package metadata missing: node_modules/.aube/missing/node_modules/is-odd/package.json"
                .to_string()
        )
    );
}

#[test]
fn verify_install_layout_treats_dangling_link_symlink_as_installed() {
    let project_dir = path("/work/dangling-link");
    let mut layout = layout_state();
    layout.direct_entries.insert(".".to_string(), vec!["node_modules/@scope/api".to_string()]);
    layout.packages.insert(
        "@scope/api@link:../api/dist".to_string(),
        InstalledPackageState {
            name: "@scope/api".to_string(),
            version: "0.0.0".to_string(),
            package_json_path: "../api/dist/package.json".to_string(),
            package_json_hash: String::new(),
            link: true,
        },
    );
    // The link is there; what it leads to is not.
    let mut disk = Disk { entries: vec!["node_modules/@scope/api".to_string()], ..Disk::default() };

    assert_eq!(disk.settle(|facts| verify_install_layout(&project_dir, Some(&layout), facts)), None);
}

#[test]
fn verify_install_layout_flags_missing_link_symlink() {
    let project_dir = path("/work/missing-link");
    let mut layout = layout_state();
    layout.direct_entries.insert(".".to_string(), vec!["node_modules/@scope/api".to_string()]);

    let mut disk = Disk::default();
    assert_eq!(
        disk.settle(|facts| verify_install_layout(&project_dir, Some(&layout), facts)),
        Some("installed entry missing: node_modules/@scope/api".to_string())
    );
}

#[test]
fn verify_install_layout_flags_retargeted_gvs_nested_link() {
    let project_dir = path("/work/retargeted-gvs-link");
    let link = "node_modules/.aube/parent@1.0.0/node_modules/child";
    let mut layout = layout_state();
    layout.modules_dir_name = "node_modules".to_string();
    layout.virtual_store_dir_max_length = Some(120);
    layout.gvs_nested_links = Some(texts(&[(link, "../../child@1.0.0/node_modules/child")]));

    let mut facts = Facts::new();
    assert_eq!(gvs_nested_links_are_current(&layout, &facts), None);
    facts.links = Some(texts(&[(link, "../../child@1.0.0/node_modules/child")]));
    assert_eq!(gvs_nested_links_are_current(&layout, &facts), Some(true));

    facts.links = Some(texts(&[(link, "../../child@1.0.0-stale/node_modules/child")]));
    assert_eq!(
        verify_install_layout(&project_dir, Some(&layout), &facts),
        Check::Stale(
            "global virtual store link changed: node_modules/.aube/parent@1.0.0/node_modules/child".to_string()
        )
    );
    assert_eq!(gvs_nested_links_are_current(&layout, &facts), Some(false));

    facts.links = Some(StrMap::new());
    assert_eq!(
        verify_install_layout(&project_dir, Some(&layout), &facts),
        Check::Stale(
            "global virtual store link missing: node_modules/.aube/parent@1.0.0/node_modules/child".to_string()
        )
    );
}

#[test]
fn installed_manifest_is_held_to_its_record() {
    let project_dir = path("/p");
    let file = "node_modules/x/package.json";
    let mut layout = layout_state();
    layout.packages.insert(
        "x@1.0.0".to_string(),
        InstalledPackageState {
            name: "x".to_string(),
            version: "1.0.0".to_string(),
            package_json_path: file.to_string(),
            package_json_hash: hash_bytes(b"{}"),
            link: false,
        },
    );
    let mut facts = Facts::new();
    facts.content.insert(format!("/p/{file}"), Some(b"{}".to_vec()));
    assert_eq!(verify_install_layout(&project_dir, Some(&layout), &facts), Check::Pass);

    facts.content.insert(format!("/p/{file}"), Some(b"{ }".to_vec()));
    assert_eq!(
        verify_install_layout(&project_dir, Some(&layout), &facts),
        Check::Ask(Probe::Manifest(path("/p/node_modules/x/package.json")))
    );
    facts.manifest.insert(
        format!("/p/{file}"),
        ManifestFact::Found { name: "x".to_string(), version: "1.0.0".to_string() },
    );
    assert_eq!(verify_install_layout(&project_dir, Some(&layout), &facts), Check::Pass);
    facts.manifest.insert(
        format!("/p/{file}"),
        ManifestFact::Found { name: "x".to_string(), version: "2.0.0".to_string() },
    );
    assert_eq!(
        verify_install_layout(&project_dir, Some(&layout), &facts),
        Check::Stale(format!("installed package metadata changed: {file}"))
    );
    facts.manifest.insert(format!("/p/{file}"), ManifestFact::Unreadable);
    assert_eq!(
        verify_install_layout(&project_dir, Some(&layout), &facts),
        Check::Stale(format!("installed package metadata unreadable: {file}"))
    );
}

fn dep(name: &str, dep_path: &str) -> DirectDep {
    DirectDep {
        name: name.to_string(),
        dep_path: dep_path.to_string(),
        dep_type: DepType::Production,
        specifier: None,
    }
}

fn write_layout(node_linker: NodeLinker, placements: Option<HoistedPlacements>, gvs: bool) -> WriteStateLayout {
    WriteStateLayout {
        node_linker,
        hoisting_limits: HoistingLimits::Unlimited,
        modules_dir_name: "node_modules".to_string(),
        virtual_store_dir_max_length: 120,
        placements,
        use_global_virtual_store: gvs,
        package_dirs: StrMap::new(),
        manifests: StrMap::new(),
        shareable: StrSet::new(),
        linked: StrSet::new(),
        store_entries: StrMap::new(),
    }
}

#[test]
fn from_graph_records_direct_entries_for_every_importer() {
    let project_dir = path("/work/layout-all-importers");
    let mut graph = LockfileGraph::default();
    graph.importers.insert(
        ".".to_string(),
        Importer { physical: true, dependencies: vec![dep("is-odd", "is-odd@3.0.1")] },
    );
    graph.importers.insert(
        "packages/svc".to_string(),
        Importer { physical: true, dependencies: vec![dep("zod", "zod@3.23.8")] },
    );

    let layout =
        InstallLayoutState::from_graph(&project_dir, &write_layout(NodeLinker::Isolated, None, false), &graph);

    assert_eq!(layout.direct_entries.get("."), Some(&vec!["node_modules/is-odd".to_string()]));
    assert_eq!(
        layout.direct_entries.get("packages/svc"),
        Some(&vec!["packages/svc/node_modules/zod".to_string()])
    );
}

fn parent_graph(name: &str, dep_path: &str, child: &str) -> LockfileGraph {
    let mut graph = LockfileGraph::default();
    let mut dependencies = StrMap::new();
    dependencies.insert(
        child.to_string(),
        DependencyEdge { tail: "1.0.0".to_string(), shared_dep_path: None },
    );
    graph.packages.insert(
        dep_path.to_string(),
        LockedPackage {
            name: name.to_string(),
            version: "1.0.0".to_string(),
            dep_path: dep_path.to_string(),
            dependencies,
            ..Default::default()
        },
    );
    graph
}

#[test]
fn from_graph_records_scoped_gvs_links_from_package_node_modules() {
    let project_dir = path("/work/scoped-gvs-links");
    let dep_path = "@scope/parent@1.0.0";
    let entry_name = "@scope+parent@1.0.0";
    let modules = project_dir.join("node_modules/.aube").join(entry_name).join("node_modules");
    let graph = parent_graph("@scope/parent", dep_path, "child");
    let mut layout = write_layout(NodeLinker::Isolated, None, true);
    layout.package_dirs.insert(dep_path.to_string(), modules.join("@scope/parent"));
    layout.linked.insert(dep_path.to_string());
    layout.store_entries.insert(
        dep_path.to_string(),
        StoreEntry { modules_dir: modules, targets: texts(&[("child", "../../child@1.0.0/node_modules/child")]) },
    );

    let layout = InstallLayoutState::from_graph(&project_dir, &layout, &graph);

    let expected_path = format!("node_modules/.aube/{entry_name}/node_modules/child");
    assert_eq!(
        layout.gvs_nested_links.as_ref().and_then(|links| links.get(&expected_path)),
        Some(&"../../child@1.0.0/node_modules/child".to_string())
    );
}

#[test]
fn from_graph_skips_unreadable_gvs_link_topology() {
    let project_dir = path("/work/unreadable-gvs-links");
    let dep_path = "parent@1.0.0";
    let modules = project_dir.join("node_modules/.aube/parent@1.0.0/node_modules");
    let graph = parent_graph("parent", dep_path, "missing");
    let mut layout = write_layout(NodeLinker::Isolated, None, true);
    layout.package_dirs.insert(dep_path.to_string(), modules.join("parent"));
    layout.linked.insert(dep_path.to_string());
    layout.store_entries.insert(
        dep_path.to_string(),
        StoreEntry { modules_dir: modules, targets: StrMap::new() },
    );

    let layout = InstallLayoutState::from_graph(&project_dir, &layout, &graph);

    assert!(layout.gvs_nested_links.is_none());
}

#[test]
fn from_graph_records_visible_hoisted_entries_for_workspace_importers() {
    let project_dir = path("/work/layout-hoisted-importer");
    let mut graph = LockfileGraph::default();
    graph.importers.insert(".".to_string(), Importer { physical: true, dependencies: Vec::new() });
    graph.importers.insert(
        "packages/app".to_string(),
        Importer { physical: true, dependencies: vec![dep("is-number", "is-number@7.0.0")] },
    );
    let placements = HoistedPlacements::from_package_dirs(map(vec![(
        "is-number@7.0.0",
        vec![project_dir.join("node_modules/is-number")],
    )]));

    let layout = InstallLayoutState::from_graph(
        &project_dir,
        &write_layout(NodeLinker::Hoisted, Some(placements), false),
        &graph,
    );

    assert_eq!(layout.direct_entries.get("packages/app"), Some(&vec!["node_modules/is-number".to_string()]));
    assert_eq!(layout.linker, InstallLayoutMode::Hoisted);
}

#[test]
fn collect_package_json_hashes_from_manifests_uses_file_paths_for_workspaces() {
    let project_dir = path("/work/manifest-hash-keys");
    let root = b"{\"name\":\"root\"}".to_vec();
    let foo = b"{\"name\":\"foo\"}".to_vec();
    let rels = vec![".".to_string(), "packages/foo".to_string()];

    let files = vec![snapshot(Some(&root), None), snapshot(Some(&foo), None)];
    let (hashes, _) = collect_package_json_hashes_from_manifests(&project_dir, &rels, &files);

    assert_eq!(hashes.get("."), Some(&hash_file(&Some(root))));
    assert_eq!(hashes.get("packages/foo/package.json"), Some(&hash_file(&Some(foo))));
}

#[test]
fn state_json_migrates_fresh_state_without_delta_maps() {
    let mut state = install_state();
    state.lockfile_hash = "blake3:lock".to_string();
    state.package_json_hashes = texts(&[(".", "blake3:pkg")]);
    state.settings_hash = "blake3:settings".to_string();
    state.package_content_hashes = texts(&[("is-odd@3.0.1", "blake3:content")]);
    state.graph_lthash = "abcdef".to_string();
    state.package_subtree_hashes = texts(&[("is-odd@3.0.1", "blake3:subtree")]);
    state.package_json_shape_digests = texts(&[(".", "shape")]);
    state.layout = Some(layout_state());

    let (migrated, written) =
        read_or_migrate_fresh_state(StoredState { at: StatePath::Directory, fresh: None, full: Some(state) });
    let migrated = migrated.unwrap();
    assert_eq!(migrated.lockfile_hash, "blake3:lock");
    assert!(written);
    let fresh = format!("{migrated:?}");
    assert!(fresh.contains("package_json_hashes"));
    assert!(!fresh.contains("package_content_hashes"));
    assert!(!fresh.contains("package_subtree_hashes"));
}

#[test]
fn legacy_state_file_is_deleted_instead_of_migrated() {
    let stored = StoredState { at: StatePath::LegacyFile, fresh: None, full: Some(install_state()) };
    let (fresh, written) = read_or_migrate_fresh_state(stored);
    assert!(fresh.is_none());
    assert!(!written);
    assert!(removes_legacy_file(StatePath::LegacyFile));
    assert!(!removes_legacy_file(StatePath::Directory));
    assert!(!removes_legacy_file(StatePath::Nothing));
}

#[test]
fn unreviewed_builds_roundtrip_persists_into_fresh_state() {
    let mut state = install_state();
    state.lockfile_hash = "blake3:lock".to_string();
    state.unreviewed_builds = vec!["esbuild@0.21.5".to_string(), "better-sqlite3@11.5.0".to_string()];
    let stored = StoredState { at: StatePath::Directory, fresh: None, full: Some(state) };
    let (first, _) = read_or_migrate_fresh_state(stored);
    let stored = StoredState { at: StatePath::Directory, fresh: first, full: None };
    let (second, written) = read_or_migrate_fresh_state(stored);
    assert!(!written);
    assert_eq!(
        read_state_unreviewed_builds(second),
        vec!["esbuild@0.21.5".to_string(), "better-sqlite3@11.5.0".to_string()]
    );
}

#[test]
fn unreviewed_builds_default_when_field_missing_in_state() {
    let mut state = install_state();
    state.lockfile_hash = "blake3:lock".to_string();
    state.aube_version = "0.0.0".to_string();
    let (fresh, _) =
        read_or_migrate_fresh_state(StoredState { at: StatePath::Directory, fresh: None, full: Some(state) });
    assert!(read_state_unreviewed_builds(fresh).is_empty());
    assert!(read_state_unreviewed_builds(None).is_empty());
}

#[test]
fn remove_state_deletes_directory_and_legacy_file() {
    assert_eq!(state_removal(true), Removal::Tree);
    assert!(remove_state(Deletion::Done));
    assert_eq!(state_removal(false), Removal::File);
    assert!(remove_state(Deletion::NotFound));
    assert!(!remove_state(Deletion::Failed));
}

#[test]
fn shape_digest_keeps_fast_path_on_cosmetic_edit() {
    let original = "{\n  \"name\": \"x\",\n  \"dependencies\": { \"react\": \"19.0.0\" },\n  \"scripts\": { \"test\": \"vitest\" }\n}";
    let reformatted = "{\n  \"name\": \"x\",\n  \"dependencies\": { \"react\": \"19.0.0\" },\n  \"scripts\": { \"test\": \"jest\" }\n}\n";
    let shape = vec![0x0f, 0xa0, 0x01];
    let mut state = install_state();
    state.package_json_hashes = texts(&[(".", &hash_bytes(original.as_bytes()))]);
    state.package_json_shape_digests = texts(&[(".", "0fa001")]);
    let state = FreshnessState::from_state(&state);

    let mut disk = Disk::default();
    disk.write("/p/package.json", original, 1);
    disk.shapes.insert("/p/package.json".to_string(), shape.clone());
    assert_eq!(disk.settle(|facts| package_jsons_stale(&input(), &state, facts)), None);

    disk.write("/p/package.json", reformatted, 2);
    assert_eq!(disk.settle(|facts| package_jsons_stale(&input(), &state, facts)), None);

    disk.shapes.insert("/p/package.json".to_string(), vec![0x0f, 0xa0, 0x02]);
    assert_eq!(
        disk.settle(|facts| package_jsons_stale(&input(), &state, facts)),
        Some("package.json has changed".to_string())
    );
}

#[test]
fn member_lockfiles_stale_detects_edit_add_and_remove() {
    let a = "/p/packages/a/aube-lock.yaml";
    let b = "/p/packages/b/aube-lock.yaml";
    let c = "/p/packages/c/aube-lock.yaml";
    let mut disk = Disk::default();
    disk.write(a, "lockfileVersion: '9.0'\n# a\n", 1);
    disk.write(b, "lockfileVersion: '9.0'\n# b\n", 1);
    disk.members = vec!["/p/packages/a".to_string(), "/p/packages/b".to_string()];
    let mut state = install_state();
    state.member_lockfile_hashes = texts(&[
        ("packages/a", &hash_file(&disk.files.get(a).cloned())),
        ("packages/b", &hash_file(&disk.files.get(b).cloned())),
    ]);
    let state = FreshnessState::from_state(&state);
    let mut stale = |disk: &mut Disk| disk.settle(|facts| member_lockfiles_stale(&input(), &state, facts));

    assert_eq!(stale(&mut disk), None);

    disk.write(a, "lockfileVersion: '9.0'\n# a edited\n", 2);
    assert_eq!(stale(&mut disk), Some("packages/a lockfile has changed".to_string()));
    disk.write(a, "lockfileVersion: '9.0'\n# a\n", 3);
    assert_eq!(stale(&mut disk), None);

    disk.write(c, "lockfileVersion: '9.0'\n# c\n", 4);
    disk.members.push("/p/packages/c".to_string());
    assert_eq!(stale(&mut disk), Some("packages/c is a new workspace member".to_string()));
    disk.files.remove(c);
    disk.members.pop();

    disk.files.remove(b);
    disk.members.pop();
    assert_eq!(stale(&mut disk), Some("packages/b was removed from the workspace".to_string()));
}

fn settings() -> SettingsSnapshot {
    SettingsSnapshot {
        node_linker: "isolated".to_string(),
        hoist: true,
        shamefully_hoist: false,
        hoist_pattern: vec!["*".to_string()],
        public_hoist_pattern: Vec::new(),
        modules_dir: "node_modules".to_string(),
        package_import_method: "auto".to_string(),
        enable_global_virtual_store: None,
        cache_dir: b"/host/cache".to_vec(),
        store_dir: None,
        lockfile: true,
        catalog_prune: false,
        enable_modules_dir: true,
        virtual_store_only: false,
        hoist_workspace_packages: true,
        hoisting_limits: "none".to_string(),
        dedupe_direct_deps: false,
        symlink: true,
        disable_gvs_for_packages: Vec::new(),
        pnpmfile: None,
        os: "linux".to_string(),
        arch: "x86_64".to_string(),
        libc: "glibc".to_string(),
        contents: contents(),
    }
}

fn contents() -> SettingsContents {
    SettingsContents {
        pnpm_workspace: None,
        own_workspace: None,
        project_npmrc: None,
        user_npmrc: None,
        patches_sidecar: None,
        patches: StrMap::new(),
    }
}

fn digest(s: &SettingsSnapshot) -> String {
    hash_settings(&path("/p"), Some(&path("/home/u")), &Embedder::standalone(), s)
}

fn with_hook(body: &str) -> SettingsSnapshot {
    SettingsSnapshot {
        pnpmfile: Some(LabeledFile {
            label: b"/work/.pnpmfile.mjs".to_vec(),
            content: Some(body.as_bytes().to_vec()),
        }),
        ..settings()
    }
}

#[test]
fn settings_hash_busts_warm_path_on_pnpmfile_change() {
    let baseline = digest(&settings());
    let with_file = digest(&with_hook("export function readPackage(p){return p}\n"));
    assert_ne!(baseline, with_file, "adding a pnpmfile must bust the hash");
    let edited = digest(&with_hook("export function readPackage(p){p.dependencies={};return p}\n"));
    assert_ne!(with_file, edited, "editing a pnpmfile must bust the hash");
    assert_eq!(baseline, digest(&settings()), "removing the pnpmfile must restore the baseline hash");
    assert!(baseline.starts_with("blake3:"));
}

#[test]
fn settings_hash_busts_warm_path_on_storage_override_change() {
    let with = |cache: &str, store: &str| {
        digest(&SettingsSnapshot {
            cache_dir: cache.as_bytes().to_vec(),
            store_dir: Some(store.as_bytes().to_vec()),
            ..settings()
        })
    };
    let first = with("/host/cache-a", "/host/store-a");
    let changed_cache = with("/host/cache-b", "/host/store-a");
    let changed_store = with("/host/cache-a", "/host/store-b");

    assert_ne!(first, changed_cache);
    assert_ne!(first, changed_store);
}

#[test]
fn settings_are_read_from_these_files() {
    let own = Embedder::standalone();
    let files = settings_files(&path("/p"), Some(&path("/home/u")), &own);
    assert_eq!(files.pnpm_workspace.to_text(), "/p/pnpm-workspace.yaml");
    let (name, file) = files.own_workspace.unwrap();
    assert_eq!((name.as_str(), file.to_text().as_str()), ("aube-workspace.yaml", "/p/aube-workspace.yaml"));
    assert_eq!(files.project_npmrc.to_text(), "/p/.npmrc");
    assert_eq!(files.user_npmrc.unwrap().to_text(), "/home/u/.npmrc");
    assert_eq!(files.patches_sidecar.0, ".aube-patches.json");
    assert_eq!(files.patches_sidecar.1.to_text(), "/p/.aube-patches.json");
    assert_eq!(files.patches_dir.to_text(), "/p/patches");
    let bare = Embedder { name: "host".to_string(), workspace_yaml: None, ..Embedder::standalone() };
    let files = settings_files(&path("/p"), None, &bare);
    assert!(files.own_workspace.is_none());
    assert!(files.user_npmrc.is_none());
    assert_eq!(files.patches_sidecar.0, ".host-patches.json");
}

#[test]
fn files_go_into_the_digest_under_their_names() {
    let mut s = settings();
    s.contents.pnpm_workspace = Some(b"W".to_vec());
    s.contents.user_npmrc = Some(b"token".to_vec());
    s.contents.patches_sidecar = Some(b"S".to_vec());
    s.contents.patches = map(vec![("b.patch", None), ("a.patch", Some(b"A".to_vec()))]);
    let files = settings_files(&path("/p"), Some(&path("/home/u")), &Embedder::standalone());
    let bytes = settings_bytes(&files, &s);
    let text = String::from_utf8(bytes).unwrap();
    let from = text.find("workspace_yaml=").unwrap();
    assert_eq!(
        &text[from..],
        "workspace_yaml=pnpm-workspace.yaml\x1fW\x1eaube-workspace.yaml\x1f\x1e\0\
         npmrc=/p/.npmrc\x1f\x1e/home/u/.npmrc\x1ftoken\x1e\0pnpmfile=\0\
         host=linux\x1fx86_64\x1fglibc\0\
         patches=.aube-patches.json\x1fS\x1ea.patch\x1fA\x1eb.patch\x1f\x1e\0"
    );
}

#[test]
fn a_change_in_any_settings_file_is_noticed() {
    let baseline = digest(&settings());
    let changed: Vec<fn(&mut SettingsContents)> = vec![
        |c| c.pnpm_workspace = Some(b"x".to_vec()),
        |c| c.own_workspace = Some(b"x".to_vec()),
        |c| c.project_npmrc = Some(b"registry=https://r".to_vec()),
        |c| c.user_npmrc = Some(b"//r/:_authToken=t".to_vec()),
        |c| c.patches_sidecar = Some(Vec::new()),
        |c| {
            c.patches.insert("a.patch".to_string(), None);
        },
    ];
    let mut seen = vec![baseline];
    for change in changed {
        let mut s = settings();
        change(&mut s.contents);
        let hash = digest(&s);
        assert!(!seen.contains(&hash));
        seen.push(hash);
    }
    let patched = |body: &str| {
        let mut s = settings();
        s.contents.patches = map(vec![("a.patch", Some(body.as_bytes().to_vec())), ("b.patch", None)]);
        digest(&s)
    };
    assert_ne!(patched("1"), patched("2"));
}

#[test]
fn digests_are_tagged_blake3() {
    assert_eq!(hash_bytes(b""), empty_blake3_hash());
    assert_eq!(
        hash_bytes(b"abc"),
        "blake3:6437b3ac38465133ffb63b75273a8db548c558465d79db03fd359c6cd5bd9d85"
    );
    assert_eq!(hash_file(&None), empty_blake3_hash());
    assert_eq!(hash_file_if_exists(&None), None);
    assert_eq!(hash_file_if_exists(&Some(b"abc".to_vec())), Some(hash_bytes(b"abc")));
    assert_eq!(
        digest_hex(&b"abc".to_vec()),
        "6437b3ac38465133ffb63b75273a8db548c558465d79db03fd359c6cd5bd9d85"
    );
}

#[test]
fn lockfiles_are_looked_for_in_order() {
    let names = lockfile_candidates("aube-lock.yaml", "aube-lock.feature.yaml");
    assert_eq!(
        names,
        vec![
            "aube-lock.feature.yaml",
            "aube-lock.yaml",
            "pnpm-lock.feature.yaml",
            "pnpm-lock.yaml",
            "bun.lock",
            "yarn.lock",
            "npm-shrinkwrap.json",
            "package-lock.json",
        ]
    );
    assert_eq!(active_lockfile(&vec![false, true, true]), Some(1));
    assert_eq!(active_lockfile(&vec![false, false]), None);
}

/// A project that was just installed: a lockfile, a manifest, one entry.
fn installed() -> (Disk, FreshnessState) {
    let mut disk = Disk::default();
    disk.write("/p/aube-lock.yaml", "lock", 1);
    disk.write("/p/package.json", "{}", 1);
    disk.dirs.push("/p/node_modules".to_string());
    disk.entries.push("node_modules/x".to_string());
    disk.settings = "blake3:settings".to_string();
    disk.fingerprints.insert("/p/local".to_string(), ("content".to_string(), "metadata".to_string()));
    let mut layout = layout_state();
    layout.modules_dir_name = "node_modules".to_string();
    layout.direct_entries.insert(".".to_string(), vec!["node_modules/x".to_string()]);
    let lockfile = snapshot(disk.files.get("/p/aube-lock.yaml"), disk.meta("/p/aube-lock.yaml"));
    let manifest = snapshot(disk.files.get("/p/package.json"), disk.meta("/p/package.json"));
    let (package_json_hashes, manifest_meta) =
        collect_package_json_hashes_from_manifests(&path("/p"), &vec![".".to_string()], &vec![manifest]);
    let state = write_state(WriteStateInput {
        section_filtered: false,
        package_json_hashes,
        package_content_hashes: StrMap::new(),
        graph_lthash: String::new(),
        package_subtree_hashes: StrMap::new(),
        unreviewed_builds: Vec::new(),
        aube_version: "1.0.0".to_string(),
        layout,
        settings_hash: "blake3:settings".to_string(),
        lockfile: snapshot_active_lockfile("aube-lock.yaml", lockfile.as_ref()),
        members: (StrMap::new(), StrMap::new()),
        local_directory_hashes: map(vec![(
            "local",
            LocalDirectoryFingerprint {
                content_hash: "content".to_string(),
                metadata_hash: "metadata".to_string(),
            },
        )]),
        shapes: StrMap::new(),
        manifest_meta,
    });
    (disk, state.1)
}

fn reason(verdict: Verdict) -> Option<String> {
    match verdict {
        Verdict::Stale(reason) => Some(reason),
        _ => None,
    }
}

#[test]
fn a_tree_that_was_just_installed_is_fresh() {
    let (mut disk, state) = installed();
    let verdict = disk.verdict(|facts| check_needs_install_with_flags(&input(), Some(&state), facts));
    match verdict {
        Verdict::Fresh(refresh) => assert!(!refresh.is_needed()),
        other => panic!("{other:?}"),
    }
    assert_eq!(disk.reads, 0);
}

#[test]
fn every_change_is_noticed() {
    let (mut disk, state) = installed();
    let mut check =
        |disk: &mut Disk| reason(disk.verdict(|facts| check_needs_install_with_flags(&input(), Some(&state), facts)));

    disk.write("/p/aube-lock.yaml", "kcol", 2);
    assert!(check(&mut disk).is_some());
    disk.write("/p/aube-lock.yaml", "lock", 1);
    assert_eq!(check(&mut disk), None);

    disk.write("/p/package.json", "{ }", 2);
    assert!(check(&mut disk).is_some());
    disk.write("/p/package.json", "{}", 1);

    disk.settings = "blake3:other".to_string();
    assert!(check(&mut disk).is_some());
    disk.settings = "blake3:settings".to_string();

    disk.entries.clear();
    assert_eq!(check(&mut disk), Some("installed entry missing: node_modules/x".to_string()));
    disk.entries.push("node_modules/x".to_string());

    disk.fingerprints.insert("/p/local".to_string(), ("other".to_string(), "moved".to_string()));
    assert!(check(&mut disk).is_some());
    disk.fingerprints.insert("/p/local".to_string(), ("content".to_string(), "metadata".to_string()));

    disk.dirs.clear();
    assert!(check(&mut disk).is_some());
}

#[test]
fn settings_count_only_where_they_are_asked_for() {
    let (mut disk, state) = installed();
    disk.settings = "blake3:other".to_string();
    assert!(reason(disk.verdict(|facts| check_needs_install(&input(), Some(&state), facts))).is_none());
    assert!(reason(disk.verdict(|facts| check_needs_install_with_flags(&input(), Some(&state), facts))).is_some());
}

#[test]
fn a_project_without_a_state_needs_an_install() {
    let (mut disk, _) = installed();
    assert!(reason(disk.verdict(|facts| check_needs_install(&input(), None, facts))).is_some());
}

#[test]
fn a_touched_lockfile_is_read_once_and_recorded_anew() {
    let (mut disk, state) = installed();
    disk.clock.insert("/p/aube-lock.yaml".to_string(), 7);
    disk.fingerprints.insert("/p/local".to_string(), ("content".to_string(), "moved".to_string()));
    let verdict = disk.verdict(|facts| check_needs_install(&input(), Some(&state), facts));
    let refresh = match verdict {
        Verdict::Fresh(refresh) => refresh,
        other => panic!("{other:?}"),
    };
    assert!(refresh.is_needed());
    assert_eq!(refresh.lockfile_meta, disk.meta("/p/aube-lock.yaml"));
    assert_eq!(refresh.dir_metadata.get("local"), Some(&"moved".to_string()));
    let state = state.refresh(&refresh);
    disk.reads = 0;
    match disk.verdict(|facts| check_needs_install(&input(), Some(&state), facts)) {
        Verdict::Fresh(refresh) => assert!(!refresh.is_needed()),
        other => panic!("{other:?}"),
    }
    assert_eq!(disk.reads, 0);
}

#[test]
fn members_with_lockfiles_of_their_own_are_recorded() {
    let project = path("/p");
    let members = vec![
        MemberLockfile {
            dir: path("/p/packages/a"),
            lockfile: snapshot(Some(&b"lock".to_vec()), Some(FileMeta::capture(4, None))),
        },
        MemberLockfile { dir: path("/p/packages/b"), lockfile: None },
    ];
    let (hashes, metas) = collect_member_lockfile_state(&project, false, Some(&members));
    assert_eq!(hashes.get("packages/a"), Some(&hash_bytes(b"lock")));
    assert_eq!(hashes.get("packages/b"), Some(&String::new()));
    assert_eq!(metas.get("packages/a"), Some(&FileMeta { size: 4, mtime_secs: 0, mtime_nanos: 0 }));
    assert!(metas.get("packages/b").is_none());
    let (hashes, _) = collect_member_lockfile_state(&project, true, Some(&members));
    assert_eq!(hashes.len(), 0);
    let unreadable = vec![MemberLockfile { dir: path("/p/packages/a"), lockfile: snapshot(None, None) }];
    let (hashes, metas) = collect_member_lockfile_state(&project, false, Some(&unreadable));
    assert_eq!(hashes.get("packages/a"), Some(&empty_blake3_hash().to_string()));
    assert_eq!(metas.len(), 0);
}

#[test]
fn size_and_time_are_taken_before_the_contents() {
    let meta = FileMeta::capture(4, Some((1, 0)));
    let mut reading = FileReading::new();
    assert_eq!(reading.next(), ReadStep::Meta);
    // Contents that were not asked for are not taken.
    reading.answer(ReadAnswer::Content(Some(b"old!".to_vec())));
    assert_eq!(reading.next(), ReadStep::Meta);
    reading.answer(ReadAnswer::Meta(Some(meta)));
    assert_eq!(reading.next(), ReadStep::Content);
    reading.answer(ReadAnswer::Meta(Some(FileMeta::capture(9, Some((2, 0))))));
    assert_eq!(reading.next(), ReadStep::Content);
    reading.answer(ReadAnswer::Content(Some(b"lock".to_vec())));
    assert_eq!(reading.next(), ReadStep::Done);
    reading.answer(ReadAnswer::Content(None));
    let file = reading.finish().unwrap();
    assert_eq!(file.meta(), Some(meta));
    assert_eq!(file.digest(), Some(hash_bytes(b"lock").as_str()));
    assert_eq!(file.hash(), hash_bytes(b"lock"));
    assert!(FileReading::new().finish().is_none());
}

#[test]
fn a_write_between_the_two_is_noticed_later() {
    let (mut disk, mut state) = installed();
    // Size and time are those of the old file, the contents those of the new.
    let old = disk.meta("/p/aube-lock.yaml");
    disk.write("/p/aube-lock.yaml", "LOCK", 2);
    let file = snapshot(disk.files.get("/p/aube-lock.yaml"), old);
    let record = snapshot_active_lockfile("aube-lock.yaml", file.as_ref());
    state.lockfile_hash = record.hash;
    state.lockfile_meta = record.meta;
    let verdict = disk.verdict(|facts| check_needs_install(&input(), Some(&state), facts));
    assert!(matches!(verdict, Verdict::Fresh(_)));
    assert!(disk.reads > 0);
    disk.write("/p/aube-lock.yaml", "newer", 3);
    assert!(reason(disk.verdict(|facts| check_needs_install(&input(), Some(&state), facts))).is_some());
}

#[test]
fn a_lockfile_is_recorded_as_far_as_it_can_be_read() {
    let meta = FileMeta::capture(4, Some((1, 5)));
    let read = snapshot_active_lockfile("bun.lock", snapshot(Some(&b"lock".to_vec()), Some(meta)).as_ref());
    assert_eq!((read.hash, read.name, read.meta), (hash_bytes(b"lock"), Some("bun.lock".to_string()), Some(meta)));
    let unreadable = snapshot_active_lockfile("bun.lock", snapshot(None, Some(meta)).as_ref());
    assert_eq!((unreadable.hash, unreadable.name, unreadable.meta), (String::new(), None, Some(meta)));
    let missing = snapshot_active_lockfile("bun.lock", None);
    assert_eq!((missing.hash, missing.name, missing.meta), (String::new(), None, None));
}

#[test]
fn manifests_are_recorded_with_size_and_time() {
    let meta = FileMeta::capture(2, Some((1, 0)));
    let rels = vec![".".to_string(), "a".to_string(), "gone".to_string()];
    let files = vec![snapshot(Some(&b"{}".to_vec()), Some(meta)), snapshot(None, None), None];
    let (hashes, metas) = collect_package_json_hashes_from_manifests(&path("/p"), &rels, &files);
    assert_eq!(hashes.get("."), Some(&hash_bytes(b"{}")));
    assert_eq!(hashes.get("a/package.json"), Some(&empty_blake3_hash().to_string()));
    assert_eq!(hashes.len(), 2);
    assert_eq!(metas.get("."), Some(&meta));
    assert_eq!(metas.len(), 1);
}

#[test]
fn links_are_recorded_of_packages_in_the_shared_store() {
    let mut graph = LockfileGraph::default();
    let sources = [
        ("a@1.0.0", None),
        ("b@1.0.0", None),
        ("c@file:c", Some(LocalSource::Directory("c".to_string()))),
        ("d@git", Some(LocalSource::Other)),
    ];
    for (key, local_source) in sources {
        graph.packages.insert(
            key.to_string(),
            LockedPackage {
                name: key[..1].to_string(),
                version: "1.0.0".to_string(),
                dep_path: key.to_string(),
                local_source,
                ..Default::default()
            },
        );
    }
    let set = |keys: &[&str]| {
        let mut out = StrSet::new();
        for key in keys {
            out.insert(key.to_string());
        }
        out
    };
    let linked = set(&["a@1.0.0", "c@file:c", "d@git"]);
    assert_eq!(shared_store_packages(&graph, &set(&["d@git"]), &linked), vec!["a@1.0.0", "d@git"]);
    assert_eq!(shared_store_packages(&graph, &set(&[]), &linked), vec!["a@1.0.0"]);
    assert!(shared_store_packages(&graph, &set(&["d@git"]), &set(&[])).is_empty());
}

#[test]
fn a_package_in_the_project_itself_has_no_recorded_links() {
    let project_dir = path("/p");
    let graph = parent_graph("parent", "parent@1.0.0", "child");
    let layout = write_layout(NodeLinker::Isolated, None, true);
    let layout = InstallLayoutState::from_graph(&project_dir, &layout, &graph);
    assert_eq!(layout.gvs_nested_links.map(|links| links.len()), Some(0));
}

#[test]
fn licenses_are_kept_while_the_packages_stay() {
    let print = license_state_fingerprint("abc", &texts(&[("x@1.0.0", "blake3:x")]));
    assert_ne!(print, license_state_fingerprint("abc", &texts(&[("x@1.0.0", "blake3:y")])));
    assert_ne!(print, license_state_fingerprint("abd", &texts(&[("x@1.0.0", "blake3:x")])));
    let state = InstallLicenseState {
        fingerprint: print.clone(),
        licenses: texts(&[("x@1.0.0", "MIT")]),
        linked_package_dirs: StrMap::new(),
    };
    assert!(licenses_are_current(Some(&state), &print));
    assert!(!licenses_are_current(Some(&state), "other"));
    assert!(!licenses_are_current(None, &print));
    assert_eq!(read_state_package_licenses(Some(state), None).licenses.get("x@1.0.0"), Some(&"MIT".to_string()));
}

#[test]
fn licenses_come_from_the_graph_or_the_manifest() {
    let mut graph = LockfileGraph::default();
    graph.packages.insert(
        "x@1.0.0".to_string(),
        LockedPackage {
            name: "x".to_string(),
            version: "1.0.0".to_string(),
            dep_path: "x@1.0.0".to_string(),
            license: Some("MIT".to_string()),
            ..Default::default()
        },
    );
    graph.packages.insert(
        "y@1.0.0".to_string(),
        LockedPackage {
            name: "y".to_string(),
            version: "1.0.0".to_string(),
            dep_path: "y@1.0.0".to_string(),
            ..Default::default()
        },
    );
    let state = collect_package_license_state(&path("/p"), &graph, &texts(&[("y@1.0.0", "ISC")]), "print".to_string());
    assert_eq!(state.fingerprint, "print");
    assert_eq!(state.licenses.get("y@1.0.0"), Some(&"ISC".to_string()));
}

#[test]
fn local_directories_are_fingerprinted_or_fail() {
    let mut graph = LockfileGraph::default();
    graph.packages.insert(
        "d@file:./d".to_string(),
        LockedPackage {
            name: "d".to_string(),
            dep_path: "d@file:./d".to_string(),
            local_source: Some(LocalSource::Directory("d".to_string())),
            ..Default::default()
        },
    );
    let dirs = local_directories(&graph);
    assert_eq!(dirs.len(), 1);
    let print = || LocalDirectoryFingerprint { content_hash: "c".to_string(), metadata_hash: "m".to_string() };
    let hashes = collect_local_directory_hashes(&dirs, vec![Some(print())]).unwrap();
    assert_eq!(hashes.len(), 1);
    assert!(collect_local_directory_hashes(&dirs, vec![None]).is_err());
}

#[test]
fn the_first_package_of_a_directory_gives_its_path() {
    let mut graph = LockfileGraph::default();
    let sources = [
        ("a@1", LocalSource::Directory("z\\d".to_string())),
        ("b@1", LocalSource::Portal("y".to_string())),
        ("c@1", LocalSource::Directory("z/d".to_string())),
        ("d@1", LocalSource::Link("x".to_string())),
        ("e@1", LocalSource::Other),
    ];
    for (key, source) in sources {
        graph.packages.insert(
            key.to_string(),
            LockedPackage { dep_path: key.to_string(), local_source: Some(source), ..Default::default() },
        );
    }
    let dirs: Vec<(String, String)> = local_directories(&graph).into_iter().map(|d| (d.key, d.rel)).collect();
    let expected = [("z/d", "z\\d"), ("y", "y")];
    assert_eq!(dirs, expected.map(|(k, r)| (k.to_string(), r.to_string())));
}

#[test]
fn recorded_maps_are_read_back_only_where_they_hold_something() {
    let full = || {
        let mut state = install_state();
        state.package_content_hashes = texts(&[("x@1.0.0", "blake3:x")]);
        state.package_subtree_hashes = texts(&[("x@1.0.0", "blake3:s")]);
        state.graph_lthash = "abc".to_string();
        state.layout = Some(layout_state());
        state
    };
    assert!(read_state_package_content_hashes(Some(full())).is_some());
    assert!(read_state_package_content_hashes(Some(install_state())).is_none());
    assert!(read_state_package_content_hashes(None).is_none());
    assert!(read_state_subtree_hashes(Some(full())).is_some());
    assert!(read_state_subtree_hashes(Some(install_state())).is_none());
    assert!(read_state_layout(Some(full())).is_some());
    assert!(read_state_layout(None).is_none());
    assert!(read_default_state_layout(Some(full())).is_some());
    assert!(read_default_state_layout(Some(install_state())).is_none());
    let delta = read_state_delta_snapshot(Some(full())).unwrap();
    assert_eq!(delta.graph_lthash, Some("abc".to_string()));
}

#[test]
fn state_is_kept_beside_the_modules() {
    let embedder = Embedder::standalone();
    assert_eq!(default_state_dir(&path("/p"), &embedder).to_text(), "/p/node_modules/.aube-state");
    let (modules, state) = resolve_paths(&path("/p"), "node_modules", "", None, &embedder);
    assert_eq!(modules.to_text(), "/p/node_modules");
    assert_eq!(state.to_text(), "/p/node_modules/.aube-state");
}
