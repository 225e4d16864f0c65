//! Putting the recorded state together, and reading it back.
use crate::digest::{hex_encode, hex_text};
use crate::embedder::Embedder;
use crate::fs_path::{path_joined, FsPath};
use crate::state::collect::LockfileRecord;
use crate::state::model::{
    DeltaStateSnapshot, FileMeta, FreshnessState, InstallLayoutState, InstallLicenseState, InstallState,
    LocalDirectoryFingerprint,
};
use crate::str_map::{lemma_all_keys, lemma_first_keys, text_map, StrMap};
use crate::text::same_text;
use vstd::prelude::*;

verus! {

/// The directories of the install and of its state.
///
/// The state lives beside the installed tree unless it was given a directory
/// of its own. `expanded` is that directory as a path, where it can be made one.
pub fn resolve_paths(
    project_dir: &FsPath,
    modules_dir: &str,
    state_dir: &str,
    expanded: Option<FsPath>,
    embedder: &Embedder,
) -> (r: (FsPath, FsPath))
    ensures
        r.0@ == path_joined(project_dir@, modules_dir@),
        r.1@ == path_joined(
            if state_dir@ == "node_modules"@ || expanded is None {
                path_joined(project_dir@, modules_dir@)
            } else {
                expanded->0@
            },
            "."@ + embedder.name@ + "-state"@,
        ),
{
    let modules = project_dir.join(modules_dir);
    let name = embedder.state_dir_name();
    let parent = if same_text(state_dir, "node_modules") {
        modules.copy()
    } else {
        match expanded {
            Some(p) => p,
            None => modules.copy(),
        }
    };
    let state = parent.join(name.as_str());
    (modules, state)
}

/// What an install hands over to be recorded.
#[derive(Debug)]
pub struct WriteStateInput {
    /// The install left out dependency sections.
    pub section_filtered: bool,
    pub package_json_hashes: StrMap<String>,
    pub package_content_hashes: StrMap<String>,
    pub graph_lthash: String,
    pub package_subtree_hashes: StrMap<String>,
    pub unreviewed_builds: Vec<String>,
    pub aube_version: String,
    pub layout: InstallLayoutState,
    pub settings_hash: String,
    pub lockfile: LockfileRecord,
    pub members: (StrMap<String>, StrMap<FileMeta>),
    pub local_directory_hashes: StrMap<LocalDirectoryFingerprint>,
    /// For each manifest the digest of what in it decides about an install,
    /// and its size and time, where they can be had.
    pub shapes: StrMap<Vec<u8>>,
    pub manifest_meta: StrMap<FileMeta>,
}

/// The digests of the recorded manifests' shapes.
pub open spec fn shape_digests(hashes: StrMap<String>, shapes: StrMap<Vec<u8>>) -> Map<Seq<char>, Seq<char>> {
    Map::new(
        |rel: Seq<char>| hashes@.contains_key(rel) && shapes@.contains_key(rel),
        |rel: Seq<char>| hex_text(shapes@[rel]@),
    )
}

/// The snapshots of the recorded manifests.
pub open spec fn manifest_snapshots(hashes: StrMap<String>, metas: StrMap<FileMeta>) -> Map<Seq<char>, FileMeta> {
    Map::new(
        |rel: Seq<char>| hashes@.contains_key(rel) && metas@.contains_key(rel),
        |rel: Seq<char>| metas@[rel],
    )
}

fn collect_shapes(hashes: &StrMap<String>, shapes: &StrMap<Vec<u8>>) -> (r: StrMap<String>)
    ensures
        text_map(r) == shape_digests(*hashes, *shapes),
{
    let ghost all = shape_digests(*hashes, *shapes);
    let mut out: StrMap<String> = StrMap::new();
    let total = hashes.len();
    let mut i: usize = 0;
    proof {
        lemma_all_keys(*hashes);
    }
    while i < total
        invariant
            i <= total,
            total == hashes.keys().len(),
            all == shape_digests(*hashes, *shapes),
            forall|k: Seq<char>| #[trigger]
                text_map(out).contains_key(k) <==> all.contains_key(k) && hashes.keys().take(i as int).contains(k),
            forall|k: Seq<char>| #[trigger] text_map(out).contains_key(k) ==> text_map(out)[k] == all[k],
        decreases total - i,
    {
        let rel = hashes.key_at(i);
        let ghost was = text_map(out);
        if let Some(shape) = shapes.get(rel) {
            let digest = hex_encode(shape.as_slice());
            let ghost v = digest@;
            out.insert(rel.to_owned(), digest);
            proof {
                assert(text_map(out) =~= was.insert(rel@, v));
            }
        }
        proof {
            lemma_first_keys(hashes.keys(), i as int);
        }
        i += 1;
    }
    proof {
        lemma_all_keys(*hashes);
        assert(text_map(out) =~= all);
    }
    out
}

fn collect_snapshots(hashes: &StrMap<String>, metas: &StrMap<FileMeta>) -> (r: StrMap<FileMeta>)
    ensures
        r@ == manifest_snapshots(*hashes, *metas),
{
    let ghost all = manifest_snapshots(*hashes, *metas);
    let mut out: StrMap<FileMeta> = StrMap::new();
    let total = hashes.len();
    let mut i: usize = 0;
    proof {
        lemma_all_keys(*hashes);
    }
    while i < total
        invariant
            i <= total,
            total == hashes.keys().len(),
            all == manifest_snapshots(*hashes, *metas),
            forall|k: Seq<char>| #[trigger]
                out@.contains_key(k) <==> all.contains_key(k) && hashes.keys().take(i as int).contains(k),
            forall|k: Seq<char>| #[trigger] out@.contains_key(k) ==> out@[k] == all[k],
        decreases total - i,
    {
        let rel = hashes.key_at(i);
        if let Some(meta) = metas.get(rel) {
            out.insert(rel.to_owned(), *meta);
        }
        proof {
            lemma_first_keys(hashes.keys(), i as int);
        }
        i += 1;
    }
    proof {
        lemma_all_keys(*hashes);
        assert(out@ =~= all);
    }
    out
}

/// The state holds what was handed over.
pub open spec fn records(state: InstallState, input: WriteStateInput) -> bool {
    &&& state.lockfile_hash == input.lockfile.hash
    &&& state.lockfile_snapshot_name == input.lockfile.name
    &&& state.lockfile_meta == input.lockfile.meta
    &&& state.member_lockfile_hashes == input.members.0
    &&& state.member_lockfile_meta == input.members.1
    &&& state.package_json_hashes == input.package_json_hashes
    &&& state.package_json_meta@ == manifest_snapshots(input.package_json_hashes, input.manifest_meta)
    &&& state.local_directory_hashes == Some(input.local_directory_hashes)
    &&& state.aube_version == input.aube_version
    &&& state.section_filtered == input.section_filtered
    &&& state.settings_hash == input.settings_hash
    &&& state.package_content_hashes == input.package_content_hashes
    &&& state.graph_lthash == input.graph_lthash
    &&& state.package_subtree_hashes == input.package_subtree_hashes
    &&& text_map(state.package_json_shape_digests) == shape_digests(input.package_json_hashes, input.shapes)
    &&& state.layout == Some(input.layout)
    &&& state.unreviewed_builds == input.unreviewed_builds
}

/// The state that an install leaves, and the part of it that later checks read.
pub fn write_state(input: WriteStateInput) -> (r: (InstallState, FreshnessState))
    ensures
        records(r.0, input),
        r.1@ == r.0.freshness(),
{
    let shapes = collect_shapes(&input.package_json_hashes, &input.shapes);
    let metas = collect_snapshots(&input.package_json_hashes, &input.manifest_meta);
    let state = InstallState {
        lockfile_hash: input.lockfile.hash,
        lockfile_snapshot_name: input.lockfile.name,
        lockfile_meta: input.lockfile.meta,
        member_lockfile_hashes: input.members.0,
        member_lockfile_meta: input.members.1,
        package_json_hashes: input.package_json_hashes,
        package_json_meta: metas,
        local_directory_hashes: Some(input.local_directory_hashes),
        aube_version: input.aube_version,
        section_filtered: input.section_filtered,
        settings_hash: input.settings_hash,
        package_content_hashes: input.package_content_hashes,
        graph_lthash: input.graph_lthash,
        package_subtree_hashes: input.package_subtree_hashes,
        package_json_shape_digests: shapes,
        layout: Some(input.layout),
        unreviewed_builds: input.unreviewed_builds,
    };
    let fresh = FreshnessState::from_state(&state);
    (state, fresh)
}

/// What is at the state's path.
#[derive(Clone, Copy, Debug, PartialEq, Eq, Structural)]
pub enum StatePath {
    /// A file, as old versions left it. It is deleted and not read.
    LegacyFile,
    Directory,
    Nothing,
}

/// What was found where the state is kept.
#[derive(Debug)]
pub struct StoredState {
    pub at: StatePath,
    /// The part for freshness checks, where it can be read.
    pub fresh: Option<FreshnessState>,
    /// The whole state, where it can be read.
    pub full: Option<InstallState>,
}

/// The part of the state for freshness checks, and whether it has to be
/// written: it is made from the whole state where it is not there itself. An
/// old state file counts as no state.
pub fn read_or_migrate_fresh_state(stored: StoredState) -> (r: (Option<FreshnessState>, bool))
    ensures
        match stored.at {
            StatePath::LegacyFile => r.0 is None && !r.1,
            _ => match stored.fresh {
                Some(f) => r.0 == Some(f) && !r.1,
                None => match stored.full {
                    Some(s) => r.0 is Some && r.0->0@ == s.freshness() && r.1,
                    None => r.0 is None && !r.1,
                },
            },
        },
{
    if let StatePath::LegacyFile = stored.at {
        return (None, false);
    }
    match stored.fresh {
        Some(f) => (Some(f), false),
        None => match stored.full {
            Some(s) => (Some(FreshnessState::from_state(&s)), true),
            None => (None, false),
        },
    }
}

/// Whether a state file of an old version is in the way and is deleted.
pub fn removes_legacy_file(at: StatePath) -> (r: bool)
    ensures
        r == (at is LegacyFile),
{
    match at {
        StatePath::LegacyFile => true,
        _ => false,
    }
}

/// The digests of the packages of the last install, where there are any.
pub fn read_state_package_content_hashes(state: Option<InstallState>) -> (r: Option<StrMap<String>>)
    ensures
        match state {
            Some(s) if s.package_content_hashes.keys().len() > 0 => r == Some(s.package_content_hashes),
            _ => r is None,
        },
{
    match state {
        Some(s) => if s.package_content_hashes.len() == 0 {
            None
        } else {
            Some(s.package_content_hashes)
        },
        None => None,
    }
}

/// The digests of the packages' subtrees, where there are any.
pub fn read_state_subtree_hashes(state: Option<InstallState>) -> (r: Option<StrMap<String>>)
    ensures
        match state {
            Some(s) if s.package_subtree_hashes.keys().len() > 0 => r == Some(s.package_subtree_hashes),
            _ => r is None,
        },
{
    match state {
        Some(s) => if s.package_subtree_hashes.len() == 0 {
            None
        } else {
            Some(s.package_subtree_hashes)
        },
        None => None,
    }
}

/// What a later install compares its packages with.
pub fn read_state_delta_snapshot(state: Option<InstallState>) -> (r: Option<DeltaStateSnapshot>)
    ensures
        match state {
            None => r is None,
            Some(s) => {
                &&& r is Some
                &&& r->0.package_content_hashes == s.package_content_hashes
                &&& r->0.package_subtree_hashes == s.package_subtree_hashes
                &&& r->0.graph_lthash == if s.graph_lthash@.len() == 0 {
                    None
                } else {
                    Some(s.graph_lthash)
                }
            },
        },
{
    match state {
        None => None,
        Some(s) => {
            proof {
                reveal_strlit("");
                if s.graph_lthash@.len() == 0 {
                    assert(s.graph_lthash@ =~= ""@);
                }
            }
            let unrecorded = same_text(s.graph_lthash.as_str(), "");
            Some(
                DeltaStateSnapshot {
                    package_content_hashes: s.package_content_hashes,
                    graph_lthash: if unrecorded {
                        None
                    } else {
                        Some(s.graph_lthash)
                    },
                    package_subtree_hashes: s.package_subtree_hashes,
                },
            )
        },
    }
}

/// The tree that the last install made, where it was recorded.
pub fn read_state_layout(state: Option<InstallState>) -> (r: Option<InstallLayoutState>)
    ensures
        match state {
            Some(s) => r == s.layout,
            None => r is None,
        },
{
    match state {
        Some(s) => s.layout,
        None => None,
    }
}

/// Where the state is kept by default, whatever the settings say now.
pub fn default_state_dir(project_dir: &FsPath, embedder: &Embedder) -> (r: FsPath)
    ensures
        r@ == path_joined(
            path_joined(project_dir@, "node_modules"@),
            "."@ + embedder.name@ + "-state"@,
        ),
{
    let name = embedder.state_dir_name();
    project_dir.join("node_modules").join(name.as_str())
}

/// The tree that the last install made, as the state that is kept by default
/// records it: after the modules directory was renamed in the settings, that
/// state still describes the tree that is there. `state` is what
/// `default_state_dir` holds.
pub fn read_default_state_layout(state: Option<InstallState>) -> (r: Option<InstallLayoutState>)
    ensures
        match state {
            Some(s) => r == s.layout,
            None => r is None,
        },
{
    read_state_layout(state)
}

/// The packages whose build scripts await approval. Without a state there are none.
pub fn read_state_unreviewed_builds(state: Option<FreshnessState>) -> (r: Vec<String>)
    ensures
        match state {
            Some(s) => r == s.unreviewed_builds,
            None => r@ == Seq::<String>::empty(),
        },
{
    match state {
        Some(s) => s.unreviewed_builds,
        None => Vec::new(),
    }
}

/// The recorded licenses: those of the state in use, else those of the default
/// state, else none.
pub fn read_state_package_licenses(
    current: Option<InstallLicenseState>,
    default: Option<InstallLicenseState>,
) -> (r: InstallLicenseState)
    ensures
        match (current, default) {
            (Some(l), _) => r == l,
            (None, Some(l)) => r == l,
            (None, None) => r.fingerprint@ == Seq::<char>::empty() && r.licenses@ == Map::<
                Seq<char>,
                String,
            >::empty() && r.linked_package_dirs@ == Map::<Seq<char>, String>::empty(),
        },
{
    match current {
        Some(l) => l,
        None => match default {
            Some(l) => l,
            None => InstallLicenseState {
                fingerprint: String::new(),
                licenses: StrMap::new(),
                linked_package_dirs: StrMap::new(),
            },
        },
    }
}

/// How the state is removed.
#[derive(Clone, Copy, Debug, PartialEq, Eq, Structural)]
pub enum Removal {
    Tree,
    File,
}

/// How what is at the state's path is removed.
pub fn state_removal(is_dir: bool) -> (r: Removal)
    ensures
        r == if is_dir {
            Removal::Tree
        } else {
            Removal::File
        },
{
    if is_dir {
        Removal::Tree
    } else {
        Removal::File
    }
}

/// How an attempt to delete something went.
#[derive(Clone, Copy, Debug, PartialEq, Eq, Structural)]
pub enum Deletion {
    Done,
    NotFound,
    Failed,
}

/// Whether removing the state succeeded. State that was not there is no error.
pub fn remove_state(outcome: Deletion) -> (r: bool)
    ensures
        r == !(outcome is Failed),
{
    match outcome {
        Deletion::Failed => false,
        _ => true,
    }
}

} // verus!
