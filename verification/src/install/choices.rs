//! What a run goes by in its stages.
use crate::fs_path::{path_joined, path_parent, FsPath};
use crate::install::stages::LockfileKind;
use crate::str_map::StrSet;
use vstd::prelude::*;

verus! {

/// How much of the network an install may use.
#[derive(Debug, Clone, Copy, PartialEq, Eq, Structural)]
pub enum NetworkMode {
    Online,
    PreferOffline,
    Offline,
}

/// How much of the network getting the runtime may use: none where the install
/// may use none, else what is configured.
pub fn runtime_network(install: NetworkMode, configured: NetworkMode) -> (r: NetworkMode)
    ensures
        r == (if install == NetworkMode::Offline {
            NetworkMode::Offline
        } else {
            configured
        }),
{
    match install {
        NetworkMode::Offline => NetworkMode::Offline,
        _ => configured,
    }
}

/// Whether build scripts that nobody has approved fail the install.
pub fn fails_on_unreviewed_builds(strict_dep_builds: bool, paranoid: bool) -> (r: bool)
    ensures
        r == (strict_dep_builds || paranoid),
{
    strict_dep_builds || paranoid
}

/// Where the build policy comes from.
#[derive(Debug, Clone, Copy, PartialEq, Eq, Structural)]
pub enum PolicySource {
    /// The caller's own, and nothing else.
    Override,
    /// The manifests and the settings.
    Manifests,
    /// The manifests and the settings, and what was approved further out.
    ManifestsAndInherited,
}

/// Where the build policy comes from.
pub fn build_policy_source(has_override: bool, has_inherited: bool) -> (r: PolicySource)
    ensures
        r == (if has_override {
            PolicySource::Override
        } else if has_inherited {
            PolicySource::ManifestsAndInherited
        } else {
            PolicySource::Manifests
        }),
{
    if has_override {
        PolicySource::Override
    } else if has_inherited {
        PolicySource::ManifestsAndInherited
    } else {
        PolicySource::Manifests
    }
}

/// The format that resolution works towards; none where no lockfile is written,
/// so that nothing is resolved for other platforms only to be dropped.
pub fn target_lockfile_kind(lockfile_enabled: bool, write_kind: LockfileKind) -> (r: Option<LockfileKind>)
    ensures
        r == (if lockfile_enabled {
            Some(write_kind)
        } else {
            None
        }),
{
    if lockfile_enabled {
        Some(write_kind)
    } else {
        None
    }
}

/// Whether a package that is linked already is taken as it is. Not in a
/// workspace, and not where the store was chosen explicitly.
pub fn already_linked_shortcut(has_workspace: bool, explicit_store: bool) -> (r: bool)
    ensures
        r == (!has_workspace && !explicit_store),
{
    !(has_workspace || explicit_store)
}

/// Whether only the root of the workspace is linked.
pub fn links_root_only(has_workspace: bool, link_all_importers: bool) -> (r: bool)
    ensures
        r == (has_workspace && !link_all_importers),
{
    has_workspace && !link_all_importers
}

/// Which lockfiles are written.
#[derive(Debug, Clone, Copy, PartialEq, Eq, Structural)]
pub enum LockfileTarget {
    /// One for everything.
    Shared,
    /// One for each project of the workspace.
    PerProject,
}

/// Which lockfiles are written: one for everything, unless the projects of a
/// workspace have their own.
pub fn lockfile_target(shared_workspace_lockfile: bool, has_workspace: bool) -> (r: LockfileTarget)
    ensures
        r == (if has_workspace && !shared_workspace_lockfile {
            LockfileTarget::PerProject
        } else {
            LockfileTarget::Shared
        }),
{
    if shared_workspace_lockfile || !has_workspace {
        LockfileTarget::Shared
    } else {
        LockfileTarget::PerProject
    }
}

/// Whether the packages of a graph count as newly picked, for the check against
/// advisories: never those of a lockfile.
pub fn is_fresh_resolution(from_lockfile: bool, has_new_picks: bool) -> (r: bool)
    ensures
        r == (!from_lockfile && has_new_picks),
{
    !from_lockfile && has_new_picks
}

/// How many packages to expect before they are resolved: as many as in the
/// lockfile that resolution starts from, else as in the one on disk.
pub fn expected_packages(existing: Option<usize>, on_disk: Option<usize>) -> (r: Option<usize>)
    ensures
        r == (match existing {
            Some(n) => Some(n),
            None => on_disk,
        }),
{
    match existing {
        Some(n) => Some(n),
        None => on_disk,
    }
}

/// What is resolved.
#[derive(Debug, Clone, Copy, PartialEq, Eq, Structural)]
pub enum ResolveScope {
    /// Every project of the workspace.
    Workspace,
    /// The one project.
    Project,
}

/// What is resolved: every project where there is a workspace.
pub fn resolve_scope(has_workspace: bool) -> (r: ResolveScope)
    ensures
        r == (if has_workspace {
            ResolveScope::Workspace
        } else {
            ResolveScope::Project
        }),
{
    if has_workspace {
        ResolveScope::Workspace
    } else {
        ResolveScope::Project
    }
}

/// The packages that have to be in the project itself: those of `closure` where
/// the install will use the global virtual store, else none are singled out.
pub fn project_local_packages(planned_gvs: bool, closure: StrSet) -> (r: StrSet)
    ensures
        r@ == (if planned_gvs {
            closure@
        } else {
            Set::empty()
        }),
{
    if planned_gvs {
        closure
    } else {
        StrSet::new()
    }
}

/// The hook files that run: those that were found, in order, unless hooks are
/// ignored.
pub fn hook_paths(ignore_pnpmfile: bool, ordered: Vec<FsPath>) -> (r: Vec<FsPath>)
    ensures
        r@ == (if ignore_pnpmfile {
            Seq::empty()
        } else {
            ordered@
        }),
{
    if ignore_pnpmfile {
        Vec::new()
    } else {
        ordered
    }
}

/// The project's hook file whose checksum goes into the lockfile, unless hooks
/// are ignored.
pub fn checksummed_hook(ignore_pnpmfile: bool, detected: Option<FsPath>) -> (r: Option<FsPath>)
    ensures
        r == (if ignore_pnpmfile {
            None
        } else {
            detected
        }),
{
    if ignore_pnpmfile {
        None
    } else {
        detected
    }
}

/// Which earlier lockfile the metadata is taken from that resolution cannot
/// recover.
#[derive(Debug, Clone, Copy, PartialEq, Eq, Structural)]
pub enum PriorMetadata {
    /// The one that resolution started from.
    PreParsed,
    /// The one on disk.
    OnDisk,
    /// There is none.
    Nothing,
}

/// Which earlier lockfile metadata is taken from: the one that resolution
/// started from, else the one on disk where it can be read.
pub fn prior_metadata(pre_parsed: bool, readable_on_disk: bool) -> (r: PriorMetadata)
    ensures
        r == (if pre_parsed {
            PriorMetadata::PreParsed
        } else if readable_on_disk {
            PriorMetadata::OnDisk
        } else {
            PriorMetadata::Nothing
        }),
{
    if pre_parsed {
        PriorMetadata::PreParsed
    } else if readable_on_disk {
        PriorMetadata::OnDisk
    } else {
        PriorMetadata::Nothing
    }
}

/// Where the lock of the content store is: beside the store, or in it where it
/// has no parent.
pub fn store_lock_path(store_root: &FsPath) -> (r: FsPath)
    ensures
        r@ == path_joined(
            match path_parent(store_root@) {
                Some(p) => p,
                None => store_root@,
            },
            ".install.lock"@,
        ),
{
    let dir = match store_root.parent() {
        Some(p) => p,
        None => store_root.copy(),
    };
    dir.join(".install.lock")
}

/// What came of trying to lock the content store.
#[derive(Debug, Clone, Copy, PartialEq, Eq, Structural)]
pub enum StoreLock {
    Acquired,
    /// Another install has it.
    Taken,
    /// It could not be tried.
    Unavailable,
}

/// Whether files may be written to the store in place: only by an install that
/// has the store to itself. Any other install goes on, by the safe way.
pub fn writes_in_place(lock: StoreLock) -> (r: bool)
    ensures
        r == (lock == StoreLock::Acquired),
{
    match lock {
        StoreLock::Acquired => true,
        _ => false,
    }
}

/// What a project is called.
pub fn project_label<'a>(name: Option<&'a str>) -> (r: &'a str)
    ensures
        r@ == (match name {
            Some(n) => n@,
            None => "(unnamed)"@,
        }),
{
    match name {
        Some(n) => n,
        None => "(unnamed)",
    }
}

/// How many packages were reused and fetched.
#[derive(Debug, Clone, Copy, PartialEq, Eq, Structural)]
pub struct FetchCounts {
    pub cached: usize,
    pub fetched: usize,
}

/// The counts with those of the catch-up fetch.
pub fn with_catch_up(counts: FetchCounts, catch_up: FetchCounts) -> (r: FetchCounts)
    requires
        counts.cached + catch_up.cached <= usize::MAX,
        counts.fetched + catch_up.fetched <= usize::MAX,
    ensures
        r.cached == counts.cached + catch_up.cached,
        r.fetched == counts.fetched + catch_up.fetched,
{
    FetchCounts { cached: counts.cached + catch_up.cached, fetched: counts.fetched + catch_up.fetched }
}

} // verus!
