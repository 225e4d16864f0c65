//! In what order a run goes through its stages.
use crate::install::run::{
    after_stage, consistent, first_view, joins_write, Cleanup, Failure, Outcome, RunView, Status,
};
use crate::install::stages::{
    lemma_stage_places, rank, wanted, Facts, FrozenMode, InstallOptions, LayoutChoice, LockfileFound, LockfileKind,
    Stage,
};
use vstd::prelude::*;

verus! {

/// A stage that belongs to the run and comes before the one it is at is done.
proof fn lemma_done(v: RunView, s: Stage, t: Stage)
    requires
        consistent(v),
        v.status == Status::Running(s),
        rank(t) < rank(s),
        !joins_write(t),
        wanted(v.options, v.facts, t),
    ensures
        v.history.contains(t),
{
}

/// The tree is looked at before anything else is done, and the configuration is
/// read before it is acted on: the runtime, the scripts, the layout, the branch
/// lockfiles and the workspace follow one on the other.
pub proof fn law_configuration_comes_first(v: RunView)
    requires
        consistent(v),
    ensures
        v.status == Status::Running(Stage::TryFastPath) ==> v.history.contains(Stage::ResetForcedState),
        v.status == Status::Running(Stage::RegisterFastPath) ==> v.history.contains(Stage::TryFastPath),
        v.status == Status::Running(Stage::ReportUpToDate) && v.facts.store_locked
            ==> v.history.contains(Stage::RegisterFastPath),
        v.status == Status::Running(Stage::ReportUpToDate) ==> v.history.contains(Stage::TryFastPath),
        v.status == Status::Running(Stage::LoadConfig) && !v.options.dry_run ==> v.history.contains(Stage::TryFastPath),
        v.status == Status::Running(Stage::EnsureRuntime) ==> v.history.contains(Stage::LoadConfig),
        v.status == Status::Running(Stage::ConfigureScripts) ==> v.history.contains(Stage::LoadConfig),
        v.status == Status::Running(Stage::ConfigureScripts) && !v.options.dry_run
            ==> v.history.contains(Stage::EnsureRuntime),
        v.status == Status::Running(Stage::ResolveLayout) ==> v.history.contains(Stage::LoadConfig),
        v.status == Status::Running(Stage::ResolveLayout) && !v.options.dry_run
            ==> v.history.contains(Stage::EnsureRuntime),
        v.status == Status::Running(Stage::ResolveLayout) && !v.options.ignore_scripts
            ==> v.history.contains(Stage::ConfigureScripts),
        v.status == Status::Running(Stage::MergeBranchLockfiles) ==> v.history.contains(Stage::ResolveLayout),
        v.status == Status::Running(Stage::ValidateRequiredScripts) ==> v.history.contains(Stage::ResolveLayout),
        v.status == Status::Running(Stage::ValidateRequiredScripts) && !v.options.dry_run
            ==> v.history.contains(Stage::MergeBranchLockfiles),
        v.status == Status::Running(Stage::DiscoverWorkspace) ==> v.history.contains(Stage::ValidateRequiredScripts),
{
    if v.status == Status::Running(Stage::TryFastPath) {
        lemma_done(v, Stage::TryFastPath, Stage::ResetForcedState);
    }
    if v.status == Status::Running(Stage::RegisterFastPath) {
        lemma_done(v, Stage::RegisterFastPath, Stage::TryFastPath);
    }
    if v.status == Status::Running(Stage::ReportUpToDate) {
        if v.facts.store_locked {
            lemma_done(v, Stage::ReportUpToDate, Stage::RegisterFastPath);
        }
        lemma_done(v, Stage::ReportUpToDate, Stage::TryFastPath);
    }
    if v.status == Status::Running(Stage::LoadConfig) {
        if !v.options.dry_run {
            lemma_done(v, Stage::LoadConfig, Stage::TryFastPath);
        }
    }
    if v.status == Status::Running(Stage::EnsureRuntime) {
        lemma_done(v, Stage::EnsureRuntime, Stage::LoadConfig);
    }
    if v.status == Status::Running(Stage::ConfigureScripts) {
        lemma_done(v, Stage::ConfigureScripts, Stage::LoadConfig);
        if !v.options.dry_run {
            lemma_done(v, Stage::ConfigureScripts, Stage::EnsureRuntime);
        }
    }
    if v.status == Status::Running(Stage::ResolveLayout) {
        lemma_done(v, Stage::ResolveLayout, Stage::LoadConfig);
        if !v.options.dry_run {
            lemma_done(v, Stage::ResolveLayout, Stage::EnsureRuntime);
        }
        if !v.options.ignore_scripts {
            lemma_done(v, Stage::ResolveLayout, Stage::ConfigureScripts);
        }
    }
    if v.status == Status::Running(Stage::MergeBranchLockfiles) {
        lemma_done(v, Stage::MergeBranchLockfiles, Stage::ResolveLayout);
    }
    if v.status == Status::Running(Stage::ValidateRequiredScripts) {
        lemma_done(v, Stage::ValidateRequiredScripts, Stage::ResolveLayout);
        if !v.options.dry_run {
            lemma_done(v, Stage::ValidateRequiredScripts, Stage::MergeBranchLockfiles);
        }
    }
    if v.status == Status::Running(Stage::DiscoverWorkspace) {
        lemma_done(v, Stage::DiscoverWorkspace, Stage::ValidateRequiredScripts);
    }
}

/// The hooks of the root project run once the workspace is known, the one for
/// development first, and before any lockfile is looked at.
pub proof fn law_hooks_precede_the_lockfile(v: RunView)
    requires
        consistent(v),
    ensures
        v.status == Status::Running(Stage::DevPreinstall) ==> v.history.contains(Stage::DiscoverWorkspace),
        v.status == Status::Running(Stage::RootPreinstall) ==> v.history.contains(Stage::DiscoverWorkspace),
        v.status == Status::Running(Stage::RootPreinstall) && v.options.run_dev_preinstall
            ==> v.history.contains(Stage::DevPreinstall),
        v.status == Status::Running(Stage::CancelPointLockfile) ==> v.history.contains(Stage::DiscoverWorkspace),
        v.status == Status::Running(Stage::CancelPointLockfile) && v.options.run_dev_preinstall
            && !v.options.ignore_scripts && !v.options.dry_run && !v.facts.layout.lockfile_only
            ==> v.history.contains(Stage::DevPreinstall),
        v.status == Status::Running(Stage::CancelPointLockfile) && !v.options.skip_root_lifecycle
            && !v.options.ignore_scripts && !v.options.dry_run && !v.facts.layout.lockfile_only
            ==> v.history.contains(Stage::RootPreinstall),
{
    if v.status == Status::Running(Stage::DevPreinstall) {
        lemma_done(v, Stage::DevPreinstall, Stage::DiscoverWorkspace);
    }
    if v.status == Status::Running(Stage::RootPreinstall) {
        lemma_done(v, Stage::RootPreinstall, Stage::DiscoverWorkspace);
        if v.options.run_dev_preinstall {
            lemma_done(v, Stage::RootPreinstall, Stage::DevPreinstall);
        }
    }
    if v.status == Status::Running(Stage::CancelPointLockfile) {
        lemma_done(v, Stage::CancelPointLockfile, Stage::DiscoverWorkspace);
        if v.options.run_dev_preinstall && !v.options.ignore_scripts && !v.options.dry_run
            && !v.facts.layout.lockfile_only {
            lemma_done(v, Stage::CancelPointLockfile, Stage::DevPreinstall);
        }
        if !v.options.skip_root_lifecycle && !v.options.ignore_scripts && !v.options.dry_run
            && !v.facts.layout.lockfile_only {
            lemma_done(v, Stage::CancelPointLockfile, Stage::RootPreinstall);
        }
    }
}

/// The lockfile that is there is looked at before a run stops at it or goes on:
/// its format, the versions that it pins, and that it holds no conflict.
pub proof fn law_lockfile_is_looked_at_first(v: RunView)
    requires
        consistent(v),
    ensures
        v.status == Status::Running(Stage::DetectLockfileKind) ==> v.history.contains(Stage::CancelPointLockfile),
        v.status == Status::Running(Stage::PreParseLockfile) ==> v.history.contains(Stage::DetectLockfileKind),
        v.status == Status::Running(Stage::CheckConflictMarkers) ==> v.history.contains(Stage::PreParseLockfile),
        v.status == Status::Running(Stage::CheckFrozenLockfile) ==> v.history.contains(Stage::CancelPointLockfile),
        v.status == Status::Running(Stage::CheckFrozenLockfile) && v.facts.layout.lockfile_enabled
            ==> v.history.contains(Stage::DetectLockfileKind),
        v.status == Status::Running(Stage::LockfileOnly) ==> v.history.contains(Stage::CancelPointLockfile),
        v.status == Status::Running(Stage::LockfileOnly) && v.facts.layout.lockfile_enabled
            ==> v.history.contains(Stage::DetectLockfileKind),
        v.status == Status::Running(Stage::LockfileOnly) && v.facts.layout.lockfile_enabled && (v.options.mode
            == FrozenMode::Fix || v.options.mode == FrozenMode::Prefer) ==> v.history.contains(Stage::PreParseLockfile),
        v.status == Status::Running(Stage::LockfileOnly) && v.facts.layout.lockfile_enabled && (v.options.mode
            == FrozenMode::Fix || v.options.mode == FrozenMode::Prefer) && !v.facts.pre_parsed
            ==> v.history.contains(Stage::CheckConflictMarkers),
        v.status == Status::Running(Stage::LockfileOnly) && v.options.dry_run && v.options.mode
            == FrozenMode::Frozen && v.options.strict_no_lockfile ==> v.history.contains(Stage::CheckFrozenLockfile),
        v.status == Status::Running(Stage::ResetOnModeChange) ==> v.history.contains(Stage::CancelPointLockfile),
        v.status == Status::Running(Stage::ResetOnModeChange) && v.facts.layout.lockfile_enabled
            ==> v.history.contains(Stage::DetectLockfileKind),
        v.status == Status::Running(Stage::ResetOnModeChange) && v.facts.layout.lockfile_enabled
            && (v.options.mode == FrozenMode::Fix || v.options.mode == FrozenMode::Prefer)
            ==> v.history.contains(Stage::PreParseLockfile),
        v.status == Status::Running(Stage::ResetOnModeChange) && v.facts.layout.lockfile_enabled
            && (v.options.mode == FrozenMode::Fix || v.options.mode == FrozenMode::Prefer) && !v.facts.pre_parsed
            ==> v.history.contains(Stage::CheckConflictMarkers),
{
    if v.status == Status::Running(Stage::DetectLockfileKind) {
        lemma_done(v, Stage::DetectLockfileKind, Stage::CancelPointLockfile);
    }
    if v.status == Status::Running(Stage::PreParseLockfile) {
        lemma_done(v, Stage::PreParseLockfile, Stage::DetectLockfileKind);
    }
    if v.status == Status::Running(Stage::CheckConflictMarkers) {
        lemma_done(v, Stage::CheckConflictMarkers, Stage::PreParseLockfile);
    }
    if v.status == Status::Running(Stage::CheckFrozenLockfile) {
        lemma_done(v, Stage::CheckFrozenLockfile, Stage::CancelPointLockfile);
        if v.facts.layout.lockfile_enabled {
            lemma_done(v, Stage::CheckFrozenLockfile, Stage::DetectLockfileKind);
        }
    }
    if v.status == Status::Running(Stage::LockfileOnly) {
        lemma_done(v, Stage::LockfileOnly, Stage::CancelPointLockfile);
        if v.facts.layout.lockfile_enabled {
            lemma_done(v, Stage::LockfileOnly, Stage::DetectLockfileKind);
        }
        if v.facts.layout.lockfile_enabled && (v.options.mode == FrozenMode::Fix || v.options.mode
            == FrozenMode::Prefer) {
            lemma_done(v, Stage::LockfileOnly, Stage::PreParseLockfile);
        }
        if v.facts.layout.lockfile_enabled && (v.options.mode == FrozenMode::Fix || v.options.mode
            == FrozenMode::Prefer) && !v.facts.pre_parsed {
            lemma_done(v, Stage::LockfileOnly, Stage::CheckConflictMarkers);
        }
        if v.options.dry_run && v.options.mode == FrozenMode::Frozen && v.options.strict_no_lockfile {
            lemma_done(v, Stage::LockfileOnly, Stage::CheckFrozenLockfile);
        }
    }
    if v.status == Status::Running(Stage::ResetOnModeChange) {
        lemma_done(v, Stage::ResetOnModeChange, Stage::CancelPointLockfile);
        if v.facts.layout.lockfile_enabled {
            lemma_done(v, Stage::ResetOnModeChange, Stage::DetectLockfileKind);
        }
        if v.facts.layout.lockfile_enabled && (v.options.mode == FrozenMode::Fix || v.options.mode
            == FrozenMode::Prefer) {
            lemma_done(v, Stage::ResetOnModeChange, Stage::PreParseLockfile);
        }
        if v.facts.layout.lockfile_enabled && (v.options.mode == FrozenMode::Fix || v.options.mode
            == FrozenMode::Prefer) && !v.facts.pre_parsed {
            lemma_done(v, Stage::ResetOnModeChange, Stage::CheckConflictMarkers);
        }
    }
}

/// The store is open and locked before the lockfile to install from is chosen,
/// the shared virtual store before the store itself.
pub proof fn law_store_is_locked_first(v: RunView)
    requires
        consistent(v),
    ensures
        v.status == Status::Running(Stage::OpenStore) ==> v.history.contains(Stage::ResetOnModeChange),
        v.status == Status::Running(Stage::LockVirtualStore) ==> v.history.contains(Stage::OpenStore),
        v.status == Status::Running(Stage::LockStore) ==> v.history.contains(Stage::OpenStore),
        v.status == Status::Running(Stage::LockStore) && v.facts.planned_gvs
            ==> v.history.contains(Stage::LockVirtualStore),
        v.status == Status::Running(Stage::SelectLockfile) ==> v.history.contains(Stage::LockStore),
{
    if v.status == Status::Running(Stage::OpenStore) {
        lemma_done(v, Stage::OpenStore, Stage::ResetOnModeChange);
    }
    if v.status == Status::Running(Stage::LockVirtualStore) {
        lemma_done(v, Stage::LockVirtualStore, Stage::OpenStore);
    }
    if v.status == Status::Running(Stage::LockStore) {
        lemma_done(v, Stage::LockStore, Stage::OpenStore);
        if v.facts.planned_gvs {
            lemma_done(v, Stage::LockStore, Stage::LockVirtualStore);
        }
    }
    if v.status == Status::Running(Stage::SelectLockfile) {
        lemma_done(v, Stage::SelectLockfile, Stage::LockStore);
    }
}

/// An install from a lockfile takes in those of the members, and then drops what
/// the platform does not need. One without resolves: after the hook before
/// resolution, with the fetching begun, and before the hook after it.
pub proof fn law_resolution_has_its_order(v: RunView)
    requires
        consistent(v),
    ensures
        v.status == Status::Running(Stage::MergeMemberLockfiles) ==> v.history.contains(Stage::SelectLockfile),
        v.status == Status::Running(Stage::ApplyPlatformRules) ==> v.history.contains(Stage::SelectLockfile),
        v.status == Status::Running(Stage::ApplyPlatformRules) && !v.facts.layout.shared_workspace_lockfile
            && v.facts.has_workspace ==> v.history.contains(Stage::MergeMemberLockfiles),
        v.status == Status::Running(Stage::CancelPointHooks) ==> v.history.contains(Stage::SelectLockfile),
        v.status == Status::Running(Stage::RunPreResolution) ==> v.history.contains(Stage::CancelPointHooks),
        v.status == Status::Running(Stage::CancelPointResolve) ==> v.history.contains(Stage::RunPreResolution),
        v.status == Status::Running(Stage::StartStreamFetch) ==> v.history.contains(Stage::CancelPointResolve),
        v.status == Status::Running(Stage::Resolve) ==> v.history.contains(Stage::StartStreamFetch),
        v.status == Status::Running(Stage::RunAfterAllResolved) ==> v.history.contains(Stage::Resolve),
        v.status == Status::Running(Stage::OverlayMetadata) ==> v.history.contains(Stage::RunAfterAllResolved),
        v.status == Status::Running(Stage::RereadPatches) ==> v.history.contains(Stage::OverlayMetadata),
        v.status == Status::Running(Stage::CancelPointGraph) ==> v.history.contains(Stage::ApplyPlatformRules),
{
    if v.status == Status::Running(Stage::MergeMemberLockfiles) {
        lemma_done(v, Stage::MergeMemberLockfiles, Stage::SelectLockfile);
    }
    if v.status == Status::Running(Stage::ApplyPlatformRules) {
        lemma_done(v, Stage::ApplyPlatformRules, Stage::SelectLockfile);
        if !v.facts.layout.shared_workspace_lockfile && v.facts.has_workspace {
            lemma_done(v, Stage::ApplyPlatformRules, Stage::MergeMemberLockfiles);
        }
    }
    if v.status == Status::Running(Stage::CancelPointHooks) {
        lemma_done(v, Stage::CancelPointHooks, Stage::SelectLockfile);
    }
    if v.status == Status::Running(Stage::RunPreResolution) {
        lemma_done(v, Stage::RunPreResolution, Stage::CancelPointHooks);
    }
    if v.status == Status::Running(Stage::CancelPointResolve) {
        lemma_done(v, Stage::CancelPointResolve, Stage::RunPreResolution);
    }
    if v.status == Status::Running(Stage::StartStreamFetch) {
        lemma_done(v, Stage::StartStreamFetch, Stage::CancelPointResolve);
    }
    if v.status == Status::Running(Stage::Resolve) {
        lemma_done(v, Stage::Resolve, Stage::StartStreamFetch);
    }
    if v.status == Status::Running(Stage::RunAfterAllResolved) {
        lemma_done(v, Stage::RunAfterAllResolved, Stage::Resolve);
    }
    if v.status == Status::Running(Stage::OverlayMetadata) {
        lemma_done(v, Stage::OverlayMetadata, Stage::RunAfterAllResolved);
    }
    if v.status == Status::Running(Stage::RereadPatches) {
        lemma_done(v, Stage::RereadPatches, Stage::OverlayMetadata);
    }
    if v.status == Status::Running(Stage::CancelPointGraph) {
        lemma_done(v, Stage::CancelPointGraph, Stage::ApplyPlatformRules);
    }
}

/// Packages are fetched once they are known, were checked against advisories and
/// by the scanner where there is one, and the virtual store is planned and being
/// filled.
pub proof fn law_fetching_follows_the_checks(v: RunView)
    requires
        consistent(v),
    ensures
        v.status == Status::Running(Stage::RouteAdvisories) && v.facts.lockfile == LockfileFound::Current
            ==> v.history.contains(Stage::CancelPointGraph),
        v.status == Status::Running(Stage::RouteAdvisories) && v.facts.lockfile == LockfileFound::Absent
            ==> v.history.contains(Stage::OverlayMetadata),
        v.status == Status::Running(Stage::RouteAdvisories) && v.facts.lockfile == LockfileFound::Absent
            && v.facts.write_kind == LockfileKind::Pnpm ==> v.history.contains(Stage::RereadPatches),
        v.status == Status::Running(Stage::CancelPointScan) ==> v.history.contains(Stage::RouteAdvisories),
        v.status == Status::Running(Stage::RunScanner) ==> v.history.contains(Stage::CancelPointScan),
        v.status == Status::Running(Stage::CancelPointFetch) ==> v.history.contains(Stage::CancelPointScan),
        v.status == Status::Running(Stage::CancelPointFetch) && v.facts.has_scanner
            ==> v.history.contains(Stage::RunScanner),
        v.status == Status::Running(Stage::PlanVirtualStore) ==> v.history.contains(Stage::RouteAdvisories),
        v.status == Status::Running(Stage::PlanVirtualStore) && v.facts.lockfile == LockfileFound::Absent
            ==> v.history.contains(Stage::CancelPointFetch),
        v.status == Status::Running(Stage::StartPrewarm) ==> v.history.contains(Stage::PlanVirtualStore),
        v.status == Status::Running(Stage::Fetch) ==> v.history.contains(Stage::StartPrewarm),
        v.status == Status::Running(Stage::JoinPrewarm) ==> v.history.contains(Stage::Fetch),
{
    if v.status == Status::Running(Stage::RouteAdvisories) {
        if v.facts.lockfile == LockfileFound::Current {
            lemma_done(v, Stage::RouteAdvisories, Stage::CancelPointGraph);
        }
        if v.facts.lockfile == LockfileFound::Absent {
            lemma_done(v, Stage::RouteAdvisories, Stage::OverlayMetadata);
        }
        if v.facts.lockfile == LockfileFound::Absent && v.facts.write_kind == LockfileKind::Pnpm {
            lemma_done(v, Stage::RouteAdvisories, Stage::RereadPatches);
        }
    }
    if v.status == Status::Running(Stage::CancelPointScan) {
        lemma_done(v, Stage::CancelPointScan, Stage::RouteAdvisories);
    }
    if v.status == Status::Running(Stage::RunScanner) {
        lemma_done(v, Stage::RunScanner, Stage::CancelPointScan);
    }
    if v.status == Status::Running(Stage::CancelPointFetch) {
        lemma_done(v, Stage::CancelPointFetch, Stage::CancelPointScan);
        if v.facts.has_scanner {
            lemma_done(v, Stage::CancelPointFetch, Stage::RunScanner);
        }
    }
    if v.status == Status::Running(Stage::PlanVirtualStore) {
        lemma_done(v, Stage::PlanVirtualStore, Stage::RouteAdvisories);
        if v.facts.lockfile == LockfileFound::Absent {
            lemma_done(v, Stage::PlanVirtualStore, Stage::CancelPointFetch);
        }
    }
    if v.status == Status::Running(Stage::StartPrewarm) {
        lemma_done(v, Stage::StartPrewarm, Stage::PlanVirtualStore);
    }
    if v.status == Status::Running(Stage::Fetch) {
        lemma_done(v, Stage::Fetch, Stage::StartPrewarm);
    }
    if v.status == Status::Running(Stage::JoinPrewarm) {
        lemma_done(v, Stage::JoinPrewarm, Stage::Fetch);
    }
}

/// The lockfile is written once the packages are fetched and everything that goes
/// into it is there: the integrities, the tarball locations where they are kept,
/// the pin of the runtime, the checksums and the annotations.
pub proof fn law_lockfile_is_ready_when_written(v: RunView)
    requires
        consistent(v),
    ensures
        v.status == Status::Running(Stage::ApplyIntegrities) ==> v.history.contains(Stage::JoinPrewarm),
        v.status == Status::Running(Stage::FillTarballUrls) ==> v.history.contains(Stage::ApplyIntegrities),
        v.status == Status::Running(Stage::RefreshRuntimePin) ==> v.history.contains(Stage::ApplyIntegrities),
        v.status == Status::Running(Stage::RefreshRuntimePin) && v.facts.layout.include_tarball_url
            ==> v.history.contains(Stage::FillTarballUrls),
        v.status == Status::Running(Stage::StampChecksums) ==> v.history.contains(Stage::RefreshRuntimePin),
        v.status == Status::Running(Stage::AnnotateGraph) ==> v.history.contains(Stage::StampChecksums),
        v.status == Status::Running(Stage::WriteLockfile) ==> v.history.contains(Stage::Resolve),
        v.status == Status::Running(Stage::WriteLockfile) ==> v.history.contains(Stage::ApplyIntegrities),
        v.status == Status::Running(Stage::WriteLockfile) && v.facts.layout.include_tarball_url
            ==> v.history.contains(Stage::FillTarballUrls),
        v.status == Status::Running(Stage::WriteLockfile) ==> v.history.contains(Stage::RefreshRuntimePin),
        v.status == Status::Running(Stage::WriteLockfile) ==> v.history.contains(Stage::StampChecksums),
        v.status == Status::Running(Stage::WriteLockfile) ==> v.history.contains(Stage::AnnotateGraph),
{
    if v.status == Status::Running(Stage::ApplyIntegrities) {
        lemma_done(v, Stage::ApplyIntegrities, Stage::JoinPrewarm);
    }
    if v.status == Status::Running(Stage::FillTarballUrls) {
        lemma_done(v, Stage::FillTarballUrls, Stage::ApplyIntegrities);
    }
    if v.status == Status::Running(Stage::RefreshRuntimePin) {
        lemma_done(v, Stage::RefreshRuntimePin, Stage::ApplyIntegrities);
        if v.facts.layout.include_tarball_url {
            lemma_done(v, Stage::RefreshRuntimePin, Stage::FillTarballUrls);
        }
    }
    if v.status == Status::Running(Stage::StampChecksums) {
        lemma_done(v, Stage::StampChecksums, Stage::RefreshRuntimePin);
    }
    if v.status == Status::Running(Stage::AnnotateGraph) {
        lemma_done(v, Stage::AnnotateGraph, Stage::StampChecksums);
    }
    if v.status == Status::Running(Stage::WriteLockfile) {
        lemma_done(v, Stage::WriteLockfile, Stage::Resolve);
        lemma_done(v, Stage::WriteLockfile, Stage::ApplyIntegrities);
        if v.facts.layout.include_tarball_url {
            lemma_done(v, Stage::WriteLockfile, Stage::FillTarballUrls);
        }
        lemma_done(v, Stage::WriteLockfile, Stage::RefreshRuntimePin);
        lemma_done(v, Stage::WriteLockfile, Stage::StampChecksums);
        lemma_done(v, Stage::WriteLockfile, Stage::AnnotateGraph);
    }
}

/// What was put off is fetched after the graph was trimmed, which follows the
/// lockfile; where that computed integrities the lockfile is written again.
pub proof fn law_catching_up_follows_the_write(v: RunView)
    requires
        consistent(v),
    ensures
        v.status == Status::Running(Stage::TrimGraph) ==> v.history.contains(Stage::ApplyIntegrities),
        v.status == Status::Running(Stage::TrimGraph) && v.facts.layout.lockfile_enabled
            ==> v.history.contains(Stage::WriteLockfile),
        v.status == Status::Running(Stage::CatchUpFetch) ==> v.history.contains(Stage::TrimGraph),
        v.status == Status::Running(Stage::JoinWriteForRewrite) ==> v.history.contains(Stage::CatchUpFetch),
        v.status == Status::Running(Stage::JoinWriteForRewrite) ==> v.history.contains(Stage::WriteLockfile),
        v.status == Status::Running(Stage::RewriteLockfile) ==> v.history.contains(Stage::CatchUpFetch),
        v.status == Status::Running(Stage::RewriteLockfile) ==> v.history.contains(Stage::WriteLockfile),
        v.status == Status::Running(Stage::CleanUpCatalogs) ==> v.history.contains(Stage::JoinPrewarm),
        v.status == Status::Running(Stage::CleanUpCatalogs) && v.facts.lockfile == LockfileFound::Absent
            ==> v.history.contains(Stage::TrimGraph),
        v.status == Status::Running(Stage::CleanUpCatalogs) && v.facts.lockfile == LockfileFound::Absent
            && v.facts.missing_packages ==> v.history.contains(Stage::CatchUpFetch),
        v.status == Status::Running(Stage::CleanUpCatalogs) && v.facts.lockfile == LockfileFound::Absent
            && v.facts.layout.lockfile_enabled && v.facts.missing_packages && v.facts.new_integrities
            ==> v.history.contains(Stage::RewriteLockfile),
{
    if v.status == Status::Running(Stage::TrimGraph) {
        lemma_done(v, Stage::TrimGraph, Stage::ApplyIntegrities);
        if v.facts.layout.lockfile_enabled {
            lemma_done(v, Stage::TrimGraph, Stage::WriteLockfile);
        }
    }
    if v.status == Status::Running(Stage::CatchUpFetch) {
        lemma_done(v, Stage::CatchUpFetch, Stage::TrimGraph);
    }
    if v.status == Status::Running(Stage::JoinWriteForRewrite) {
        lemma_done(v, Stage::JoinWriteForRewrite, Stage::CatchUpFetch);
        lemma_done(v, Stage::JoinWriteForRewrite, Stage::WriteLockfile);
    }
    if v.status == Status::Running(Stage::RewriteLockfile) {
        lemma_done(v, Stage::RewriteLockfile, Stage::CatchUpFetch);
        lemma_done(v, Stage::RewriteLockfile, Stage::WriteLockfile);
    }
    if v.status == Status::Running(Stage::CleanUpCatalogs) {
        lemma_done(v, Stage::CleanUpCatalogs, Stage::JoinPrewarm);
        if v.facts.lockfile == LockfileFound::Absent {
            lemma_done(v, Stage::CleanUpCatalogs, Stage::TrimGraph);
        }
        if v.facts.lockfile == LockfileFound::Absent && v.facts.missing_packages {
            lemma_done(v, Stage::CleanUpCatalogs, Stage::CatchUpFetch);
        }
        if v.facts.lockfile == LockfileFound::Absent && v.facts.layout.lockfile_enabled
            && v.facts.missing_packages && v.facts.new_integrities {
            lemma_done(v, Stage::CleanUpCatalogs, Stage::RewriteLockfile);
        }
    }
}

/// The packages to link are selected before they are checked against the runtime
/// and linked, and after the peers were checked where that is asked for. A run
/// comes to its last stage with the packages linked.
pub proof fn law_linking_follows_the_selection(v: RunView)
    requires
        consistent(v),
    ensures
        v.status == Status::Running(Stage::CheckPeers) ==> v.history.contains(Stage::CleanUpCatalogs),
        v.status == Status::Running(Stage::SelectPackages) ==> v.history.contains(Stage::CleanUpCatalogs),
        v.status == Status::Running(Stage::SelectPackages) && v.facts.strict_peers
            ==> v.history.contains(Stage::CheckPeers),
        v.status == Status::Running(Stage::CheckEngines) ==> v.history.contains(Stage::SelectPackages),
        v.status == Status::Running(Stage::ReportPolicyWarnings) ==> v.history.contains(Stage::CheckEngines),
        v.status == Status::Running(Stage::Link) ==> v.history.contains(Stage::SelectPackages),
        v.status == Status::Running(Stage::Link) ==> v.history.contains(Stage::CheckEngines),
        v.status == Status::Running(Stage::Link) ==> v.history.contains(Stage::ReportPolicyWarnings),
        v.status == Status::Running(Stage::JoinLockfileWrite) ==> v.history.contains(Stage::Link),
        v.status == Status::Running(Stage::Finalize) ==> v.history.contains(Stage::Link),
{
    if v.status == Status::Running(Stage::CheckPeers) {
        lemma_done(v, Stage::CheckPeers, Stage::CleanUpCatalogs);
    }
    if v.status == Status::Running(Stage::SelectPackages) {
        lemma_done(v, Stage::SelectPackages, Stage::CleanUpCatalogs);
        if v.facts.strict_peers {
            lemma_done(v, Stage::SelectPackages, Stage::CheckPeers);
        }
    }
    if v.status == Status::Running(Stage::CheckEngines) {
        lemma_done(v, Stage::CheckEngines, Stage::SelectPackages);
    }
    if v.status == Status::Running(Stage::ReportPolicyWarnings) {
        lemma_done(v, Stage::ReportPolicyWarnings, Stage::CheckEngines);
    }
    if v.status == Status::Running(Stage::Link) {
        lemma_done(v, Stage::Link, Stage::SelectPackages);
        lemma_done(v, Stage::Link, Stage::CheckEngines);
        lemma_done(v, Stage::Link, Stage::ReportPolicyWarnings);
    }
    if v.status == Status::Running(Stage::JoinLockfileWrite) {
        lemma_done(v, Stage::JoinLockfileWrite, Stage::Link);
    }
    if v.status == Status::Running(Stage::Finalize) {
        lemma_done(v, Stage::Finalize, Stage::Link);
    }
}

/// A stage is gone through only where it is called for: by the options, by the
/// settings, or by what the run has found.
pub proof fn law_stages_are_called_for(v: RunView)
    requires
        consistent(v),
    ensures
        v.status == Status::Running(Stage::TryFastPath) ==> !v.options.dry_run,
        v.status == Status::Running(Stage::EnsureRuntime) ==> !v.options.dry_run,
        v.status == Status::Running(Stage::MergeBranchLockfiles) ==> !v.options.dry_run,
        v.status == Status::Running(Stage::ResetForcedState) ==> !v.options.dry_run,
        v.status == Status::Running(Stage::RegisterFastPath) ==> v.facts.up_to_date && v.facts.store_locked,
        v.status == Status::Running(Stage::ReportUpToDate) ==> v.facts.up_to_date,
        v.status == Status::Running(Stage::ConfigureScripts) ==> !v.options.ignore_scripts,
        v.status == Status::Running(Stage::DevPreinstall) ==> v.options.run_dev_preinstall
            && !v.options.ignore_scripts && !v.options.dry_run && !v.facts.layout.lockfile_only,
        v.status == Status::Running(Stage::RootPreinstall) ==> !v.options.skip_root_lifecycle
            && !v.options.ignore_scripts && !v.options.dry_run && !v.facts.layout.lockfile_only,
        v.status == Status::Running(Stage::DetectLockfileKind) ==> v.facts.layout.lockfile_enabled,
        v.status == Status::Running(Stage::PreParseLockfile) ==> v.facts.layout.lockfile_enabled
            && v.options.mode != FrozenMode::Frozen && v.options.mode != FrozenMode::No,
        v.status == Status::Running(Stage::CheckConflictMarkers) ==> v.facts.layout.lockfile_enabled
            && !v.facts.pre_parsed && v.options.mode != FrozenMode::Frozen && v.options.mode != FrozenMode::No,
        v.status == Status::Running(Stage::CheckFrozenLockfile) ==> v.options.dry_run
            && v.options.strict_no_lockfile && v.options.mode == FrozenMode::Frozen,
        v.status == Status::Running(Stage::LockfileOnly) ==> (v.options.dry_run || v.facts.layout.lockfile_only),
        v.status == Status::Running(Stage::LockVirtualStore) ==> v.facts.planned_gvs,
        v.status == Status::Running(Stage::MergeMemberLockfiles) ==> v.facts.lockfile == LockfileFound::Current
            && v.facts.has_workspace && !v.facts.layout.shared_workspace_lockfile,
        v.status == Status::Running(Stage::ApplyPlatformRules) ==> v.facts.lockfile == LockfileFound::Current,
        v.status == Status::Running(Stage::CancelPointGraph) ==> v.facts.lockfile == LockfileFound::Current,
        v.status == Status::Running(Stage::CancelPointHooks) ==> v.facts.lockfile == LockfileFound::Absent
            && (v.options.mode == FrozenMode::Frozen ==> !v.options.strict_no_lockfile),
        v.status == Status::Running(Stage::RunPreResolution) ==> v.facts.lockfile == LockfileFound::Absent
            && (v.options.mode == FrozenMode::Frozen ==> !v.options.strict_no_lockfile),
        v.status == Status::Running(Stage::CancelPointResolve) ==> v.facts.lockfile == LockfileFound::Absent
            && (v.options.mode == FrozenMode::Frozen ==> !v.options.strict_no_lockfile),
        v.status == Status::Running(Stage::StartStreamFetch) ==> v.facts.lockfile == LockfileFound::Absent
            && (v.options.mode == FrozenMode::Frozen ==> !v.options.strict_no_lockfile),
        v.status == Status::Running(Stage::Resolve) ==> v.facts.lockfile == LockfileFound::Absent
            && (v.options.mode == FrozenMode::Frozen ==> !v.options.strict_no_lockfile),
        v.status == Status::Running(Stage::RunAfterAllResolved) ==> v.facts.lockfile == LockfileFound::Absent
            && (v.options.mode == FrozenMode::Frozen ==> !v.options.strict_no_lockfile),
        v.status == Status::Running(Stage::OverlayMetadata) ==> v.facts.lockfile == LockfileFound::Absent
            && (v.options.mode == FrozenMode::Frozen ==> !v.options.strict_no_lockfile),
        v.status == Status::Running(Stage::CancelPointScan) ==> v.facts.lockfile == LockfileFound::Absent
            && (v.options.mode == FrozenMode::Frozen ==> !v.options.strict_no_lockfile),
        v.status == Status::Running(Stage::CancelPointFetch) ==> v.facts.lockfile == LockfileFound::Absent
            && (v.options.mode == FrozenMode::Frozen ==> !v.options.strict_no_lockfile),
        v.status == Status::Running(Stage::ApplyIntegrities) ==> v.facts.lockfile == LockfileFound::Absent
            && (v.options.mode == FrozenMode::Frozen ==> !v.options.strict_no_lockfile),
        v.status == Status::Running(Stage::TrimGraph) ==> v.facts.lockfile == LockfileFound::Absent
            && (v.options.mode == FrozenMode::Frozen ==> !v.options.strict_no_lockfile),
        v.status == Status::Running(Stage::RereadPatches) ==> v.facts.lockfile == LockfileFound::Absent
            && v.facts.write_kind == LockfileKind::Pnpm,
        v.status == Status::Running(Stage::RunScanner) ==> v.facts.lockfile == LockfileFound::Absent
            && v.facts.has_scanner,
        v.status == Status::Running(Stage::FillTarballUrls) ==> v.facts.layout.lockfile_enabled
            && v.facts.layout.include_tarball_url && v.facts.lockfile == LockfileFound::Absent,
        v.status == Status::Running(Stage::RefreshRuntimePin) ==> v.facts.layout.lockfile_enabled
            && v.facts.lockfile == LockfileFound::Absent,
        v.status == Status::Running(Stage::StampChecksums) ==> v.facts.layout.lockfile_enabled && v.facts.lockfile
            == LockfileFound::Absent,
        v.status == Status::Running(Stage::AnnotateGraph) ==> v.facts.layout.lockfile_enabled && v.facts.lockfile
            == LockfileFound::Absent,
        v.status == Status::Running(Stage::WriteLockfile) ==> v.facts.layout.lockfile_enabled && v.facts.lockfile
            == LockfileFound::Absent,
        v.status == Status::Running(Stage::CatchUpFetch) ==> v.facts.missing_packages && v.facts.lockfile
            == LockfileFound::Absent,
        v.status == Status::Running(Stage::JoinWriteForRewrite) ==> v.facts.write_pending
            && v.facts.missing_packages && v.facts.new_integrities,
        v.status == Status::Running(Stage::RewriteLockfile) ==> v.facts.layout.lockfile_enabled
            && v.facts.missing_packages && v.facts.new_integrities && v.facts.lockfile == LockfileFound::Absent,
        v.status == Status::Running(Stage::CheckPeers) ==> v.facts.strict_peers,
        v.status == Status::Running(Stage::JoinLockfileWrite) ==> v.facts.write_pending,
{
}

/// A run that has ended went through its last stage: it said that the tree is
/// current, or stopped at the lockfile, or linked the packages and made the
/// install final.
pub proof fn law_finished_run_is_complete(v: RunView)
    requires
        consistent(v),
        v.status is Finished,
    ensures
        v.facts.up_to_date ==> v.history.contains(Stage::ReportUpToDate),
        v.facts.up_to_date && v.facts.store_locked ==> v.history.contains(Stage::RegisterFastPath),
        !v.facts.up_to_date && (v.options.dry_run || v.facts.layout.lockfile_only) ==> v.history.contains(
            Stage::LockfileOnly,
        ),
        !v.facts.up_to_date && !v.options.dry_run && !v.facts.layout.lockfile_only ==> v.history.contains(
            Stage::SelectPackages,
        ) && v.history.contains(Stage::Link) && v.history.contains(Stage::Finalize),
        !v.facts.up_to_date && !v.options.dry_run && !v.facts.layout.lockfile_only && v.facts.lockfile
            == LockfileFound::Absent && v.facts.layout.lockfile_enabled ==> v.history.contains(Stage::WriteLockfile),
{
    lemma_stage_places();
    assert(v.facts.up_to_date ==> v.history.contains(Stage::ReportUpToDate));
    assert(v.facts.up_to_date && v.facts.store_locked ==> v.history.contains(Stage::RegisterFastPath));
    if !v.facts.up_to_date {
        if v.options.dry_run || v.facts.layout.lockfile_only {
            assert(v.history.contains(Stage::LockfileOnly));
        } else {
            assert(v.history.contains(Stage::SelectPackages));
            assert(v.history.contains(Stage::Link));
            assert(v.history.contains(Stage::Finalize));
            assert(v.facts.lockfile == LockfileFound::Absent && v.facts.layout.lockfile_enabled ==> v.history.contains(
                Stage::WriteLockfile,
            ));
        }
    }
}

/// A run learns from a stage what came of it, and forgets nothing else.
pub proof fn law_a_run_learns_what_a_stage_found(v: RunView, a: bool, b: bool, c: bool, d: bool,
    choice: LayoutChoice, kind: LockfileKind, found: LockfileFound)
    ensures
        v.status == Status::Running(Stage::TryFastPath) ==> after_stage(
            v,
            Outcome::FastPath { up_to_date: a, store_locked: b },
        ).facts == (Facts { up_to_date: a, store_locked: b, ..v.facts }),
        v.status == Status::Running(Stage::ResolveLayout) ==> after_stage(
            v,
            Outcome::Layout { choice, default_kind: kind },
        ).facts == (Facts { layout: choice, write_kind: kind, ..v.facts }),
        v.status == Status::Running(Stage::DiscoverWorkspace) ==> after_stage(
            v,
            Outcome::Workspace { has_workspace: a, planned_gvs: b, strict_peers: c, has_scanner: d },
        ).facts == (Facts { has_workspace: a, planned_gvs: b, strict_peers: c, has_scanner: d, ..v.facts }),
        v.status == Status::Running(Stage::DetectLockfileKind) ==> after_stage(
            v,
            Outcome::Kind(Some(kind)),
        ).facts == (Facts { write_kind: kind, ..v.facts }),
        v.status == Status::Running(Stage::DetectLockfileKind) ==> after_stage(v, Outcome::Kind(None)).facts == v.facts,
        v.status == Status::Running(Stage::PreParseLockfile) ==> after_stage(v, Outcome::PreParsed(a)).facts == (Facts {
            pre_parsed: a,
            ..v.facts
        }),
        v.status == Status::Running(Stage::SelectLockfile) ==> after_stage(v, Outcome::Lockfile(found)).facts == (
        Facts { lockfile: found, ..v.facts }),
        v.status == Status::Running(Stage::WriteLockfile) ==> after_stage(v, Outcome::Written { pending: a }).facts == (
        Facts { write_pending: a, ..v.facts }),
        v.status == Status::Running(Stage::TrimGraph) ==> after_stage(
            v,
            Outcome::Trimmed { missing_packages: a },
        ).facts == (Facts { missing_packages: a, ..v.facts }),
        v.status == Status::Running(Stage::CatchUpFetch) ==> after_stage(
            v,
            Outcome::CaughtUp { new_integrities: a },
        ).facts == (Facts { new_integrities: a, ..v.facts }),
        v.status == Status::Running(Stage::JoinWriteForRewrite) || v.status == Status::Running(Stage::JoinLockfileWrite)
            ==> after_stage(v, Outcome::Done).facts == (Facts { write_pending: false, ..v.facts }),
        after_stage(v, Outcome::Failed).facts == v.facts,
{
}

/// A failed run says where it failed. Resolution that failed leaves the fetching
/// it began to be stopped, a fetch that failed the filling of the virtual store to
/// be waited for; nothing else leaves anything to be done.
pub proof fn law_failure_names_its_stage(v: RunView, stage: Stage)
    requires
        v.status == Status::Running(stage),
    ensures
        after_stage(v, Outcome::Failed).status matches Status::Failed(Failure::Stage(s, cleanup)) && s == stage
            && (cleanup == Cleanup::AbortStreamFetch <==> stage == Stage::Resolve) && (cleanup
            == Cleanup::AwaitPrewarm <==> stage == Stage::Fetch),
{
}

/// A lockfile that has to be read and cannot be fails the run, whatever the
/// options are; one that is not there does where it must be.
pub proof fn law_unreadable_lockfile_fails_the_run(v: RunView, found: LockfileFound)
    requires
        v.status == Status::Running(Stage::SelectLockfile) || v.status == Status::Running(Stage::CheckFrozenLockfile),
    ensures
        found != LockfileFound::Absent && found != LockfileFound::Current ==> after_stage(
            v,
            Outcome::Lockfile(found),
        ).status == Status::Failed(Failure::BrokenLockfile),
        v.options.mode == FrozenMode::Frozen && v.options.strict_no_lockfile ==> after_stage(
            v,
            Outcome::Lockfile(LockfileFound::Absent),
        ).status == Status::Failed(Failure::NoLockfile),
        !(v.options.mode == FrozenMode::Frozen && v.options.strict_no_lockfile) ==> !(after_stage(
            v,
            Outcome::Lockfile(LockfileFound::Absent),
        ).status is Failed),
        !(after_stage(v, Outcome::Lockfile(LockfileFound::Current)).status is Failed),
{
}

/// A run begins with its options and with nothing found: no stage was gone through, no
/// tree is taken for current, no lockfile for there or gone, nothing is to be
/// written, and no setting is on.
pub proof fn law_nothing_is_known_at_first(options: InstallOptions)
    ensures
        ({
            let v = first_view(options);
            let f = v.facts;
            &&& v.options == options
            &&& v.history.len() == 0
            &&& !f.up_to_date && !f.store_locked && !f.has_workspace && !f.planned_gvs && !f.strict_peers
            &&& !f.has_scanner && !f.pre_parsed && !f.write_pending && !f.missing_packages && !f.new_integrities
            &&& f.lockfile == LockfileFound::Unknown
            &&& !f.layout.lockfile_enabled && !f.layout.lockfile_only
            &&& !f.layout.shared_workspace_lockfile && !f.layout.include_tarball_url
        }),
{
}

} // verus!
