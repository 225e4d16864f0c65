//! The stages of an install, and which of them a run goes through.
use vstd::prelude::*;

verus! {

/// How an install treats the lockfile that it finds.
#[derive(Debug, Clone, Copy, PartialEq, Eq, Structural)]
pub enum FrozenMode {
    /// Install from it, as it is.
    Frozen,
    /// Install from it where it is current, else resolve from its pins.
    Prefer,
    /// Resolve what it lacks.
    Fix,
    /// Resolve everything.
    No,
}

/// The format of a lockfile.
#[derive(Debug, Clone, Copy, PartialEq, Eq, Structural)]
pub enum LockfileKind {
    Aube,
    Pnpm,
    Npm,
    Yarn,
    Bun,
}

/// What came of reading the lockfile to install from.
#[derive(Debug, Clone, Copy, PartialEq, Eq, Structural)]
pub enum LockfileFound {
    /// It was not looked for yet.
    Unknown,
    /// It is there, and is to be installed from.
    Current,
    /// There is none that could be installed from.
    Absent,
    /// It could not be read.
    Broken,
}

/// What the caller asks for.
#[derive(Debug, Clone, Copy, PartialEq, Eq, Structural)]
pub struct InstallOptions {
    pub mode: FrozenMode,
    pub dry_run: bool,
    /// Fail where a frozen install finds no lockfile.
    pub strict_no_lockfile: bool,
    pub ignore_scripts: bool,
    pub skip_root_lifecycle: bool,
    pub run_dev_preinstall: bool,
}

/// Where things go.
#[derive(Debug, Clone, Copy, PartialEq, Eq, Structural)]
pub struct LayoutChoice {
    /// Lockfiles are read and written.
    pub lockfile_enabled: bool,
    /// Nothing but the lockfile is brought up to date.
    pub lockfile_only: bool,
    /// The workspace has one lockfile.
    pub shared_workspace_lockfile: bool,
    /// The lockfile records where tarballs are.
    pub include_tarball_url: bool,
}

/// What a run has learned.
#[derive(Debug, Clone, Copy, PartialEq, Eq, Structural)]
pub struct Facts {
    /// The tree is current.
    pub up_to_date: bool,
    /// The global virtual store is there, and was locked.
    pub store_locked: bool,
    pub layout: LayoutChoice,
    pub has_workspace: bool,
    /// The install will use the global virtual store.
    pub planned_gvs: bool,
    /// A required peer that is missing is an error.
    pub strict_peers: bool,
    /// A security scanner is configured.
    pub has_scanner: bool,
    /// A lockfile was read for resolution to start from.
    pub pre_parsed: bool,
    /// The format that the lockfile is written in.
    pub write_kind: LockfileKind,
    pub lockfile: LockfileFound,
    /// The lockfile is being written in the background.
    pub write_pending: bool,
    /// Packages were put off that are needed after all.
    pub missing_packages: bool,
    /// The catch-up fetch computed integrities.
    pub new_integrities: bool,
}

/// A stage of an install.
#[derive(Debug, Clone, Copy, PartialEq, Eq, Structural)]
pub enum Stage {
    /// Forget the recorded state of an install that is forced.
    ResetForcedState,
    /// See whether the tree is current.
    TryFastPath,
    /// Register a current tree with the global virtual store.
    RegisterFastPath,
    /// Say that nothing has to be done.
    ReportUpToDate,
    /// Load the workspace configuration, the manifest and the catalogs.
    LoadConfig,
    /// Get the runtime that scripts run on.
    EnsureRuntime,
    /// Set up how scripts run.
    ConfigureScripts,
    /// Find out where the lockfile and the modules go.
    ResolveLayout,
    /// Merge the lockfiles of git branches.
    MergeBranchLockfiles,
    /// Check that the required scripts are there.
    ValidateRequiredScripts,
    /// Find the projects of the workspace.
    DiscoverWorkspace,
    /// Run the root's hook before resolution.
    DevPreinstall,
    /// Run the projects' own preinstall scripts.
    RootPreinstall,
    /// Stop here if the run was cancelled.
    CancelPointLockfile,
    /// See which lockfile format the project uses.
    DetectLockfileKind,
    /// Read the lockfile that resolution starts from.
    PreParseLockfile,
    /// See whether the lockfile holds conflict markers.
    CheckConflictMarkers,
    /// Hold a dry run to the lockfile.
    CheckFrozenLockfile,
    /// Bring the lockfile up to date, and nothing else.
    LockfileOnly,
    /// Clear what another mode of installing left.
    ResetOnModeChange,
    /// Open the content store.
    OpenStore,
    /// Lock the global virtual store.
    LockVirtualStore,
    /// Try to have the content store to itself.
    LockStore,
    /// Read the lockfile to install from.
    SelectLockfile,
    /// Fold the members' lockfiles in.
    MergeMemberLockfiles,
    /// Drop what other platforms need.
    ApplyPlatformRules,
    /// Stop here if the run was cancelled.
    CancelPointHooks,
    /// Run the hooks before resolution.
    RunPreResolution,
    /// Stop here if the run was cancelled.
    CancelPointResolve,
    /// Start fetching what the resolver finds.
    StartStreamFetch,
    /// Resolve the dependencies.
    Resolve,
    /// Run the hooks after resolution.
    RunAfterAllResolved,
    /// Keep what only the old lockfile knows.
    OverlayMetadata,
    /// Read the declared patches again.
    RereadPatches,
    /// Stop here if the run was cancelled.
    CancelPointGraph,
    /// Check the packages against known advisories.
    RouteAdvisories,
    /// Stop here if the run was cancelled.
    CancelPointScan,
    /// Hand the packages to the security scanner.
    RunScanner,
    /// Stop here if the run was cancelled.
    CancelPointFetch,
    /// Plan the entries of the virtual store.
    PlanVirtualStore,
    /// Start filling the virtual store.
    StartPrewarm,
    /// Fetch the packages, or wait for those being fetched.
    Fetch,
    /// Wait until the virtual store is filled.
    JoinPrewarm,
    /// Record the integrities that fetching computed.
    ApplyIntegrities,
    /// Record where the tarballs are.
    FillTarballUrls,
    /// Record the runtime.
    RefreshRuntimePin,
    /// Record the checksums of the configuration.
    StampChecksums,
    /// Work out what only the lockfile holds.
    AnnotateGraph,
    /// Write the lockfile, or start writing it.
    WriteLockfile,
    /// Drop what this platform does not need.
    TrimGraph,
    /// Fetch what was put off and is needed after all.
    CatchUpFetch,
    /// Wait for the lockfile that is being written.
    JoinWriteForRewrite,
    /// Write the lockfile again, with the new integrities.
    RewriteLockfile,
    /// Drop catalog entries that nothing uses.
    CleanUpCatalogs,
    /// Check that the required peers are there.
    CheckPeers,
    /// Choose the packages that are linked.
    SelectPackages,
    /// Check the packages against the runtime.
    CheckEngines,
    /// Pass on what is odd about the build policy.
    ReportPolicyWarnings,
    /// Link the packages into place.
    Link,
    /// Wait for the lockfile that is being written.
    JoinLockfileWrite,
    /// Link executables, run scripts, record the state.
    Finalize,
}

/// The tree is not known to be current.
pub open spec fn going(f: Facts) -> bool {
    !f.up_to_date
}

/// Nothing but the lockfile is looked at.
pub open spec fn stops_at_lockfile(o: InstallOptions, f: Facts) -> bool {
    f.layout.lockfile_only || o.dry_run
}

/// The hooks of the root project may run.
pub open spec fn may_run_hooks(o: InstallOptions, f: Facts) -> bool {
    !o.ignore_scripts && !o.dry_run && !f.layout.lockfile_only
}

/// Resolution starts from the versions that the lockfile pins.
pub open spec fn reuses_pins(o: InstallOptions, f: Facts) -> bool {
    f.layout.lockfile_enabled && (o.mode == FrozenMode::Fix || o.mode == FrozenMode::Prefer)
}

/// There has to be a lockfile.
pub open spec fn needs_lockfile(o: InstallOptions) -> bool {
    o.mode == FrozenMode::Frozen && o.strict_no_lockfile
}

/// The run goes on to install packages.
pub open spec fn installs(o: InstallOptions, f: Facts) -> bool {
    going(f) && !stops_at_lockfile(o, f)
}

/// The packages are those of the lockfile.
pub open spec fn from_lockfile(o: InstallOptions, f: Facts) -> bool {
    installs(o, f) && f.lockfile == LockfileFound::Current
}

/// The packages are those that the resolver finds.
pub open spec fn from_resolver(o: InstallOptions, f: Facts) -> bool {
    installs(o, f) && f.lockfile == LockfileFound::Absent && !needs_lockfile(o)
}

/// The packages are known.
pub open spec fn has_graph(o: InstallOptions, f: Facts) -> bool {
    from_lockfile(o, f) || from_resolver(o, f)
}

/// A lockfile is written.
pub open spec fn writes_lockfile(o: InstallOptions, f: Facts) -> bool {
    from_resolver(o, f) && f.layout.lockfile_enabled
}

/// The lockfile is written a second time.
pub open spec fn rewrites_lockfile(o: InstallOptions, f: Facts) -> bool {
    writes_lockfile(o, f) && f.missing_packages && f.new_integrities
}

/// The stage belongs to a run with these options that has learned these facts.
pub open spec fn wanted(o: InstallOptions, f: Facts, stage: Stage) -> bool {
    match stage {
        Stage::ResetForcedState => !o.dry_run,
        Stage::TryFastPath => !o.dry_run,
        Stage::RegisterFastPath => f.up_to_date && f.store_locked,
        Stage::ReportUpToDate => f.up_to_date,
        Stage::LoadConfig => going(f),
        Stage::EnsureRuntime => going(f) && !o.dry_run,
        Stage::ConfigureScripts => going(f) && !o.ignore_scripts,
        Stage::ResolveLayout => going(f),
        Stage::MergeBranchLockfiles => going(f) && !o.dry_run,
        Stage::ValidateRequiredScripts => going(f),
        Stage::DiscoverWorkspace => going(f),
        Stage::DevPreinstall => going(f) && o.run_dev_preinstall && may_run_hooks(o, f),
        Stage::RootPreinstall => going(f) && !o.skip_root_lifecycle && may_run_hooks(o, f),
        Stage::CancelPointLockfile => going(f),
        Stage::DetectLockfileKind => going(f) && f.layout.lockfile_enabled,
        Stage::PreParseLockfile => going(f) && reuses_pins(o, f),
        Stage::CheckConflictMarkers => going(f) && reuses_pins(o, f) && !f.pre_parsed,
        Stage::CheckFrozenLockfile => going(f) && o.dry_run && needs_lockfile(o),
        Stage::LockfileOnly => going(f) && stops_at_lockfile(o, f),
        Stage::ResetOnModeChange => installs(o, f),
        Stage::OpenStore => installs(o, f),
        Stage::LockVirtualStore => installs(o, f) && f.planned_gvs,
        Stage::LockStore => installs(o, f),
        Stage::SelectLockfile => installs(o, f),
        Stage::MergeMemberLockfiles => from_lockfile(o, f) && !f.layout.shared_workspace_lockfile && f.has_workspace,
        Stage::ApplyPlatformRules => from_lockfile(o, f),
        Stage::CancelPointHooks => from_resolver(o, f),
        Stage::RunPreResolution => from_resolver(o, f),
        Stage::CancelPointResolve => from_resolver(o, f),
        Stage::StartStreamFetch => from_resolver(o, f),
        Stage::Resolve => from_resolver(o, f),
        Stage::RunAfterAllResolved => from_resolver(o, f),
        Stage::OverlayMetadata => from_resolver(o, f),
        Stage::RereadPatches => from_resolver(o, f) && f.write_kind == LockfileKind::Pnpm,
        Stage::CancelPointGraph => from_lockfile(o, f),
        Stage::RouteAdvisories => has_graph(o, f),
        Stage::CancelPointScan => from_resolver(o, f),
        Stage::RunScanner => from_resolver(o, f) && f.has_scanner,
        Stage::CancelPointFetch => from_resolver(o, f),
        Stage::PlanVirtualStore => has_graph(o, f),
        Stage::StartPrewarm => has_graph(o, f),
        Stage::Fetch => has_graph(o, f),
        Stage::JoinPrewarm => has_graph(o, f),
        Stage::ApplyIntegrities => from_resolver(o, f),
        Stage::FillTarballUrls => writes_lockfile(o, f) && f.layout.include_tarball_url,
        Stage::RefreshRuntimePin => writes_lockfile(o, f),
        Stage::StampChecksums => writes_lockfile(o, f),
        Stage::AnnotateGraph => writes_lockfile(o, f),
        Stage::WriteLockfile => writes_lockfile(o, f),
        Stage::TrimGraph => from_resolver(o, f),
        Stage::CatchUpFetch => from_resolver(o, f) && f.missing_packages,
        Stage::JoinWriteForRewrite => rewrites_lockfile(o, f) && f.write_pending,
        Stage::RewriteLockfile => rewrites_lockfile(o, f),
        Stage::CleanUpCatalogs => has_graph(o, f),
        Stage::CheckPeers => has_graph(o, f) && f.strict_peers,
        Stage::SelectPackages => has_graph(o, f),
        Stage::CheckEngines => has_graph(o, f),
        Stage::ReportPolicyWarnings => has_graph(o, f),
        Stage::Link => has_graph(o, f),
        Stage::JoinLockfileWrite => has_graph(o, f) && f.write_pending,
        Stage::Finalize => has_graph(o, f),
    }
}

/// How many stages there are.
pub open spec fn stage_count() -> int {
    61
}

/// The place of a stage in the order of all stages.
pub open spec fn rank(stage: Stage) -> int {
    match stage {
        Stage::ResetForcedState => 0,
        Stage::TryFastPath => 1,
        Stage::RegisterFastPath => 2,
        Stage::ReportUpToDate => 3,
        Stage::LoadConfig => 4,
        Stage::EnsureRuntime => 5,
        Stage::ConfigureScripts => 6,
        Stage::ResolveLayout => 7,
        Stage::MergeBranchLockfiles => 8,
        Stage::ValidateRequiredScripts => 9,
        Stage::DiscoverWorkspace => 10,
        Stage::DevPreinstall => 11,
        Stage::RootPreinstall => 12,
        Stage::CancelPointLockfile => 13,
        Stage::DetectLockfileKind => 14,
        Stage::PreParseLockfile => 15,
        Stage::CheckConflictMarkers => 16,
        Stage::CheckFrozenLockfile => 17,
        Stage::LockfileOnly => 18,
        Stage::ResetOnModeChange => 19,
        Stage::OpenStore => 20,
        Stage::LockVirtualStore => 21,
        Stage::LockStore => 22,
        Stage::SelectLockfile => 23,
        Stage::MergeMemberLockfiles => 24,
        Stage::ApplyPlatformRules => 25,
        Stage::CancelPointHooks => 26,
        Stage::RunPreResolution => 27,
        Stage::CancelPointResolve => 28,
        Stage::StartStreamFetch => 29,
        Stage::Resolve => 30,
        Stage::RunAfterAllResolved => 31,
        Stage::OverlayMetadata => 32,
        Stage::RereadPatches => 33,
        Stage::CancelPointGraph => 34,
        Stage::RouteAdvisories => 35,
        Stage::CancelPointScan => 36,
        Stage::RunScanner => 37,
        Stage::CancelPointFetch => 38,
        Stage::PlanVirtualStore => 39,
        Stage::StartPrewarm => 40,
        Stage::Fetch => 41,
        Stage::JoinPrewarm => 42,
        Stage::ApplyIntegrities => 43,
        Stage::FillTarballUrls => 44,
        Stage::RefreshRuntimePin => 45,
        Stage::StampChecksums => 46,
        Stage::AnnotateGraph => 47,
        Stage::WriteLockfile => 48,
        Stage::TrimGraph => 49,
        Stage::CatchUpFetch => 50,
        Stage::JoinWriteForRewrite => 51,
        Stage::RewriteLockfile => 52,
        Stage::CleanUpCatalogs => 53,
        Stage::CheckPeers => 54,
        Stage::SelectPackages => 55,
        Stage::CheckEngines => 56,
        Stage::ReportPolicyWarnings => 57,
        Stage::Link => 58,
        Stage::JoinLockfileWrite => 59,
        Stage::Finalize => 60,
    }
}

/// The stage at a place in the order of all stages.
pub open spec fn stage_at(i: int) -> Stage {
    if i <= 0 {
        Stage::ResetForcedState
    } else if i == 1 {
        Stage::TryFastPath
    } else if i == 2 {
        Stage::RegisterFastPath
    } else if i == 3 {
        Stage::ReportUpToDate
    } else if i == 4 {
        Stage::LoadConfig
    } else if i == 5 {
        Stage::EnsureRuntime
    } else if i == 6 {
        Stage::ConfigureScripts
    } else if i == 7 {
        Stage::ResolveLayout
    } else if i == 8 {
        Stage::MergeBranchLockfiles
    } else if i == 9 {
        Stage::ValidateRequiredScripts
    } else if i == 10 {
        Stage::DiscoverWorkspace
    } else if i == 11 {
        Stage::DevPreinstall
    } else if i == 12 {
        Stage::RootPreinstall
    } else if i == 13 {
        Stage::CancelPointLockfile
    } else if i == 14 {
        Stage::DetectLockfileKind
    } else if i == 15 {
        Stage::PreParseLockfile
    } else if i == 16 {
        Stage::CheckConflictMarkers
    } else if i == 17 {
        Stage::CheckFrozenLockfile
    } else if i == 18 {
        Stage::LockfileOnly
    } else if i == 19 {
        Stage::ResetOnModeChange
    } else if i == 20 {
        Stage::OpenStore
    } else if i == 21 {
        Stage::LockVirtualStore
    } else if i == 22 {
        Stage::LockStore
    } else if i == 23 {
        Stage::SelectLockfile
    } else if i == 24 {
        Stage::MergeMemberLockfiles
    } else if i == 25 {
        Stage::ApplyPlatformRules
    } else if i == 26 {
        Stage::CancelPointHooks
    } else if i == 27 {
        Stage::RunPreResolution
    } else if i == 28 {
        Stage::CancelPointResolve
    } else if i == 29 {
        Stage::StartStreamFetch
    } else if i == 30 {
        Stage::Resolve
    } else if i == 31 {
        Stage::RunAfterAllResolved
    } else if i == 32 {
        Stage::OverlayMetadata
    } else if i == 33 {
        Stage::RereadPatches
    } else if i == 34 {
        Stage::CancelPointGraph
    } else if i == 35 {
        Stage::RouteAdvisories
    } else if i == 36 {
        Stage::CancelPointScan
    } else if i == 37 {
        Stage::RunScanner
    } else if i == 38 {
        Stage::CancelPointFetch
    } else if i == 39 {
        Stage::PlanVirtualStore
    } else if i == 40 {
        Stage::StartPrewarm
    } else if i == 41 {
        Stage::Fetch
    } else if i == 42 {
        Stage::JoinPrewarm
    } else if i == 43 {
        Stage::ApplyIntegrities
    } else if i == 44 {
        Stage::FillTarballUrls
    } else if i == 45 {
        Stage::RefreshRuntimePin
    } else if i == 46 {
        Stage::StampChecksums
    } else if i == 47 {
        Stage::AnnotateGraph
    } else if i == 48 {
        Stage::WriteLockfile
    } else if i == 49 {
        Stage::TrimGraph
    } else if i == 50 {
        Stage::CatchUpFetch
    } else if i == 51 {
        Stage::JoinWriteForRewrite
    } else if i == 52 {
        Stage::RewriteLockfile
    } else if i == 53 {
        Stage::CleanUpCatalogs
    } else if i == 54 {
        Stage::CheckPeers
    } else if i == 55 {
        Stage::SelectPackages
    } else if i == 56 {
        Stage::CheckEngines
    } else if i == 57 {
        Stage::ReportPolicyWarnings
    } else if i == 58 {
        Stage::Link
    } else if i == 59 {
        Stage::JoinLockfileWrite
    } else {
        Stage::Finalize
    }
}

/// Every stage has its place.
pub proof fn lemma_stage_places()
    ensures
        forall|s: Stage| 0 <= #[trigger] rank(s) < stage_count() && stage_at(rank(s)) == s,
        forall|i: int| 0 <= i < stage_count() ==> rank(#[trigger] stage_at(i)) == i,
{
}

/// The first stage from place `i` on that belongs to the run.
pub open spec fn first_wanted(o: InstallOptions, f: Facts, i: int) -> Option<Stage>
    decreases stage_count() - i,
{
    if i < 0 || i >= stage_count() {
        None
    } else if wanted(o, f, stage_at(i)) {
        Some(stage_at(i))
    } else {
        first_wanted(o, f, i + 1)
    }
}

/// The first stage that belongs to the run is one that does, and none before
/// it does.
pub proof fn law_no_stage_is_passed_over(o: InstallOptions, f: Facts, i: int, stage: Stage)
    requires
        0 <= i,
    ensures
        match first_wanted(o, f, i) {
            Some(s) => i <= rank(s) && wanted(o, f, s) && (i <= rank(stage) < rank(s) ==> !wanted(o, f, stage)),
            None => i <= rank(stage) ==> !wanted(o, f, stage),
        },
    decreases stage_count() - i,
{
    lemma_stage_places();
    if i < stage_count() {
        if !wanted(o, f, stage_at(i)) {
            law_no_stage_is_passed_over(o, f, i + 1, stage);
        }
        assert(rank(stage_at(i)) == i);
        assert(rank(stage) == i ==> stage == stage_at(i));
    }
}

/// The stage at a place in the order of all stages.
fn stage_by_place(i: usize) -> (r: Stage)
    requires
        i < stage_count(),
    ensures
        r == stage_at(i as int),
{
    match i {
        0 => Stage::ResetForcedState,
        1 => Stage::TryFastPath,
        2 => Stage::RegisterFastPath,
        3 => Stage::ReportUpToDate,
        4 => Stage::LoadConfig,
        5 => Stage::EnsureRuntime,
        6 => Stage::ConfigureScripts,
        7 => Stage::ResolveLayout,
        8 => Stage::MergeBranchLockfiles,
        9 => Stage::ValidateRequiredScripts,
        10 => Stage::DiscoverWorkspace,
        11 => Stage::DevPreinstall,
        12 => Stage::RootPreinstall,
        13 => Stage::CancelPointLockfile,
        14 => Stage::DetectLockfileKind,
        15 => Stage::PreParseLockfile,
        16 => Stage::CheckConflictMarkers,
        17 => Stage::CheckFrozenLockfile,
        18 => Stage::LockfileOnly,
        19 => Stage::ResetOnModeChange,
        20 => Stage::OpenStore,
        21 => Stage::LockVirtualStore,
        22 => Stage::LockStore,
        23 => Stage::SelectLockfile,
        24 => Stage::MergeMemberLockfiles,
        25 => Stage::ApplyPlatformRules,
        26 => Stage::CancelPointHooks,
        27 => Stage::RunPreResolution,
        28 => Stage::CancelPointResolve,
        29 => Stage::StartStreamFetch,
        30 => Stage::Resolve,
        31 => Stage::RunAfterAllResolved,
        32 => Stage::OverlayMetadata,
        33 => Stage::RereadPatches,
        34 => Stage::CancelPointGraph,
        35 => Stage::RouteAdvisories,
        36 => Stage::CancelPointScan,
        37 => Stage::RunScanner,
        38 => Stage::CancelPointFetch,
        39 => Stage::PlanVirtualStore,
        40 => Stage::StartPrewarm,
        41 => Stage::Fetch,
        42 => Stage::JoinPrewarm,
        43 => Stage::ApplyIntegrities,
        44 => Stage::FillTarballUrls,
        45 => Stage::RefreshRuntimePin,
        46 => Stage::StampChecksums,
        47 => Stage::AnnotateGraph,
        48 => Stage::WriteLockfile,
        49 => Stage::TrimGraph,
        50 => Stage::CatchUpFetch,
        51 => Stage::JoinWriteForRewrite,
        52 => Stage::RewriteLockfile,
        53 => Stage::CleanUpCatalogs,
        54 => Stage::CheckPeers,
        55 => Stage::SelectPackages,
        56 => Stage::CheckEngines,
        57 => Stage::ReportPolicyWarnings,
        58 => Stage::Link,
        59 => Stage::JoinLockfileWrite,
        _ => Stage::Finalize,
    }
}

/// The place of a stage in the order of all stages.
pub fn place_of(stage: Stage) -> (r: usize)
    ensures
        r == rank(stage),
{
    match stage {
        Stage::ResetForcedState => 0,
        Stage::TryFastPath => 1,
        Stage::RegisterFastPath => 2,
        Stage::ReportUpToDate => 3,
        Stage::LoadConfig => 4,
        Stage::EnsureRuntime => 5,
        Stage::ConfigureScripts => 6,
        Stage::ResolveLayout => 7,
        Stage::MergeBranchLockfiles => 8,
        Stage::ValidateRequiredScripts => 9,
        Stage::DiscoverWorkspace => 10,
        Stage::DevPreinstall => 11,
        Stage::RootPreinstall => 12,
        Stage::CancelPointLockfile => 13,
        Stage::DetectLockfileKind => 14,
        Stage::PreParseLockfile => 15,
        Stage::CheckConflictMarkers => 16,
        Stage::CheckFrozenLockfile => 17,
        Stage::LockfileOnly => 18,
        Stage::ResetOnModeChange => 19,
        Stage::OpenStore => 20,
        Stage::LockVirtualStore => 21,
        Stage::LockStore => 22,
        Stage::SelectLockfile => 23,
        Stage::MergeMemberLockfiles => 24,
        Stage::ApplyPlatformRules => 25,
        Stage::CancelPointHooks => 26,
        Stage::RunPreResolution => 27,
        Stage::CancelPointResolve => 28,
        Stage::StartStreamFetch => 29,
        Stage::Resolve => 30,
        Stage::RunAfterAllResolved => 31,
        Stage::OverlayMetadata => 32,
        Stage::RereadPatches => 33,
        Stage::CancelPointGraph => 34,
        Stage::RouteAdvisories => 35,
        Stage::CancelPointScan => 36,
        Stage::RunScanner => 37,
        Stage::CancelPointFetch => 38,
        Stage::PlanVirtualStore => 39,
        Stage::StartPrewarm => 40,
        Stage::Fetch => 41,
        Stage::JoinPrewarm => 42,
        Stage::ApplyIntegrities => 43,
        Stage::FillTarballUrls => 44,
        Stage::RefreshRuntimePin => 45,
        Stage::StampChecksums => 46,
        Stage::AnnotateGraph => 47,
        Stage::WriteLockfile => 48,
        Stage::TrimGraph => 49,
        Stage::CatchUpFetch => 50,
        Stage::JoinWriteForRewrite => 51,
        Stage::RewriteLockfile => 52,
        Stage::CleanUpCatalogs => 53,
        Stage::CheckPeers => 54,
        Stage::SelectPackages => 55,
        Stage::CheckEngines => 56,
        Stage::ReportPolicyWarnings => 57,
        Stage::Link => 58,
        Stage::JoinLockfileWrite => 59,
        Stage::Finalize => 60,
    }
}

/// Whether a stage belongs to a run.
pub fn is_wanted(o: &InstallOptions, f: &Facts, stage: Stage) -> (r: bool)
    ensures
        r == wanted(*o, *f, stage),
{
    let going_on = !f.up_to_date;
    let stops = f.layout.lockfile_only || o.dry_run;
    let hooks = !o.ignore_scripts && !o.dry_run && !f.layout.lockfile_only;
    let pins = f.layout.lockfile_enabled && (o.mode == FrozenMode::Fix || o.mode == FrozenMode::Prefer);
    let strict = o.mode == FrozenMode::Frozen && o.strict_no_lockfile;
    let full = going_on && !stops;
    let locked = full && f.lockfile == LockfileFound::Current;
    let fresh = full && f.lockfile == LockfileFound::Absent && !strict;
    let graph = locked || fresh;
    let writes = fresh && f.layout.lockfile_enabled;
    let rewrites = writes && f.missing_packages && f.new_integrities;
    match stage {
        Stage::ResetForcedState => !o.dry_run,
        Stage::TryFastPath => !o.dry_run,
        Stage::RegisterFastPath => f.up_to_date && f.store_locked,
        Stage::ReportUpToDate => f.up_to_date,
        Stage::LoadConfig => going_on,
        Stage::EnsureRuntime => going_on && !o.dry_run,
        Stage::ConfigureScripts => going_on && !o.ignore_scripts,
        Stage::ResolveLayout => going_on,
        Stage::MergeBranchLockfiles => going_on && !o.dry_run,
        Stage::ValidateRequiredScripts => going_on,
        Stage::DiscoverWorkspace => going_on,
        Stage::DevPreinstall => going_on && o.run_dev_preinstall && hooks,
        Stage::RootPreinstall => going_on && !o.skip_root_lifecycle && hooks,
        Stage::CancelPointLockfile => going_on,
        Stage::DetectLockfileKind => going_on && f.layout.lockfile_enabled,
        Stage::PreParseLockfile => going_on && pins,
        Stage::CheckConflictMarkers => going_on && pins && !f.pre_parsed,
        Stage::CheckFrozenLockfile => going_on && o.dry_run && strict,
        Stage::LockfileOnly => going_on && stops,
        Stage::ResetOnModeChange => full,
        Stage::OpenStore => full,
        Stage::LockVirtualStore => full && f.planned_gvs,
        Stage::LockStore => full,
        Stage::SelectLockfile => full,
        Stage::MergeMemberLockfiles => locked && !f.layout.shared_workspace_lockfile && f.has_workspace,
        Stage::ApplyPlatformRules => locked,
        Stage::CancelPointHooks => fresh,
        Stage::RunPreResolution => fresh,
        Stage::CancelPointResolve => fresh,
        Stage::StartStreamFetch => fresh,
        Stage::Resolve => fresh,
        Stage::RunAfterAllResolved => fresh,
        Stage::OverlayMetadata => fresh,
        Stage::RereadPatches => fresh && f.write_kind == LockfileKind::Pnpm,
        Stage::CancelPointGraph => locked,
        Stage::RouteAdvisories => graph,
        Stage::CancelPointScan => fresh,
        Stage::RunScanner => fresh && f.has_scanner,
        Stage::CancelPointFetch => fresh,
        Stage::PlanVirtualStore => graph,
        Stage::StartPrewarm => graph,
        Stage::Fetch => graph,
        Stage::JoinPrewarm => graph,
        Stage::ApplyIntegrities => fresh,
        Stage::FillTarballUrls => writes && f.layout.include_tarball_url,
        Stage::RefreshRuntimePin => writes,
        Stage::StampChecksums => writes,
        Stage::AnnotateGraph => writes,
        Stage::WriteLockfile => writes,
        Stage::TrimGraph => fresh,
        Stage::CatchUpFetch => fresh && f.missing_packages,
        Stage::JoinWriteForRewrite => rewrites && f.write_pending,
        Stage::RewriteLockfile => rewrites,
        Stage::CleanUpCatalogs => graph,
        Stage::CheckPeers => graph && f.strict_peers,
        Stage::SelectPackages => graph,
        Stage::CheckEngines => graph,
        Stage::ReportPolicyWarnings => graph,
        Stage::Link => graph,
        Stage::JoinLockfileWrite => graph && f.write_pending,
        Stage::Finalize => graph,
    }
}

/// The first stage from place `from` on that belongs to the run.
pub fn next_stage(o: &InstallOptions, f: &Facts, from: usize) -> (r: Option<Stage>)
    ensures
        r == first_wanted(*o, *f, from as int),
{
    let mut i: usize = from;
    while i < 61
        invariant
            from <= i,
            first_wanted(*o, *f, from as int) == first_wanted(*o, *f, i as int),
        decreases stage_count() - i,
    {
        let stage = stage_by_place(i);
        if is_wanted(o, f, stage) {
            return Some(stage);
        }
        i += 1;
    }
    None
}

} // verus!
