//! What holds of every run of the installer.
use crate::install::run::{after_stage, consistent, Failure, Outcome, RunView, Status};
use crate::install::stages::{
    law_no_stage_is_passed_over, lemma_stage_places, needs_lockfile, rank, stage_count, InstallOptions, LockfileFound,
    Stage,
};
use vstd::prelude::*;

verus! {

/// The stage changes what is on disk. Stopping at the lockfile writes it, unless
/// the run is dry.
pub open spec fn changes_disk(options: InstallOptions, stage: Stage) -> bool {
    match stage {
        Stage::LockfileOnly => !options.dry_run,
        Stage::ResetForcedState | Stage::RegisterFastPath | Stage::EnsureRuntime | Stage::MergeBranchLockfiles
        | Stage::DevPreinstall | Stage::RootPreinstall | Stage::ResetOnModeChange | Stage::OpenStore
        | Stage::LockVirtualStore | Stage::LockStore | Stage::StartStreamFetch | Stage::StartPrewarm | Stage::Fetch
        | Stage::JoinPrewarm | Stage::WriteLockfile | Stage::CatchUpFetch | Stage::JoinWriteForRewrite
        | Stage::RewriteLockfile | Stage::CleanUpCatalogs | Stage::Link | Stage::JoinLockfileWrite | Stage::Finalize => {
            true
        },
        _ => false,
    }
}

/// A dry run changes nothing on disk.
pub proof fn law_dry_run_changes_nothing(v: RunView)
    requires
        consistent(v),
        v.options.dry_run,
    ensures
        v.status is Running ==> !changes_disk(v.options, v.status->Running_0),
{
}

/// The stage fetches, links or prepares packages.
pub open spec fn handles_packages(stage: Stage) -> bool {
    rank(stage) > rank(Stage::LockfileOnly)
}

/// A run that stops at the lockfile fetches no package and links none, and runs
/// no hook of the root project.
pub proof fn law_lockfile_only_run_handles_no_packages(v: RunView)
    requires
        consistent(v),
        v.facts.layout.lockfile_only || v.options.dry_run,
    ensures
        v.status is Running ==> !handles_packages(v.status->Running_0) && v.status->Running_0 != Stage::DevPreinstall
            && v.status->Running_0 != Stage::RootPreinstall,
{
}

/// A tree that is current is left alone: the run registers it, says so, and
/// ends.
pub proof fn law_current_tree_is_left_alone(v: RunView)
    requires
        consistent(v),
        v.facts.up_to_date,
    ensures
        v.status is Running ==> v.status->Running_0 == Stage::RegisterFastPath || v.status->Running_0
            == Stage::ReportUpToDate,
{
}

/// Scripts that are to be ignored do not run before the packages are there.
pub proof fn law_ignored_scripts_do_not_run(v: RunView)
    requires
        consistent(v),
        v.options.ignore_scripts,
    ensures
        v.status is Running ==> v.status->Running_0 != Stage::DevPreinstall && v.status->Running_0
            != Stage::RootPreinstall && v.status->Running_0 != Stage::ConfigureScripts,
{
}

/// The stage makes resolution start from the lockfile, or makes the lockfile
/// ready and writes it. Stages that go by the setting themselves are not among
/// these: choosing what to install from, taking over earlier metadata, and
/// stopping at the lockfile.
pub open spec fn serves_lockfile(stage: Stage) -> bool {
    match stage {
        Stage::DetectLockfileKind | Stage::PreParseLockfile | Stage::CheckConflictMarkers | Stage::FillTarballUrls
        | Stage::RefreshRuntimePin | Stage::StampChecksums | Stage::AnnotateGraph | Stage::WriteLockfile
        | Stage::RewriteLockfile => true,
        _ => false,
    }
}

/// Where the lockfile is switched off, its format is not looked for, resolution
/// does not start from it, and an install that goes on makes nothing ready for
/// it and does not write it. An earlier lockfile may still be read for the
/// metadata that it holds.
pub proof fn law_disabled_lockfile_is_not_kept_up(v: RunView)
    requires
        consistent(v),
        !v.facts.layout.lockfile_enabled,
    ensures
        v.status is Running ==> !serves_lockfile(v.status->Running_0),
{
}

/// A lockfile that is installed from is not resolved again, and not written.
pub proof fn law_lockfile_in_use_is_kept(v: RunView)
    requires
        consistent(v),
        v.facts.lockfile == LockfileFound::Current,
    ensures
        v.status is Running ==> v.status->Running_0 != Stage::Resolve && v.status->Running_0 != Stage::WriteLockfile
            && v.status->Running_0 != Stage::RewriteLockfile,
{
}

/// A frozen install that needs its lockfile fails where there is none.
pub proof fn law_frozen_install_needs_its_lockfile(v: RunView)
    requires
        v.status == Status::Running(Stage::SelectLockfile) || v.status == Status::Running(Stage::CheckFrozenLockfile),
        needs_lockfile(v.options),
    ensures
        after_stage(v, Outcome::Lockfile(LockfileFound::Absent)).status == Status::Failed(Failure::NoLockfile),
{
}

/// The lockfile is never written twice at once: when it is written again, and
/// when the run comes to its last stage, no write is under way.
pub proof fn law_writes_do_not_race(v: RunView)
    requires
        consistent(v),
        v.status == Status::Running(Stage::RewriteLockfile) || v.status == Status::Running(Stage::Finalize)
            || v.status is Finished,
    ensures
        !v.facts.write_pending,
{
}

/// Packages are linked only after they were checked against advisories and the
/// runtime, were fetched, and the virtual store was filled.
pub proof fn law_linking_follows_the_checks(v: RunView)
    requires
        consistent(v),
        v.status == Status::Running(Stage::Link),
    ensures
        v.history.contains(Stage::RouteAdvisories),
        v.history.contains(Stage::Fetch),
        v.history.contains(Stage::JoinPrewarm),
        v.history.contains(Stage::CheckEngines),
{
    assert(crate::install::run::on_every_way(Stage::RouteAdvisories));
    assert(crate::install::run::on_every_way(Stage::Fetch));
    assert(crate::install::run::on_every_way(Stage::JoinPrewarm));
    assert(crate::install::run::on_every_way(Stage::CheckEngines));
}

/// A run that finished linked the packages, unless the tree was current or
/// nothing but the lockfile was asked for.
pub proof fn law_finished_run_has_linked(v: RunView)
    requires
        consistent(v),
        v.status is Finished,
        !v.facts.up_to_date,
        !v.facts.layout.lockfile_only,
        !v.options.dry_run,
    ensures
        v.history.contains(Stage::Link),
        v.history.contains(Stage::Finalize),
{
    assert(crate::install::run::on_every_way(Stage::Link));
    assert(crate::install::run::on_every_way(Stage::Finalize));
}

/// A stage that failed ends the run, and is not among those that are done.
pub proof fn law_failure_ends_the_run(v: RunView)
    requires
        consistent(v),
        v.status is Running,
    ensures
        after_stage(v, Outcome::Failed).status is Failed,
        after_stage(v, Outcome::Failed).history == v.history,
        !v.history.contains(v.status->Running_0),
{
    let s = v.status->Running_0;
    if v.history.contains(s) {
        let i = choose|i: int| 0 <= i < v.history.len() && v.history[i] == s;
        assert(rank(v.history[i]) < rank(s));
    }
}

/// Every step takes a run further, so every run ends.
pub proof fn law_every_run_ends(v: RunView, outcome: Outcome)
    requires
        v.status is Running,
        after_stage(v, outcome).status is Running,
    ensures
        rank(v.status->Running_0) < rank(after_stage(v, outcome).status->Running_0) < stage_count(),
{
    lemma_stage_places();
    let s = v.status->Running_0;
    law_no_stage_is_passed_over(v.options, after_stage(v, outcome).facts, rank(s) + 1, s);
}

} // verus!
