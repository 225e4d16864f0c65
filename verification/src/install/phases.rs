//! The phases of an install that are timed.
use crate::install::stages::{
    from_lockfile, from_resolver, is_wanted, rank, rewrites_lockfile, wanted, Facts, InstallOptions, Stage,
};
use vstd::prelude::*;

verus! {

/// A phase that is timed.
#[derive(Debug, Clone, Copy, PartialEq, Eq, Structural)]
pub enum Phase {
    RootPreinstall,
    Resolve,
    Fetch,
    /// Filling the virtual store while packages are fetched.
    PrewarmGvs,
    /// Fetching what was put off.
    CatchupFetch,
}

/// The first and the last stage of a phase, where the run has that phase.
///
/// An install from the lockfile fetches in one phase. One that resolves has
/// been fetching since, so its fetch is only the wait for what is left.
pub open spec fn span(o: InstallOptions, f: Facts, phase: Phase) -> Option<(Stage, Stage)> {
    let from_lock = from_lockfile(o, f);
    let resolved = from_resolver(o, f);
    match phase {
        Phase::RootPreinstall => if wanted(o, f, Stage::RootPreinstall) {
            Some((Stage::RootPreinstall, Stage::RootPreinstall))
        } else {
            None
        },
        Phase::Resolve => if from_lock {
            Some((Stage::OpenStore, Stage::CancelPointGraph))
        } else if resolved {
            Some((Stage::OpenStore, Stage::CancelPointFetch))
        } else {
            None
        },
        Phase::Fetch => if from_lock {
            Some((Stage::PlanVirtualStore, Stage::JoinPrewarm))
        } else if resolved {
            Some((Stage::Fetch, Stage::Fetch))
        } else {
            None
        },
        Phase::PrewarmGvs => if resolved {
            Some((Stage::PlanVirtualStore, Stage::JoinPrewarm))
        } else {
            None
        },
        Phase::CatchupFetch => if rewrites_lockfile(o, f) {
            Some((Stage::CatchUpFetch, Stage::RewriteLockfile))
        } else if resolved && f.missing_packages {
            Some((Stage::CatchUpFetch, Stage::CatchUpFetch))
        } else {
            None
        },
    }
}

/// The stages that a phase begins and ends with belong to the run, and it does
/// not end before it begins.
pub proof fn law_phases_lie_within_the_run(o: InstallOptions, f: Facts, phase: Phase)
    ensures
        match span(o, f, phase) {
            Some((first, last)) => wanted(o, f, first) && wanted(o, f, last) && rank(first) <= rank(last),
            None => true,
        },
{
}

/// The first and the last stage of a phase, where the run has that phase.
pub fn phase_span(o: &InstallOptions, f: &Facts, phase: Phase) -> (r: Option<(Stage, Stage)>)
    ensures
        r == span(*o, *f, phase),
{
    let from_lock = is_wanted(o, f, Stage::ApplyPlatformRules);
    let resolved = is_wanted(o, f, Stage::Resolve);
    match phase {
        Phase::RootPreinstall => if is_wanted(o, f, Stage::RootPreinstall) {
            Some((Stage::RootPreinstall, Stage::RootPreinstall))
        } else {
            None
        },
        Phase::Resolve => if from_lock {
            Some((Stage::OpenStore, Stage::CancelPointGraph))
        } else if resolved {
            Some((Stage::OpenStore, Stage::CancelPointFetch))
        } else {
            None
        },
        Phase::Fetch => if from_lock {
            Some((Stage::PlanVirtualStore, Stage::JoinPrewarm))
        } else if resolved {
            Some((Stage::Fetch, Stage::Fetch))
        } else {
            None
        },
        Phase::PrewarmGvs => if resolved {
            Some((Stage::PlanVirtualStore, Stage::JoinPrewarm))
        } else {
            None
        },
        Phase::CatchupFetch => if is_wanted(o, f, Stage::RewriteLockfile) {
            Some((Stage::CatchUpFetch, Stage::RewriteLockfile))
        } else if is_wanted(o, f, Stage::CatchUpFetch) {
            Some((Stage::CatchUpFetch, Stage::CatchUpFetch))
        } else {
            None
        },
    }
}

/// The name that the time of a phase is reported under.
pub fn phase_name(phase: Phase) -> (r: &'static str)
    ensures
        r@ == (match phase {
            Phase::RootPreinstall => "root_preinstall"@,
            Phase::Resolve => "resolve"@,
            Phase::Fetch => "fetch"@,
            Phase::PrewarmGvs => "prewarm_gvs"@,
            Phase::CatchupFetch => "catchup_fetch"@,
        }),
{
    match phase {
        Phase::RootPreinstall => "root_preinstall",
        Phase::Resolve => "resolve",
        Phase::Fetch => "fetch",
        Phase::PrewarmGvs => "prewarm_gvs",
        Phase::CatchupFetch => "catchup_fetch",
    }
}

} // verus!
