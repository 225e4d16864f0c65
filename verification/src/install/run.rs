//! A run of the installer: where it stands, and how it goes on.
use crate::embedder::Embedder;
use crate::install::stages::{
    first_wanted, has_graph, law_no_stage_is_passed_over, lemma_stage_places, needs_lockfile, next_stage, place_of,
    rank, stage_count, stops_at_lockfile, wanted, writes_lockfile, Facts, FrozenMode, InstallOptions, LayoutChoice, LockfileFound,
    LockfileKind, Stage,
};
use crate::text::{concat3, joined_text, texts};
use vstd::prelude::*;

verus! {

/// What came of a stage.
#[derive(Debug, Clone, Copy, PartialEq, Eq, Structural)]
pub enum Outcome {
    /// It is done, and nothing was learned.
    Done,
    /// What the look at the tree showed.
    FastPath { up_to_date: bool, store_locked: bool },
    /// Where things go, and the format of a new lockfile.
    Layout { choice: LayoutChoice, default_kind: LockfileKind },
    /// What the workspace and its settings ask for.
    Workspace { has_workspace: bool, planned_gvs: bool, strict_peers: bool, has_scanner: bool },
    /// The format of the lockfile that is there.
    Kind(Option<LockfileKind>),
    /// Whether a lockfile was read for resolution to start from.
    PreParsed(bool),
    /// What came of reading the lockfile to install from.
    Lockfile(LockfileFound),
    /// Whether the lockfile is still being written.
    Written { pending: bool },
    /// Whether packages are missing that are needed.
    Trimmed { missing_packages: bool },
    /// Whether the catch-up fetch computed integrities.
    CaughtUp { new_integrities: bool },
    /// It failed.
    Failed,
}

/// What is left to do after a stage failed.
#[derive(Debug, Clone, Copy, PartialEq, Eq, Structural)]
pub enum Cleanup {
    Nothing,
    /// Stop fetching what the resolver found.
    AbortStreamFetch,
    /// Wait for the task that fills the virtual store: its error, where it has
    /// one, is the cause.
    AwaitPrewarm,
}

/// Why a run failed.
#[derive(Debug, Clone, Copy, PartialEq, Eq, Structural)]
pub enum Failure {
    /// The stage itself failed.
    Stage(Stage, Cleanup),
    /// The run was cancelled before it began.
    Cancelled,
    /// There has to be a lockfile, and there is none.
    NoLockfile,
    /// The lockfile could not be read.
    BrokenLockfile,
}

/// Where a run stands.
#[derive(Debug, Clone, Copy, PartialEq, Eq, Structural)]
pub enum Status {
    /// This stage is to be done.
    Running(Stage),
    Finished,
    Failed(Failure),
}

/// What is known before anything was looked at.
pub open spec fn no_facts() -> Facts {
    Facts {
        up_to_date: false,
        store_locked: false,
        layout: LayoutChoice {
            lockfile_enabled: false,
            lockfile_only: false,
            shared_workspace_lockfile: false,
            include_tarball_url: false,
        },
        has_workspace: false,
        planned_gvs: false,
        strict_peers: false,
        has_scanner: false,
        pre_parsed: false,
        write_kind: LockfileKind::Aube,
        lockfile: LockfileFound::Unknown,
        write_pending: false,
        missing_packages: false,
        new_integrities: false,
    }
}

/// What is known after a stage.
pub open spec fn learned(f: Facts, stage: Stage, outcome: Outcome) -> Facts {
    match (stage, outcome) {
        (Stage::TryFastPath, Outcome::FastPath { up_to_date, store_locked }) => Facts { up_to_date, store_locked, ..f },
        (Stage::ResolveLayout, Outcome::Layout { choice, default_kind }) => Facts {
            layout: choice,
            write_kind: default_kind,
            ..f
        },
        (Stage::DiscoverWorkspace, Outcome::Workspace { has_workspace, planned_gvs, strict_peers, has_scanner }) => {
            Facts { has_workspace, planned_gvs, strict_peers, has_scanner, ..f }
        },
        (Stage::DetectLockfileKind, Outcome::Kind(Some(kind))) => Facts { write_kind: kind, ..f },
        (Stage::PreParseLockfile, Outcome::PreParsed(pre_parsed)) => Facts { pre_parsed, ..f },
        (Stage::SelectLockfile, Outcome::Lockfile(lockfile)) => Facts { lockfile, ..f },
        (Stage::WriteLockfile, Outcome::Written { pending }) => Facts { write_pending: pending, ..f },
        (Stage::TrimGraph, Outcome::Trimmed { missing_packages }) => Facts { missing_packages, ..f },
        (Stage::CatchUpFetch, Outcome::CaughtUp { new_integrities }) => Facts { new_integrities, ..f },
        (Stage::JoinWriteForRewrite, _) => Facts { write_pending: false, ..f },
        (Stage::JoinLockfileWrite, _) => Facts { write_pending: false, ..f },
        _ => f,
    }
}

/// What is left to do after a stage failed.
pub open spec fn cleanup_after(stage: Stage) -> Cleanup {
    match stage {
        Stage::Resolve => Cleanup::AbortStreamFetch,
        Stage::Fetch => Cleanup::AwaitPrewarm,
        _ => Cleanup::Nothing,
    }
}

/// The stage reads a lockfile that the run depends on.
pub open spec fn reads_lockfile(stage: Stage) -> bool {
    stage == Stage::CheckFrozenLockfile || stage == Stage::SelectLockfile
}

/// Where a run stands after a stage.
pub open spec fn status_after(o: InstallOptions, f: Facts, stage: Stage, outcome: Outcome) -> Status {
    if outcome == Outcome::Failed {
        Status::Failed(Failure::Stage(stage, cleanup_after(stage)))
    } else if reads_lockfile(stage) && outcome == Outcome::Lockfile(LockfileFound::Absent) && needs_lockfile(o) {
        Status::Failed(Failure::NoLockfile)
    } else if reads_lockfile(stage) && outcome != Outcome::Lockfile(LockfileFound::Absent) && outcome
        != Outcome::Lockfile(LockfileFound::Current) {
        Status::Failed(Failure::BrokenLockfile)
    } else {
        match first_wanted(o, learned(f, stage, outcome), rank(stage) + 1) {
            Some(s) => Status::Running(s),
            None => Status::Finished,
        }
    }
}

/// A run, as it stands.
#[verifier::ext_equal]
pub struct RunView {
    pub options: InstallOptions,
    pub facts: Facts,
    pub status: Status,
    /// The stages that are done, in order.
    pub history: Seq<Stage>,
}

/// A run after its stage came to `outcome`.
pub open spec fn after_stage(v: RunView, outcome: Outcome) -> RunView {
    match v.status {
        Status::Running(stage) => RunView {
            options: v.options,
            facts: if outcome == Outcome::Failed {
                v.facts
            } else {
                learned(v.facts, stage, outcome)
            },
            status: status_after(v.options, v.facts, stage, outcome),
            history: if outcome == Outcome::Failed {
                v.history
            } else {
                v.history.push(stage)
            },
        },
        _ => v,
    }
}

/// A run before its first stage.
pub open spec fn first_view(options: InstallOptions) -> RunView {
    RunView {
        options,
        facts: no_facts(),
        status: match first_wanted(options, no_facts(), 0) {
            Some(s) => Status::Running(s),
            None => Status::Finished,
        },
        history: Seq::empty(),
    }
}

/// Every run that installs packages goes through the stage.
pub open spec fn on_every_way(stage: Stage) -> bool {
    match stage {
        Stage::RouteAdvisories | Stage::PlanVirtualStore | Stage::StartPrewarm | Stage::Fetch | Stage::JoinPrewarm
        | Stage::CleanUpCatalogs | Stage::SelectPackages | Stage::CheckEngines | Stage::ReportPolicyWarnings
        | Stage::Link | Stage::Finalize => true,
        _ => false,
    }
}

/// The stage waits for a lockfile that is being written.
pub open spec fn joins_write(stage: Stage) -> bool {
    stage == Stage::JoinWriteForRewrite || stage == Stage::JoinLockfileWrite
}

/// Of the stages before place `end`, those are done that belong to the run, and
/// no others. Whether a write had to be waited for is forgotten once it is done.
pub open spec fn history_complete(v: RunView, end: int) -> bool {
    forall|t: Stage|
        rank(t) < end && !joins_write(t) ==> (#[trigger] v.history.contains(t) <==> wanted(v.options, v.facts, t))
}

/// What holds of every run as it stands.
pub open spec fn consistent(v: RunView) -> bool {
    &&& v.status is Running ==> history_complete(v, rank(v.status->Running_0))
    &&& v.status is Finished ==> history_complete(v, stage_count())
    &&& v.facts.up_to_date ==> !v.options.dry_run
    &&& v.facts.new_integrities ==> v.facts.missing_packages
    &&& v.facts.write_pending ==> writes_lockfile(v.options, v.facts)
    &&& v.status is Running ==> ({
        let s = v.status->Running_0;
        &&& wanted(v.options, v.facts, s)
        &&& rank(s) <= rank(Stage::TryFastPath) ==> !v.facts.up_to_date
        &&& rank(s) <= rank(Stage::SelectLockfile) ==> v.facts.lockfile == LockfileFound::Unknown
        &&& rank(s) > rank(Stage::SelectLockfile) ==> has_graph(v.options, v.facts)
        &&& rank(s) <= rank(Stage::CatchUpFetch) ==> !v.facts.new_integrities
        &&& v.facts.write_pending ==> rank(Stage::WriteLockfile) < rank(s) <= rank(Stage::JoinLockfileWrite)
        &&& v.facts.write_pending ==> rank(s) <= rank(Stage::JoinWriteForRewrite) || rank(s) > rank(
            Stage::RewriteLockfile,
        )
        &&& forall|t: Stage| #[trigger]
            on_every_way(t) && rank(t) < rank(s) && has_graph(v.options, v.facts) ==> v.history.contains(t)
        &&& forall|i: int| 0 <= i < v.history.len() ==> rank(#[trigger] v.history[i]) < rank(s)
    })
    &&& v.status is Finished ==> ({
        &&& !v.facts.write_pending
        &&& v.facts.up_to_date || stops_at_lockfile(v.options, v.facts) || has_graph(v.options, v.facts)
        &&& has_graph(v.options, v.facts) ==> forall|t: Stage| #[trigger] on_every_way(t) ==> v.history.contains(t)
    })
    &&& forall|i: int, j: int|
        0 <= i < j < v.history.len() ==> rank(#[trigger] v.history[i]) < rank(#[trigger] v.history[j])
}

/// Every run begins as it should.
pub proof fn law_run_begins_consistent(options: InstallOptions)
    ensures
        consistent(first_view(options)),
{
    let f = no_facts();
    lemma_stage_places();
    law_no_stage_is_passed_over(options, f, 0, Stage::LoadConfig);
    assert(wanted(options, f, Stage::LoadConfig));
}

/// After the lockfile was read, a stage belongs to a run only where the
/// packages are known; one that every way leads through belongs to each such run.
proof fn lemma_wanted_with_graph(o: InstallOptions, f: Facts, s: Stage)
    ensures
        rank(s) > rank(Stage::SelectLockfile) && wanted(o, f, s) ==> has_graph(o, f),
        on_every_way(s) ==> wanted(o, f, s) == has_graph(o, f) && rank(s) > rank(Stage::SelectLockfile),
{
}

/// What a stage teaches leaves alone what was decided before it.
proof fn lemma_learned(o: InstallOptions, f: Facts, stage: Stage, outcome: Outcome)
    ensures
        ({
            let g = learned(f, stage, outcome);
            &&& stage != Stage::TryFastPath ==> g.up_to_date == f.up_to_date
            &&& stage != Stage::SelectLockfile ==> g.lockfile == f.lockfile
            &&& rank(stage) > rank(Stage::SelectLockfile) ==> has_graph(o, g) == has_graph(o, f) && writes_lockfile(
                o,
                g,
            ) == writes_lockfile(o, f)
            &&& stage != Stage::CatchUpFetch ==> g.new_integrities == f.new_integrities
            &&& stage != Stage::TrimGraph ==> g.missing_packages == f.missing_packages
            &&& g.write_pending ==> f.write_pending || stage == Stage::WriteLockfile
            &&& (stage == Stage::JoinWriteForRewrite || stage == Stage::JoinLockfileWrite) ==> !g.write_pending
        }),
{
}

/// What a stage leaves alone.
spec fn leaves_alone(f: Facts, g: Facts, stage: Stage) -> bool {
    match stage {
        Stage::TryFastPath => true,
        Stage::ResolveLayout => g.up_to_date == f.up_to_date && g.store_locked == f.store_locked,
        Stage::DiscoverWorkspace | Stage::DetectLockfileKind | Stage::PreParseLockfile => {
            g.up_to_date == f.up_to_date && g.store_locked == f.store_locked && g.layout == f.layout
        },
        Stage::SelectLockfile => g == (Facts { lockfile: g.lockfile, ..f }),
        Stage::WriteLockfile | Stage::JoinWriteForRewrite | Stage::JoinLockfileWrite => {
            g == (Facts { write_pending: g.write_pending, ..f })
        },
        Stage::TrimGraph => g == (Facts { missing_packages: g.missing_packages, ..f }),
        Stage::CatchUpFetch => g == (Facts { new_integrities: g.new_integrities, ..f }),
        _ => g == f,
    }
}

#[verifier::spinoff_prover]
proof fn lemma_leaves_alone(f: Facts, stage: Stage, outcome: Outcome)
    ensures
        leaves_alone(f, learned(f, stage, outcome), stage),
{
    let g = learned(f, stage, outcome);
    match stage {
        Stage::TryFastPath => {},
        Stage::ResolveLayout => {
            assert(g.up_to_date == f.up_to_date && g.store_locked == f.store_locked);
        },
        Stage::DiscoverWorkspace => {
            assert(g.up_to_date == f.up_to_date && g.store_locked == f.store_locked && g.layout == f.layout);
        },
        Stage::DetectLockfileKind => {
            assert(g.up_to_date == f.up_to_date && g.store_locked == f.store_locked && g.layout == f.layout);
        },
        Stage::PreParseLockfile => {
            assert(g.up_to_date == f.up_to_date && g.store_locked == f.store_locked && g.layout == f.layout);
        },
        Stage::SelectLockfile => {},
        Stage::WriteLockfile => {},
        Stage::JoinWriteForRewrite => {},
        Stage::JoinLockfileWrite => {},
        Stage::TrimGraph => {},
        Stage::CatchUpFetch => {},
        _ => {
            assert(g == f);
        },
    }
}

/// What a stage teaches does not change whether it or an earlier stage belongs to
/// the run.
#[verifier::spinoff_prover]
proof fn lemma_learned_keeps_wanted(o: InstallOptions, f: Facts, g: Facts, stage: Stage, t: Stage)
    requires
        leaves_alone(f, g, stage),
        rank(t) <= rank(stage),
        !joins_write(t),
    ensures
        wanted(o, g, t) == wanted(o, f, t),
{
    match stage {
        Stage::TryFastPath => lemma_first_stages(o, f, g, t),
        Stage::ResolveLayout => lemma_stages_before_layout(o, f, g, t),
        Stage::DiscoverWorkspace => lemma_stages_before_workspace(o, f, g, t),
        Stage::DetectLockfileKind | Stage::PreParseLockfile => lemma_stages_before_pins(o, f, g, t),
        Stage::SelectLockfile => lemma_stages_before_lockfile(o, f, g, t),
        Stage::TrimGraph | Stage::CatchUpFetch => lemma_stages_before_catch_up(o, f, g, t),
        Stage::WriteLockfile | Stage::JoinWriteForRewrite | Stage::JoinLockfileWrite => {
            lemma_stages_besides_joins(o, f, g, t)
        },
        _ => {},
    }
}

/// Whether a first stage belongs to a run is known from the options.
proof fn lemma_first_stages(o: InstallOptions, f: Facts, g: Facts, t: Stage)
    requires
        rank(t) <= rank(Stage::TryFastPath),
    ensures
        wanted(o, g, t) == wanted(o, f, t),
{
}

proof fn lemma_stages_before_layout(o: InstallOptions, f: Facts, g: Facts, t: Stage)
    requires
        rank(t) <= rank(Stage::ResolveLayout),
        g.up_to_date == f.up_to_date,
        g.store_locked == f.store_locked,
    ensures
        wanted(o, g, t) == wanted(o, f, t),
{
}

proof fn lemma_stages_before_workspace(o: InstallOptions, f: Facts, g: Facts, t: Stage)
    requires
        rank(t) <= rank(Stage::DiscoverWorkspace),
        g.up_to_date == f.up_to_date,
        g.store_locked == f.store_locked,
        g.layout == f.layout,
    ensures
        wanted(o, g, t) == wanted(o, f, t),
{
}

proof fn lemma_stages_before_pins(o: InstallOptions, f: Facts, g: Facts, t: Stage)
    requires
        rank(t) <= rank(Stage::PreParseLockfile),
        g.up_to_date == f.up_to_date,
        g.store_locked == f.store_locked,
        g.layout == f.layout,
    ensures
        wanted(o, g, t) == wanted(o, f, t),
{
}

proof fn lemma_stages_before_lockfile(o: InstallOptions, f: Facts, g: Facts, t: Stage)
    requires
        rank(t) <= rank(Stage::SelectLockfile),
        g == (Facts { lockfile: g.lockfile, ..f }),
    ensures
        wanted(o, g, t) == wanted(o, f, t),
{
}

proof fn lemma_stages_before_catch_up(o: InstallOptions, f: Facts, g: Facts, t: Stage)
    requires
        rank(t) <= rank(Stage::TrimGraph) || (rank(t) <= rank(Stage::CatchUpFetch) && g.missing_packages
            == f.missing_packages),
        g == (Facts { missing_packages: g.missing_packages, new_integrities: g.new_integrities, ..f }),
    ensures
        wanted(o, g, t) == wanted(o, f, t),
{
}

proof fn lemma_stages_besides_joins(o: InstallOptions, f: Facts, g: Facts, t: Stage)
    requires
        !joins_write(t),
        g == (Facts { write_pending: g.write_pending, ..f }),
    ensures
        wanted(o, g, t) == wanted(o, f, t),
{
}

/// The stages that are done stay those that belong to the run.
proof fn lemma_history_complete(v: RunView, stage: Stage, outcome: Outcome, end: int)
    requires
        consistent(v),
        v.status == Status::Running(stage),
        outcome != Outcome::Failed,
        rank(stage) < end <= stage_count(),
        forall|t: Stage|
            rank(stage) < rank(t) < end ==> !#[trigger] wanted(v.options, learned(v.facts, stage, outcome), t),
    ensures
        history_complete(after_stage(v, outcome), end),
{
    let w = after_stage(v, outcome);
    lemma_stage_places();
    lemma_leaves_alone(v.facts, stage, outcome);
    assert forall|t: Stage| rank(t) < end && !joins_write(t) implies (#[trigger] w.history.contains(t) <==> wanted(
        w.options,
        w.facts,
        t,
    )) by {
        if rank(t) < rank(stage) {
            lemma_learned_keeps_wanted(v.options, v.facts, w.facts, stage, t);
            assert(v.history.contains(t) <==> wanted(v.options, v.facts, t));
            if v.history.contains(t) {
                let i = choose|i: int| 0 <= i < v.history.len() && v.history[i] == t;
                assert(w.history[i] == t);
            }
            if w.history.contains(t) {
                let i = choose|i: int| 0 <= i < w.history.len() && w.history[i] == t;
                assert(t != stage);
                assert(v.history[i] == t);
            }
        } else if rank(t) == rank(stage) {
            assert(t == stage);
            lemma_learned_keeps_wanted(v.options, v.facts, w.facts, stage, t);
            assert(w.history[w.history.len() - 1] == t);
        } else {
            assert(!wanted(v.options, learned(v.facts, stage, outcome), t));
            if w.history.contains(t) {
                let i = choose|i: int| 0 <= i < w.history.len() && w.history[i] == t;
                assert(t != stage);
                assert(v.history[i] == t);
                assert(rank(v.history[i]) < rank(stage));
            }
        }
    }
}

/// The stage that follows is as it should be.
proof fn lemma_next_stage(v: RunView, stage: Stage, outcome: Outcome, next: Stage)
    requires
        consistent(v),
        v.status == Status::Running(stage),
        after_stage(v, outcome).status == Status::Running(next),
    ensures
        consistent(after_stage(v, outcome)),
{
    let o = v.options;
    let f = v.facts;
    let w = after_stage(v, outcome);
    let g = w.facts;
    lemma_stage_places();
    lemma_learned(o, f, stage, outcome);
    lemma_wanted_with_graph(o, g, next);
    lemma_wanted_with_graph(o, f, stage);
    law_no_stage_is_passed_over(o, g, rank(stage) + 1, next);
    law_no_stage_is_passed_over(o, g, rank(stage) + 1, Stage::JoinLockfileWrite);
    law_no_stage_is_passed_over(o, g, rank(stage) + 1, Stage::JoinWriteForRewrite);
    law_no_stage_is_passed_over(o, g, rank(stage) + 1, Stage::SelectLockfile);
    assert(w.history.last() == stage);
    assert forall|t: Stage| rank(stage) < rank(t) < rank(next) implies !#[trigger] wanted(
        v.options,
        learned(v.facts, stage, outcome),
        t,
    ) by {
        law_no_stage_is_passed_over(o, g, rank(stage) + 1, t);
    }
    lemma_history_complete(v, stage, outcome, rank(next));
    assert forall|t: Stage| #[trigger] on_every_way(t) && rank(t) < rank(next) && has_graph(o, g) implies w.history.contains(t) by {
        lemma_wanted_with_graph(o, g, t);
        law_no_stage_is_passed_over(o, g, rank(stage) + 1, t);
        if rank(t) < rank(stage) {
            assert(v.history.contains(t));
            let i = choose|i: int| 0 <= i < v.history.len() && v.history[i] == t;
            assert(w.history[i] == t);
        } else {
            assert(rank(t) == rank(stage));
            assert(t == stage);
            assert(w.history[w.history.len() - 1] == t);
        }
    }
    assert forall|i: int| 0 <= i < w.history.len() implies rank(#[trigger] w.history[i]) < rank(next) by {
        if i < v.history.len() {
            assert(w.history[i] == v.history[i]);
        }
    }
    assert forall|i: int, j: int| 0 <= i < j < w.history.len() implies rank(#[trigger] w.history[i]) < rank(
        #[trigger] w.history[j],
    ) by {
        assert(w.history[i] == v.history[i]);
        if j < v.history.len() {
            assert(w.history[j] == v.history[j]);
        }
    }
}

/// A run that ends is as it should be.
proof fn lemma_run_ends(v: RunView, stage: Stage, outcome: Outcome)
    requires
        consistent(v),
        v.status == Status::Running(stage),
        after_stage(v, outcome).status is Finished,
    ensures
        consistent(after_stage(v, outcome)),
{
    let o = v.options;
    let f = v.facts;
    let w = after_stage(v, outcome);
    let g = w.facts;
    lemma_stage_places();
    lemma_learned(o, f, stage, outcome);
    lemma_wanted_with_graph(o, f, stage);
    law_no_stage_is_passed_over(o, g, rank(stage) + 1, Stage::JoinLockfileWrite);
    law_no_stage_is_passed_over(o, g, rank(stage) + 1, Stage::SelectLockfile);
    law_no_stage_is_passed_over(o, g, rank(stage) + 1, Stage::Finalize);
    assert forall|t: Stage| rank(stage) < rank(t) < stage_count() implies !#[trigger] wanted(
        v.options,
        learned(v.facts, stage, outcome),
        t,
    ) by {
        law_no_stage_is_passed_over(o, g, rank(stage) + 1, t);
    }
    lemma_history_complete(v, stage, outcome, stage_count());
    if has_graph(o, g) {
        assert forall|t: Stage| #[trigger] on_every_way(t) implies w.history.contains(t) by {
            lemma_wanted_with_graph(o, g, t);
            law_no_stage_is_passed_over(o, g, rank(stage) + 1, t);
            if rank(t) < rank(stage) {
                assert(v.history.contains(t));
                let i = choose|i: int| 0 <= i < v.history.len() && v.history[i] == t;
                assert(w.history[i] == t);
            } else {
                assert(t == stage);
                assert(w.history[w.history.len() - 1] == t);
            }
        }
    }
    assert forall|i: int, j: int| 0 <= i < j < w.history.len() implies rank(#[trigger] w.history[i]) < rank(
        #[trigger] w.history[j],
    ) by {
        assert(w.history[i] == v.history[i]);
        if j < v.history.len() {
            assert(w.history[j] == v.history[j]);
        }
    }
}

/// Every run goes on as it should, whatever comes of its stages.
pub proof fn law_run_stays_consistent(v: RunView, outcome: Outcome)
    requires
        consistent(v),
    ensures
        consistent(after_stage(v, outcome)),
{
    let w = after_stage(v, outcome);
    if v.status is Running {
        let stage = v.status->Running_0;
        match w.status {
            Status::Running(next) => {
                lemma_next_stage(v, stage, outcome, next);
            },
            Status::Finished => {
                lemma_run_ends(v, stage, outcome);
            },
            Status::Failed(_) => {
                lemma_stage_places();
                lemma_learned(v.options, v.facts, stage, outcome);
                lemma_wanted_with_graph(v.options, v.facts, stage);
                assert forall|i: int, j: int| 0 <= i < j < w.history.len() implies rank(
                    #[trigger] w.history[i],
                ) < rank(#[trigger] w.history[j]) by {
                    assert(w.history[i] == v.history[i]);
                    if j < v.history.len() {
                        assert(w.history[j] == v.history[j]);
                    }
                }
            },
        }
    }
}

/// A run of the installer.
#[derive(Debug)]
pub struct Run {
    options: InstallOptions,
    facts: Facts,
    status: Status,
    history: Vec<Stage>,
}

impl View for Run {
    type V = RunView;

    closed spec fn view(&self) -> RunView {
        RunView { options: self.options, facts: self.facts, status: self.status, history: self.history@ }
    }
}

/// Begin a run. One that was cancelled before it began does nothing.
pub fn run(options: InstallOptions, cancelled: bool) -> (r: Run)
    ensures
        consistent(r@),
        !cancelled ==> r@ == first_view(options),
        cancelled ==> r@ == (RunView {
            status: Status::Failed(Failure::Cancelled),
            ..first_view(options)
        }),
{
    let facts = Facts {
        up_to_date: false,
        store_locked: false,
        layout: LayoutChoice {
            lockfile_enabled: false,
            lockfile_only: false,
            shared_workspace_lockfile: false,
            include_tarball_url: false,
        },
        has_workspace: false,
        planned_gvs: false,
        strict_peers: false,
        has_scanner: false,
        pre_parsed: false,
        write_kind: LockfileKind::Aube,
        lockfile: LockfileFound::Unknown,
        write_pending: false,
        missing_packages: false,
        new_integrities: false,
    };
    let status = if cancelled {
        Status::Failed(Failure::Cancelled)
    } else {
        match next_stage(&options, &facts, 0) {
            Some(stage) => Status::Running(stage),
            None => Status::Finished,
        }
    };
    let history: Vec<Stage> = Vec::new();
    proof {
        law_run_begins_consistent(options);
        assert(history@ =~= Seq::<Stage>::empty());
    }
    Run { options, facts, status, history }
}

impl Run {
    #[verifier::type_invariant]
    spec fn holds(self) -> bool {
        consistent(self@)
    }

    /// Where the run stands.
    pub fn status(&self) -> (r: Status)
        ensures
            r == self@.status,
            consistent(self@),
    {
        proof {
            use_type_invariant(self);
        }
        self.status
    }

    /// What the run has learned.
    pub fn facts(&self) -> (r: Facts)
        ensures
            r == self@.facts,
            consistent(self@),
    {
        proof {
            use_type_invariant(self);
        }
        self.facts
    }

    /// The stages that are done, in order.
    pub fn history(&self) -> (r: &Vec<Stage>)
        ensures
            r@ == self@.history,
            consistent(self@),
    {
        proof {
            use_type_invariant(self);
        }
        &self.history
    }

    /// Whether a run that stops at the lockfile may write it.
    pub fn may_write_lockfile(&self) -> (r: bool)
        ensures
            r == !self@.options.dry_run,
    {
        !self.options.dry_run
    }

    /// Go on after the stage came to `outcome`. A run that has ended stays as
    /// it is.
    pub fn complete(&mut self, outcome: Outcome)
        ensures
            final(self)@ == after_stage(old(self)@, outcome),
            consistent(final(self)@),
    {
        proof {
            use_type_invariant(&*self);
            law_run_stays_consistent(self@, outcome);
        }
        let ghost was = self@;
        if let Status::Running(stage) = self.status {
            let options = self.options;
            let mut facts = self.facts;
            let mut history: Vec<Stage> = self.history.clone();
            proof {
                assert(history@ =~= self.history@);
            }
            let status = if let Outcome::Failed = outcome {
                Status::Failed(Failure::Stage(stage, Run::cleanup(stage)))
            } else {
                facts = Run::learn(facts, stage, outcome);
                history.push(stage);
                match Run::lockfile_failure(&options, stage, outcome) {
                    Some(failure) => Status::Failed(failure),
                    None => match next_stage(&options, &facts, place_of(stage) + 1) {
                        Some(next) => Status::Running(next),
                        None => Status::Finished,
                    },
                }
            };
            let next = Run { options, facts, status, history };
            *self = next;
            proof {
                assert(self@ =~= after_stage(was, outcome));
            }
        }
    }

    fn cleanup(stage: Stage) -> (r: Cleanup)
        ensures
            r == cleanup_after(stage),
    {
        match stage {
            Stage::Resolve => Cleanup::AbortStreamFetch,
            Stage::Fetch => Cleanup::AwaitPrewarm,
            _ => Cleanup::Nothing,
        }
    }

    fn lockfile_failure(options: &InstallOptions, stage: Stage, outcome: Outcome) -> (r: Option<Failure>)
        ensures
            r == (if reads_lockfile(stage) && outcome == Outcome::Lockfile(LockfileFound::Absent) && needs_lockfile(
                *options,
            ) {
                Some(Failure::NoLockfile)
            } else if reads_lockfile(stage) && outcome != Outcome::Lockfile(LockfileFound::Absent) && outcome
                != Outcome::Lockfile(LockfileFound::Current) {
                Some(Failure::BrokenLockfile)
            } else {
                None
            }),
    {
        match stage {
            Stage::CheckFrozenLockfile | Stage::SelectLockfile => match outcome {
                Outcome::Lockfile(LockfileFound::Current) => None,
                Outcome::Lockfile(LockfileFound::Absent) => if options.mode == FrozenMode::Frozen
                    && options.strict_no_lockfile {
                    Some(Failure::NoLockfile)
                } else {
                    None
                },
                _ => Some(Failure::BrokenLockfile),
            },
            _ => None,
        }
    }

    fn learn(f: Facts, stage: Stage, outcome: Outcome) -> (r: Facts)
        ensures
            r == learned(f, stage, outcome),
    {
        match stage {
            Stage::TryFastPath => match outcome {
                Outcome::FastPath { up_to_date, store_locked } => Facts { up_to_date, store_locked, ..f },
                _ => f,
            },
            Stage::ResolveLayout => match outcome {
                Outcome::Layout { choice, default_kind } => Facts { layout: choice, write_kind: default_kind, ..f },
                _ => f,
            },
            Stage::DiscoverWorkspace => match outcome {
                Outcome::Workspace { has_workspace, planned_gvs, strict_peers, has_scanner } => {
                    Facts { has_workspace, planned_gvs, strict_peers, has_scanner, ..f }
                },
                _ => f,
            },
            Stage::DetectLockfileKind => match outcome {
                Outcome::Kind(Some(kind)) => Facts { write_kind: kind, ..f },
                _ => f,
            },
            Stage::PreParseLockfile => match outcome {
                Outcome::PreParsed(pre_parsed) => Facts { pre_parsed, ..f },
                _ => f,
            },
            Stage::SelectLockfile => match outcome {
                Outcome::Lockfile(lockfile) => Facts { lockfile, ..f },
                _ => f,
            },
            Stage::WriteLockfile => match outcome {
                Outcome::Written { pending } => Facts { write_pending: pending, ..f },
                _ => f,
            },
            Stage::TrimGraph => match outcome {
                Outcome::Trimmed { missing_packages } => Facts { missing_packages, ..f },
                _ => f,
            },
            Stage::CatchUpFetch => match outcome {
                Outcome::CaughtUp { new_integrities } => Facts { new_integrities, ..f },
                _ => f,
            },
            Stage::JoinWriteForRewrite | Stage::JoinLockfileWrite => Facts { write_pending: false, ..f },
            _ => f,
        }
    }
}

/// What is said where there has to be a lockfile and there is none.
pub open spec fn no_lockfile_text(embedder: Embedder) -> Seq<char> {
    "no lockfile found and --frozen-lockfile is set\nhelp: commit pnpm-lock.yaml to your repository, or run `"@
        + joined_text(texts(embedder.command_prefix@), " "@) + " "@ + "install"@
        + " --no-frozen-lockfile` to generate one"@
}

/// What is said of a lockfile that fails a run. Whoever cancelled the run, or
/// did the stage that failed, has an error of its own.
pub fn failure_message(failure: Failure, embedder: &Embedder) -> (r: Option<String>)
    ensures
        match failure {
            Failure::NoLockfile => r is Some && r->0@ == no_lockfile_text(*embedder),
            Failure::BrokenLockfile => r is Some && r->0@ == "failed to parse lockfile"@,
            Failure::Cancelled => r is None,
            Failure::Stage(_, _) => r is None,
        },
{
    match failure {
        Failure::NoLockfile => {
            let command = embedder.cmd("install");
            let text = concat3(
                "no lockfile found and --frozen-lockfile is set\nhelp: commit pnpm-lock.yaml to your repository, or run `",
                command.as_str(),
                " --no-frozen-lockfile` to generate one",
            );
            proof {
                assert(text@ =~= no_lockfile_text(*embedder));
            }
            Some(text)
        },
        Failure::BrokenLockfile => Some("failed to parse lockfile".to_owned()),
        Failure::Cancelled => None,
        Failure::Stage(_, _) => None,
    }
}

} // verus!
