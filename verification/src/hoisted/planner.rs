//! Filling a placement tree from the dependency graph.
use crate::fs_path::{path_parent, FsPath};
use crate::graph::{child_dep_path, edge_dep_path, DependencyEdge, DirectDep, LockfileGraph};
use crate::hoisted::plan::{
    law_placed_package_is_provided, law_placing_keeps_nodes, law_site_is_visible, HoistingLimits, NodeView, PlacementPlan, PlanError,
    PlanView, Request, RequestView,
};
use crate::str_map::{text_map, StrMap, StrSet};
use std::collections::VecDeque;
use vstd::prelude::*;

verus! {

/// What the planner goes by.
pub struct PlanContext {
    pub graph: LockfileGraph,
    pub limits: HoistingLimits,
    /// The package that should get the root's slot, by name.
    pub preferred: Map<Seq<char>, Seq<char>>,
    /// Names that no package directory can have.
    pub refused: Set<Seq<char>>,
}

/// How far the planner has come.
#[verifier::ext_equal]
pub struct Progress {
    pub plan: PlanView,
    pub queue: Seq<RequestView>,
    /// How many requests in a row were put off.
    pub deferrals: nat,
    /// The next request is placed whatever is preferred.
    pub force: bool,
}

/// What one step of the planner comes to.
pub enum Step {
    Next(Progress),
    Refused(Seq<char>),
    Done,
}

/// The dependencies among the first `n` that the graph has, as names and keys.
pub open spec fn known_deps(graph: LockfileGraph, deps: StrMap<DependencyEdge>, n: int) -> Seq<
    (Seq<char>, Seq<char>),
>
    decreases n,
{
    if n <= 0 {
        Seq::empty()
    } else {
        let rest = known_deps(graph, deps, n - 1);
        let name = deps.keys()[n - 1];
        let path = edge_dep_path(name, deps.values()[n - 1]);
        if graph.packages@.contains_key(path) {
            rest.push((name, path))
        } else {
            rest
        }
    }
}

/// What a placed package needs in turn. A live link brings its own dependencies.
pub open spec fn needs(graph: LockfileGraph, dep_path: Seq<char>) -> Seq<(Seq<char>, Seq<char>)> {
    if graph.packages@.contains_key(dep_path) && !graph.packages@[dep_path].is_link() {
        let deps = graph.packages@[dep_path].dependencies;
        known_deps(graph, deps, deps.keys().len() as int)
    } else {
        Seq::empty()
    }
}

/// How high the dependencies of a package may go that was placed at `node`
/// for a request with floor `floor`.
pub open spec fn child_floor(limits: HoistingLimits, floor: int, node: int) -> int {
    match limits {
        HoistingLimits::Unlimited => 0,
        HoistingLimits::Workspaces => floor,
        HoistingLimits::Dependencies => node,
    }
}

/// The requests of a package that was placed at `node`.
pub open spec fn child_requests(ctx: PlanContext, r: RequestView, node: int) -> Seq<RequestView> {
    needs(ctx.graph, r.dep_path).map_values(
        |d: (Seq<char>, Seq<char>)|
            RequestView { requester: node, floor: child_floor(ctx.limits, r.floor, node), name: d.0, dep_path: d.1 },
    )
}

/// One step: the first request is put off or placed.
pub open spec fn step(ctx: PlanContext, s: Progress) -> Step {
    if s.queue.len() == 0 {
        Step::Done
    } else {
        let r = s.queue[0];
        let rest = s.queue.drop_first();
        if !s.force && s.plan.defers(r, ctx.preferred) {
            Step::Next(
                Progress {
                    plan: s.plan,
                    queue: rest.push(r),
                    deferrals: s.deferrals + 1,
                    force: s.deferrals + 1 >= s.queue.len(),
                },
            )
        } else if ctx.refused.contains(r.name) {
            Step::Refused(r.name)
        } else {
            let node = s.plan.placed_at(r.requester, r.name, r.dep_path);
            let more = if s.plan.reuses(r.requester, r.name, r.dep_path) {
                Seq::empty()
            } else {
                child_requests(ctx, r, node)
            };
            Step::Next(
                Progress {
                    plan: s.plan.placed(r.requester, r.floor, r.name, r.dep_path),
                    queue: rest + more,
                    deferrals: 0,
                    force: false,
                },
            )
        }
    }
}

/// How far the planner has come after `n` steps.
pub open spec fn after(ctx: PlanContext, start: Progress, n: nat) -> Progress
    decreases n,
{
    if n == 0 {
        start
    } else {
        let s = after(ctx, start, (n - 1) as nat);
        match step(ctx, s) {
            Step::Next(t) => t,
            _ => s,
        }
    }
}

/// The planner has worked off the whole queue, and `plan` is what it made.
pub open spec fn plans(ctx: PlanContext, start: Progress, plan: PlanView) -> bool {
    exists|n: nat| #[trigger] after(ctx, start, n).plan == plan && step(ctx, after(ctx, start, n)) is Done
}

/// The planner has stopped at a name that is refused.
pub open spec fn stops_at(ctx: PlanContext, start: Progress, name: Seq<char>) -> bool {
    exists|n: nat| step(ctx, #[trigger] after(ctx, start, n)) == Step::Refused(name)
}

/// The planner starts with `queue` and nothing put off.
pub open spec fn fresh(plan: PlanView, queue: Seq<RequestView>) -> Progress {
    Progress { plan, queue, deferrals: 0, force: false }
}

/// The requesters of the queue are nodes of the plan.
pub open spec fn queue_wf(plan: PlanView, queue: Seq<RequestView>) -> bool {
    forall|i: int| 0 <= i < queue.len() ==> 0 <= (#[trigger] queue[i]).requester < plan.nodes.len()
}

/// A plan with valid requests, of which fewer were put off than there are.
pub open spec fn progress_wf(s: Progress) -> bool {
    &&& s.plan.wf()
    &&& queue_wf(s.plan, s.queue)
    &&& s.force || s.deferrals == 0 || s.deferrals < s.queue.len()
}

/// Once the planner has stopped it stays where it is.
proof fn lemma_stopped(ctx: PlanContext, start: Progress, n: nat, m: nat)
    requires
        !(step(ctx, after(ctx, start, n)) is Next),
        n <= m,
    ensures
        after(ctx, start, m) == after(ctx, start, n),
    decreases m,
{
    if n < m {
        lemma_stopped(ctx, start, n, (m - 1) as nat);
    }
}

/// The plan is determined by the context and the start.
pub proof fn law_one_plan(ctx: PlanContext, start: Progress, a: PlanView, b: PlanView)
    requires
        plans(ctx, start, a),
        plans(ctx, start, b),
    ensures
        a == b,
{
    let n = choose|n: nat| #[trigger] after(ctx, start, n).plan == a && step(ctx, after(ctx, start, n)) is Done;
    let m = choose|n: nat| #[trigger] after(ctx, start, n).plan == b && step(ctx, after(ctx, start, n)) is Done;
    if n <= m {
        lemma_stopped(ctx, start, n, m);
    } else {
        lemma_stopped(ctx, start, m, n);
    }
}

/// Planning that succeeds never meets a refused name.
pub proof fn law_plan_or_refusal(ctx: PlanContext, start: Progress, plan: PlanView, name: Seq<char>)
    requires
        plans(ctx, start, plan),
    ensures
        !stops_at(ctx, start, name),
{
    if stops_at(ctx, start, name) {
        let n = choose|n: nat| #[trigger]
            after(ctx, start, n).plan == plan && step(ctx, after(ctx, start, n)) is Done;
        let m = choose|n: nat| step(ctx, #[trigger] after(ctx, start, n)) == Step::Refused(name);
        if n <= m {
            lemma_stopped(ctx, start, n, m);
        } else {
            lemma_stopped(ctx, start, m, n);
        }
    }
}

/// A step keeps the plan and its queue valid.
pub proof fn lemma_step_wf(ctx: PlanContext, s: Progress)
    requires
        progress_wf(s),
        step(ctx, s) is Next,
    ensures
        progress_wf(step(ctx, s)->Next_0),
        s.plan.nodes.len() <= step(ctx, s)->Next_0.plan.nodes.len(),
{
    let t = step(ctx, s)->Next_0;
    let r = s.queue[0];
    let rest = s.queue.drop_first();
    if !s.force && s.plan.defers(r, ctx.preferred) {
        assert forall|i: int| 0 <= i < t.queue.len() implies 0 <= (#[trigger] t.queue[i]).requester
            < t.plan.nodes.len() by {
            if i < rest.len() {
                assert(t.queue[i] == s.queue[i + 1]);
            }
        }
    } else {
        law_placing_keeps_nodes(s.plan, r.requester, r.floor, r.name, r.dep_path);
        let node = s.plan.placed_at(r.requester, r.name, r.dep_path);
        let more = child_requests(ctx, r, node);
        assert forall|i: int| 0 <= i < t.queue.len() implies 0 <= (#[trigger] t.queue[i]).requester
            < t.plan.nodes.len() by {
            if i < rest.len() {
                assert(t.queue[i] == s.queue[i + 1]);
            } else if s.plan.reuses(r.requester, r.name, r.dep_path) {
                assert(t.queue =~= rest);
            } else {
                assert(t.queue[i] == more[i - rest.len()]);
                assert(more[i - rest.len()].requester == node);
                law_site_is_visible(s.plan, r.requester, r.floor, r.name);
            }
        }
    }
}

/// A request waits in the queue.
pub open spec fn waits(s: Progress, requester: int, name: Seq<char>, dep_path: Seq<char>) -> bool {
    exists|i: int|
        0 <= i < s.queue.len() && (#[trigger] s.queue[i]).requester == requester && s.queue[i].name == name
            && s.queue[i].dep_path == dep_path
}

/// A package was put where its requester looks, or its request still waits.
pub open spec fn settled(s: Progress, requester: int, name: Seq<char>, dep_path: Seq<char>) -> bool {
    s.plan.provides(requester, name, dep_path) || waits(s, requester, name, dep_path)
}

/// Every need of every node from `first` on is settled.
pub open spec fn needs_settled(ctx: PlanContext, s: Progress, first: int) -> bool {
    forall|i: int, j: int|
        #![trigger s.plan.nodes[i], needs(ctx.graph, s.plan.nodes[i].dep_path->0)[j]]
        first <= i < s.plan.nodes.len() && s.plan.nodes[i].dep_path is Some && 0 <= j < needs(
            ctx.graph,
            s.plan.nodes[i].dep_path->0,
        ).len() ==> settled(
            s,
            i,
            needs(ctx.graph, s.plan.nodes[i].dep_path->0)[j].0,
            needs(ctx.graph, s.plan.nodes[i].dep_path->0)[j].1,
        )
}

/// A settled request stays settled.
proof fn lemma_settled_kept(ctx: PlanContext, s: Progress, requester: int, name: Seq<char>, dep_path: Seq<char>)
    requires
        progress_wf(s),
        step(ctx, s) is Next,
        0 <= requester < s.plan.nodes.len(),
        settled(s, requester, name, dep_path),
    ensures
        settled(step(ctx, s)->Next_0, requester, name, dep_path),
{
    let t = step(ctx, s)->Next_0;
    let r = s.queue[0];
    let rest = s.queue.drop_first();
    if s.plan.provides(requester, name, dep_path) {
        crate::hoisted::plan::lemma_provides_after_placing(
            s.plan,
            r.requester,
            r.floor,
            r.name,
            r.dep_path,
            requester,
            name,
            dep_path,
        );
    } else {
        let i = choose|i: int|
            0 <= i < s.queue.len() && (#[trigger] s.queue[i]).requester == requester && s.queue[i].name == name
                && s.queue[i].dep_path == dep_path;
        if i > 0 {
            assert(t.queue[i - 1] == s.queue[i]);
        } else if !s.force && s.plan.defers(r, ctx.preferred) {
            assert(t.queue[rest.len() as int] == s.queue[0]);
        } else {
            law_placed_package_is_provided(s.plan, r.requester, r.floor, r.name, r.dep_path);
        }
    }
}

/// A step settles the needs of the node it creates.
proof fn lemma_needs_kept(ctx: PlanContext, s: Progress, first: int)
    requires
        progress_wf(s),
        step(ctx, s) is Next,
        0 <= first <= s.plan.nodes.len(),
        needs_settled(ctx, s, first),
    ensures
        needs_settled(ctx, step(ctx, s)->Next_0, first),
{
    let t = step(ctx, s)->Next_0;
    let r = s.queue[0];
    let rest = s.queue.drop_first();
    law_placing_keeps_nodes(s.plan, r.requester, r.floor, r.name, r.dep_path);
    assert forall|i: int, j: int|
        #![trigger t.plan.nodes[i], needs(ctx.graph, t.plan.nodes[i].dep_path->0)[j]]
        first <= i < t.plan.nodes.len() && t.plan.nodes[i].dep_path is Some && 0 <= j < needs(
            ctx.graph,
            t.plan.nodes[i].dep_path->0,
        ).len() implies settled(
        t,
        i,
        needs(ctx.graph, t.plan.nodes[i].dep_path->0)[j].0,
        needs(ctx.graph, t.plan.nodes[i].dep_path->0)[j].1,
    ) by {
        let d = needs(ctx.graph, t.plan.nodes[i].dep_path->0)[j];
        if i < s.plan.nodes.len() {
            assert(s.plan.nodes[i].dep_path == t.plan.nodes[i].dep_path);
            assert(settled(s, i, d.0, d.1));
            lemma_settled_kept(ctx, s, i, d.0, d.1);
        } else {
            assert(t.plan.nodes[i].dep_path == Some(r.dep_path));
            let more = child_requests(ctx, r, i);
            assert(t.queue =~= rest + more);
            assert(more[j].requester == i && more[j].name == d.0 && more[j].dep_path == d.1);
            assert(t.queue[rest.len() + j] == more[j]);
        }
    }
}

proof fn lemma_settled_after(
    ctx: PlanContext,
    start: Progress,
    n: nat,
    requester: int,
    name: Seq<char>,
    dep_path: Seq<char>,
)
    requires
        progress_wf(start),
        0 <= requester < start.plan.nodes.len(),
        settled(start, requester, name, dep_path),
    ensures
        settled(after(ctx, start, n), requester, name, dep_path),
        progress_wf(after(ctx, start, n)),
        start.plan.nodes.len() <= after(ctx, start, n).plan.nodes.len(),
    decreases n,
{
    if n > 0 {
        let s = after(ctx, start, (n - 1) as nat);
        lemma_settled_after(ctx, start, (n - 1) as nat, requester, name, dep_path);
        if step(ctx, s) is Next {
            lemma_step_wf(ctx, s);
            lemma_settled_kept(ctx, s, requester, name, dep_path);
        }
    }
}

proof fn lemma_needs_after(ctx: PlanContext, start: Progress, n: nat)
    requires
        progress_wf(start),
    ensures
        needs_settled(ctx, after(ctx, start, n), start.plan.nodes.len() as int),
        progress_wf(after(ctx, start, n)),
        start.plan.nodes.len() <= after(ctx, start, n).plan.nodes.len(),
    decreases n,
{
    if n > 0 {
        let s = after(ctx, start, (n - 1) as nat);
        lemma_needs_after(ctx, start, (n - 1) as nat);
        if step(ctx, s) is Next {
            lemma_step_wf(ctx, s);
            lemma_needs_kept(ctx, s, start.plan.nodes.len() as int);
        }
    }
}

/// Whatever was asked for at the start is put, in the finished plan, into a
/// directory that the one who asked looks through.
pub proof fn law_every_request_is_provided(ctx: PlanContext, start: Progress, plan: PlanView, i: int)
    requires
        progress_wf(start),
        plans(ctx, start, plan),
        0 <= i < start.queue.len(),
    ensures
        plan.provides(start.queue[i].requester, start.queue[i].name, start.queue[i].dep_path),
{
    let n = choose|n: nat| #[trigger] after(ctx, start, n).plan == plan && step(ctx, after(ctx, start, n)) is Done;
    let r = start.queue[i];
    assert(waits(start, r.requester, r.name, r.dep_path));
    lemma_settled_after(ctx, start, n, r.requester, r.name, r.dep_path);
}

/// Whatever a package needs that the planner placed is put, in the finished
/// plan, into a directory that the package looks through.
pub proof fn law_every_need_is_provided(ctx: PlanContext, start: Progress, plan: PlanView, node: int, j: int)
    requires
        progress_wf(start),
        plans(ctx, start, plan),
        start.plan.nodes.len() <= node < plan.nodes.len(),
        plan.nodes[node].dep_path is Some,
        0 <= j < needs(ctx.graph, plan.nodes[node].dep_path->0).len(),
    ensures
        plan.wf(),
        ({
            let need = needs(ctx.graph, plan.nodes[node].dep_path->0)[j];
            plan.provides(node, need.0, need.1)
        }),
{
    let n = choose|n: nat| #[trigger] after(ctx, start, n).plan == plan && step(ctx, after(ctx, start, n)) is Done;
    lemma_needs_after(ctx, start, n);
    let s = after(ctx, start, n);
    let need = needs(ctx.graph, plan.nodes[node].dep_path->0)[j];
    assert(s.plan.nodes[node].dep_path is Some);
    assert(settled(s, node, need.0, need.1));
}

/// The requests of a queue.
pub open spec fn queue_view(queue: Seq<Request>) -> Seq<RequestView> {
    queue.map_values(|r: Request| r@)
}

/// Put the needs of a package that was placed at `node` at the end of the queue.
fn enqueue_needs(
    queue: &mut VecDeque<Request>,
    graph: &LockfileGraph,
    dep_path: &str,
    node: usize,
    floor: usize,
)
    ensures
        queue_view(final(queue)@) == queue_view(old(queue)@) + needs(*graph, dep_path@).map_values(
            |d: (Seq<char>, Seq<char>)|
                RequestView { requester: node as int, floor: floor as int, name: d.0, dep_path: d.1 },
        ),
{
    let ghost make = |d: (Seq<char>, Seq<char>)|
        RequestView { requester: node as int, floor: floor as int, name: d.0, dep_path: d.1 };
    let ghost was = queue_view(queue@);
    let pkg = match graph.packages.get(dep_path) {
        Some(pkg) => pkg,
        None => {
            proof {
                assert(was + Seq::<(Seq<char>, Seq<char>)>::empty().map_values(make) =~= was);
            }
            return;
        },
    };
    if pkg.links() {
        proof {
            assert(was + Seq::<(Seq<char>, Seq<char>)>::empty().map_values(make) =~= was);
        }
        return;
    }
    let total = pkg.dependencies.len();
    let mut i: usize = 0;
    proof {
        assert(was + known_deps(*graph, pkg.dependencies, 0).map_values(make) =~= was);
    }
    while i < total
        invariant
            i <= total,
            total == pkg.dependencies.keys().len(),
            make == (|d: (Seq<char>, Seq<char>)|
                RequestView { requester: node as int, floor: floor as int, name: d.0, dep_path: d.1 }),
            queue_view(queue@) == was + known_deps(*graph, pkg.dependencies, i as int).map_values(make),
        decreases total - i,
    {
        let name = pkg.dependencies.key_at(i);
        let edge = pkg.dependencies.value_at(i);
        let child = child_dep_path(name, edge);
        let ghost before_push = queue@;
        let ghost known = known_deps(*graph, pkg.dependencies, i as int);
        if graph.packages.contains_key(child.as_str()) {
            let ghost d = (name@, child@);
            queue.push_back(Request { requester: node, floor, name: name.to_owned(), dep_path: child });
            proof {
                assert(queue_view(queue@) =~= queue_view(before_push).push(make(d)));
                assert(known.push(d).map_values(make) =~= known.map_values(make).push(make(d)));
                assert(was + known.map_values(make).push(make(d)) =~= (was + known.map_values(make)).push(make(d)));
            }
        }
        i += 1;
    }
}

/// Work off the queue: place each request, and then what the placed package needs.
///
/// A request that would take the root's slot from the preferred package of
/// its name waits until that package has come, or until all requests wait.
pub fn complete_plan(
    plan: &mut PlacementPlan,
    queue: VecDeque<Request>,
    graph: &LockfileGraph,
    limits: HoistingLimits,
    preferred: &StrMap<String>,
    refused: &StrSet,
) -> (r: Result<(), PlanError>)
    requires
        old(plan)@.wf(),
        queue_wf(old(plan)@, queue_view(queue@)),
    ensures
        final(plan)@.wf(),
        ({
            let ctx = PlanContext { graph: *graph, limits, preferred: text_map(*preferred), refused: refused@ };
            let start = fresh(old(plan)@, queue_view(queue@));
            match r {
                Ok(_) => plans(ctx, start, final(plan)@),
                Err(PlanError::RefusedName(name)) => stops_at(ctx, start, name@),
            }
        }),
{
    let ghost ctx = PlanContext { graph: *graph, limits, preferred: text_map(*preferred), refused: refused@ };
    let ghost start = fresh(plan@, queue_view(queue@));
    let ghost mut n: nat = 0;
    let mut pending = queue;
    let mut deferrals: usize = 0;
    let mut force = false;
    while pending.len() > 0
        invariant
            ctx == (PlanContext { graph: *graph, limits, preferred: text_map(*preferred), refused: refused@ }),
            after(ctx, start, n) == (Progress {
                plan: plan@,
                queue: queue_view(pending@),
                deferrals: deferrals as nat,
                force,
            }),
            progress_wf(after(ctx, start, n)),
            start == fresh(old(plan)@, queue_view(queue@)),
        decreases usize::MAX - plan.nodes@.len(), pending@.len(), if force { 0int } else { pending@.len() - deferrals + 1 },
    {
        let ghost s = after(ctx, start, n);
        let ghost r = s.queue[0];
        let ghost rest = s.queue.drop_first();
        let ghost was = pending@;
        let node_count = plan.nodes.len();
        let request = pending.pop_front().unwrap();
        proof {
            assert(r == request@);
            assert(queue_view(pending@) =~= rest);
            assert(after(ctx, start, n + 1) == match step(ctx, s) {
                Step::Next(t) => t,
                _ => s,
            });
        }
        if !force && plan.should_defer_for_preference(
            request.requester,
            request.floor,
            request.name.as_str(),
            request.dep_path.as_str(),
            preferred,
        ) {
            pending.push_back(request);
            deferrals += 1;
            force = deferrals >= pending.len();
            proof {
                assert(queue_view(pending@) =~= rest.push(r));
                lemma_step_wf(ctx, s);
                n = n + 1;
            }
            continue;
        }
        deferrals = 0;
        force = false;
        match plan.place(
            request.requester,
            request.floor,
            request.name.as_str(),
            request.dep_path.as_str(),
            refused,
        ) {
            Err(e) => {
                return Err(e);
            },
            Ok(outcome) => {
                if outcome.created {
                    let floor = match limits {
                        HoistingLimits::Unlimited => 0,
                        HoistingLimits::Workspaces => request.floor,
                        HoistingLimits::Dependencies => outcome.node_idx,
                    };
                    enqueue_needs(&mut pending, graph, request.dep_path.as_str(), outcome.node_idx, floor);
                    proof {
                        assert(queue_view(pending@) =~= rest + child_requests(ctx, r, outcome.node_idx as int));
                    }
                } else {
                    proof {
                        assert(rest + Seq::<RequestView>::empty() =~= rest);
                    }
                }
                proof {
                    lemma_step_wf(ctx, s);
                    n = n + 1;
                    assert(s.plan.nodes.len() == node_count);
                    assert(plan@.nodes.len() == plan.nodes@.len());
                }
                // A list of nodes is never longer than `usize` can count.
                let _count = plan.nodes.len();
            },
        }
    }
    Ok(())
}

/// The requests of an importer's direct dependencies, in order. A live link
/// stays with the importer.
pub open spec fn seeds(deps: Seq<DirectDep>, graph: LockfileGraph, importer: int, floor: int) -> Seq<RequestView>
    decreases deps.len(),
{
    if deps.len() == 0 {
        Seq::empty()
    } else {
        let rest = seeds(deps.drop_last(), graph, importer, floor);
        let dep = deps.last();
        if graph.packages@.contains_key(dep.dep_path@) {
            rest.push(
                RequestView {
                    requester: importer,
                    floor: if graph.packages@[dep.dep_path@].is_link() {
                        importer
                    } else {
                        floor
                    },
                    name: dep.name@,
                    dep_path: dep.dep_path@,
                },
            )
        } else {
            rest
        }
    }
}

/// The seeds of an importer are asked for by the importer.
pub proof fn lemma_seeds_requester(deps: Seq<DirectDep>, graph: LockfileGraph, importer: int, floor: int)
    ensures
        forall|i: int|
            0 <= i < seeds(deps, graph, importer, floor).len() ==> (#[trigger] seeds(
                deps,
                graph,
                importer,
                floor,
            )[i]).requester == importer,
    decreases deps.len(),
{
    if deps.len() > 0 {
        lemma_seeds_requester(deps.drop_last(), graph, importer, floor);
        let all = seeds(deps, graph, importer, floor);
        let rest = seeds(deps.drop_last(), graph, importer, floor);
        assert forall|i: int| 0 <= i < all.len() implies (#[trigger] all[i]).requester == importer by {
            if i < rest.len() {
                assert(all[i] == rest[i]);
            }
        }
    }
}

/// Put the direct dependencies of an importer at the end of the queue.
pub fn seed_importer(
    queue: &mut VecDeque<Request>,
    importer_idx: usize,
    floor: usize,
    root_deps: &Vec<DirectDep>,
    graph: &LockfileGraph,
)
    ensures
        queue_view(final(queue)@) == queue_view(old(queue)@) + seeds(
            root_deps@,
            *graph,
            importer_idx as int,
            floor as int,
        ),
{
    let ghost was = queue_view(queue@);
    let ghost all = root_deps@;
    let mut i: usize = 0;
    proof {
        assert(all.take(0) =~= Seq::<DirectDep>::empty());
        assert(was + seeds(all.take(0), *graph, importer_idx as int, floor as int) =~= was);
    }
    while i < root_deps.len()
        invariant
            i <= root_deps@.len(),
            all == root_deps@,
            queue_view(queue@) == was + seeds(all.take(i as int), *graph, importer_idx as int, floor as int),
        decreases root_deps.len() - i,
    {
        let dep = &root_deps[i];
        let ghost done = seeds(all.take(i as int), *graph, importer_idx as int, floor as int);
        let ghost before_push = queue@;
        proof {
            assert(all.take(i + 1).drop_last() =~= all.take(i as int));
            assert(all.take(i + 1).last() == *dep);
        }
        if let Some(pkg) = graph.packages.get(dep.dep_path.as_str()) {
            let dep_floor = if pkg.links() {
                importer_idx
            } else {
                floor
            };
            let request = Request {
                requester: importer_idx,
                floor: dep_floor,
                name: dep.name.clone(),
                dep_path: dep.dep_path.clone(),
            };
            let ghost r = request@;
            queue.push_back(request);
            proof {
                assert(queue_view(queue@) =~= queue_view(before_push).push(r));
                assert(was + done.push(r) =~= (was + done).push(r));
            }
        }
        i += 1;
    }
    proof {
        assert(all.take(i as int) =~= all);
    }
}

/// A plan with one importer and nothing placed.
pub open spec fn bare_plan(nm: Seq<Seq<char>>) -> PlanView {
    PlanView {
        nodes: seq![NodeView { pkg_dir: None, nm_dir: nm, parent: None, children: Map::empty(), dep_path: None }],
        importers: seq![0],
    }
}

/// Where planning for one importer starts.
pub open spec fn importer_start(nm: Seq<Seq<char>>, deps: Seq<DirectDep>, graph: LockfileGraph) -> Progress {
    fresh(bare_plan(nm), seeds(deps, graph, 0, 0))
}

/// Plan the tree of a single importer.
pub fn plan_importer(
    importer_nm: &FsPath,
    root_deps: &Vec<DirectDep>,
    graph: &LockfileGraph,
    limits: HoistingLimits,
    refused: &StrSet,
) -> (r: Result<PlacementPlan, PlanError>)
    ensures
        ({
            let ctx = PlanContext { graph: *graph, limits, preferred: Map::empty(), refused: refused@ };
            let start = importer_start(importer_nm@, root_deps@, *graph);
            match r {
                Ok(plan) => plan@.wf() && plans(ctx, start, plan@),
                Err(PlanError::RefusedName(name)) => stops_at(ctx, start, name@),
            }
        }),
{
    let mut plan = PlacementPlan::new(importer_nm.copy());
    let mut queue: VecDeque<Request> = VecDeque::new();
    seed_importer(&mut queue, 0, 0, root_deps, graph);
    proof {
        lemma_seeds_requester(root_deps@, *graph, 0, 0);
        assert(queue_view(queue@) =~= seeds(root_deps@, *graph, 0, 0));
    }
    let preferred: StrMap<String> = StrMap::new();
    proof {
        assert(text_map(preferred) =~= Map::<Seq<char>, Seq<char>>::empty());
        assert(plan@ =~= bare_plan(importer_nm@));
    }
    match complete_plan(&mut plan, queue, graph, limits, &preferred, refused) {
        Ok(_) => Ok(plan),
        Err(e) => Err(e),
    }
}

/// One importer of a workspace.
#[derive(Debug)]
pub struct HoistedWorkspaceImporter {
    pub modules_dir: FsPath,
    pub dependencies: Vec<DirectDep>,
}

/// What an importer of a workspace is.
pub struct ImporterView {
    pub modules_dir: Seq<Seq<char>>,
    pub dependencies: Seq<DirectDep>,
}

impl View for HoistedWorkspaceImporter {
    type V = ImporterView;

    open spec fn view(&self) -> ImporterView {
        ImporterView { modules_dir: self.modules_dir@, dependencies: self.dependencies@ }
    }
}

/// What the importers of a workspace are.
pub open spec fn importer_views(importers: Seq<HoistedWorkspaceImporter>) -> Seq<ImporterView> {
    importers.map_values(|i: HoistedWorkspaceImporter| i@)
}

/// The directory that the workspace lives in.
pub open spec fn workspace_root(root_nm: Seq<Seq<char>>) -> Seq<Seq<char>> {
    match path_parent(root_nm) {
        Some(p) => p,
        None => root_nm,
    }
}

/// Module lookup from the importer comes past the workspace root.
pub open spec fn root_reachable(root_nm: Seq<Seq<char>>, modules_dir: Seq<Seq<char>>) -> bool {
    path_parent(modules_dir) matches Some(d) && workspace_root(root_nm).is_prefix_of(d)
}

/// Whether module lookup from the importer comes past the workspace root.
pub fn reaches_root(root_nm: &FsPath, modules_dir: &FsPath) -> (r: bool)
    ensures
        r == root_reachable(root_nm@, modules_dir@),
{
    let root = match root_nm.parent() {
        Some(p) => p,
        None => root_nm.copy(),
    };
    match modules_dir.parent() {
        Some(d) => d.starts_with(&root),
        None => false,
    }
}

/// Where planning for the first importers of a workspace starts.
pub open spec fn workspace_start(
    root_nm: Seq<Seq<char>>,
    importers: Seq<ImporterView>,
    graph: LockfileGraph,
    limits: HoistingLimits,
) -> Progress
    decreases importers.len(),
{
    if importers.len() == 0 {
        fresh(bare_plan(root_nm), Seq::empty())
    } else {
        let s = workspace_start(root_nm, importers.drop_last(), graph, limits);
        let importer = importers.last();
        let reachable = root_reachable(root_nm, importer.modules_dir);
        let is_root = importer.modules_dir == root_nm;
        let idx = if is_root {
            0
        } else {
            s.plan.nodes.len() as int
        };
        let plan = if is_root {
            s.plan
        } else {
            PlanView {
                nodes: s.plan.nodes.push(
                    NodeView {
                        pkg_dir: None,
                        nm_dir: importer.modules_dir,
                        parent: if reachable {
                            Some(0int)
                        } else {
                            None
                        },
                        children: Map::empty(),
                        dep_path: None,
                    },
                ),
                importers: s.plan.importers.push(idx),
            }
        };
        let floor = if limits is Unlimited && reachable {
            0
        } else {
            idx
        };
        fresh(plan, s.queue + seeds(importer.dependencies, graph, idx, floor))
    }
}

/// Every importer of a workspace with its requests, before anything is placed.
pub fn start_workspace(
    root_nm: &FsPath,
    importers: &Vec<HoistedWorkspaceImporter>,
    graph: &LockfileGraph,
    limits: HoistingLimits,
) -> (r: (PlacementPlan, VecDeque<Request>))
    ensures
        fresh(r.0@, queue_view(r.1@)) == workspace_start(root_nm@, importer_views(importers@), *graph, limits),
        r.0@.wf(),
        queue_wf(r.0@, queue_view(r.1@)),
{
    let mut plan = PlacementPlan::new(root_nm.copy());
    let mut queue: VecDeque<Request> = VecDeque::new();
    let ghost all = importer_views(importers@);
    let mut i: usize = 0;
    proof {
        assert(all.take(0) =~= Seq::<ImporterView>::empty());
        assert(plan@ =~= bare_plan(root_nm@));
        assert(queue_view(queue@) =~= Seq::<RequestView>::empty());
    }
    while i < importers.len()
        invariant
            i <= importers@.len(),
            all == importer_views(importers@),
            fresh(plan@, queue_view(queue@)) == workspace_start(root_nm@, all.take(i as int), *graph, limits),
            plan@.wf(),
            plan.nodes@.len() == plan@.nodes.len(),
            queue_wf(plan@, queue_view(queue@)),
        decreases importers.len() - i,
    {
        let importer = &importers[i];
        let ghost s = workspace_start(root_nm@, all.take(i as int), *graph, limits);
        let ghost was = queue_view(queue@);
        proof {
            assert(all.take(i + 1).drop_last() =~= all.take(i as int));
            assert(all.take(i + 1).last() == importer@);
        }
        let reachable = reaches_root(root_nm, &importer.modules_dir);
        let idx = if importer.modules_dir.same(root_nm) {
            0
        } else {
            plan.add_importer(
                importer.modules_dir.copy(),
                if reachable {
                    Some(0)
                } else {
                    None
                },
            )
        };
        let floor: usize = match limits {
            HoistingLimits::Unlimited => if reachable {
                0
            } else {
                idx
            },
            HoistingLimits::Workspaces => idx,
            HoistingLimits::Dependencies => idx,
        };
        seed_importer(&mut queue, idx, floor, &importer.dependencies, graph);
        proof {
            let added = seeds(importer.dependencies@, *graph, idx as int, floor as int);
            lemma_seeds_requester(importer.dependencies@, *graph, idx as int, floor as int);
            let q = queue_view(queue@);
            assert forall|k: int| 0 <= k < q.len() implies 0 <= (#[trigger] q[k]).requester < plan@.nodes.len() by {
                if k < was.len() {
                    assert(q[k] == was[k]);
                } else {
                    assert(q[k] == added[k - was.len()]);
                }
            }
        }
        i += 1;
    }
    proof {
        assert(all.take(i as int) =~= all);
    }
    (plan, queue)
}

} // verus!
