//! What a finished plan holds: every dependency that a package or an importer
//! declares, and nothing else.
use crate::fs_path::path_joined;
use crate::graph::{edge_dep_path, DependencyEdge, DirectDep, LocalSource, LockfileGraph};
use crate::hoisted::plan::{
    law_placing_keeps_nodes, law_site_is_visible, lemma_reaches_bound, lemma_reaches_kept, HoistingLimits, PlanView,
    RequestView,
};
use crate::hoisted::planner::{
    after, child_requests, importer_start, known_deps, law_every_need_is_provided, law_every_request_is_provided,
    lemma_seeds_requester, lemma_step_wf, needs, plans, progress_wf, seeds, step, workspace_start, ImporterView,
    PlanContext, Progress,
};
use crate::hoisted::workspace::{
    importer_node, law_direct_dependencies_are_provided, lemma_workspace_start_wf, workspace_context,
};
use crate::str_map::{lemma_entry, lemma_key_index, StrMap};
use vstd::prelude::*;

verus! {

/// The package declares the dependency `name`, which stands for `target`, and
/// the graph has both. A live link declares nothing: it has its dependencies
/// beside it. A copied directory, a portal, a tarball and a checkout do.
pub open spec fn declares(graph: LockfileGraph, dep_path: Seq<char>, name: Seq<char>, target: Seq<char>) -> bool {
    &&& graph.packages@.contains_key(dep_path)
    &&& !(graph.packages@[dep_path].local_source matches Some(LocalSource::Link(_)))
    &&& graph.packages@[dep_path].dependencies@.contains_key(name)
    &&& graph.packages@.contains_key(target)
    &&& target == (match graph.packages@[dep_path].dependencies@[name].shared_dep_path {
        Some(shared) => shared@,
        None => name + seq!['@'] + graph.packages@[dep_path].dependencies@[name].tail@,
    })
}

/// The dependencies of every package are a valid map.
pub open spec fn maps_wf(graph: LockfileGraph) -> bool {
    forall|p: Seq<char>| #[trigger] graph.packages@.contains_key(p) ==> graph.packages@[p].dependencies.wf()
}

proof fn lemma_known_dep_at(graph: LockfileGraph, deps: StrMap<DependencyEdge>, n: int, i: int) -> (j: int)
    requires
        0 <= i < n <= deps.keys().len(),
        graph.packages@.contains_key(edge_dep_path(deps.keys()[i], deps.values()[i])),
    ensures
        0 <= j < known_deps(graph, deps, n).len(),
        known_deps(graph, deps, n)[j] == (deps.keys()[i], edge_dep_path(deps.keys()[i], deps.values()[i])),
    decreases n,
{
    if i == n - 1 {
        known_deps(graph, deps, n - 1).len() as int
    } else {
        let j = lemma_known_dep_at(graph, deps, n - 1, i);
        assert(known_deps(graph, deps, n)[j] == known_deps(graph, deps, n - 1)[j]);
        j
    }
}

proof fn lemma_known_dep_from(graph: LockfileGraph, deps: StrMap<DependencyEdge>, n: int, j: int) -> (i: int)
    requires
        0 <= n <= deps.keys().len(),
        0 <= j < known_deps(graph, deps, n).len(),
    ensures
        0 <= i < n,
        known_deps(graph, deps, n)[j] == (deps.keys()[i], edge_dep_path(deps.keys()[i], deps.values()[i])),
        graph.packages@.contains_key(known_deps(graph, deps, n)[j].1),
    decreases n,
{
    if n <= 0 {
        0
    } else if j == known_deps(graph, deps, n - 1).len() {
        n - 1
    } else {
        lemma_known_dep_from(graph, deps, n - 1, j)
    }
}

/// What a package is planned with is what it declares.
pub proof fn lemma_needs_are_declared(graph: LockfileGraph, dep_path: Seq<char>, name: Seq<char>, target: Seq<char>)
    requires
        maps_wf(graph),
    ensures
        needs(graph, dep_path).contains((name, target)) <==> declares(graph, dep_path, name, target),
{
    let all = needs(graph, dep_path);
    if declares(graph, dep_path, name, target) {
        let deps = graph.packages@[dep_path].dependencies;
        let i = lemma_key_index(deps, name);
        let j = lemma_known_dep_at(graph, deps, deps.keys().len() as int, i);
        assert(all[j] == (name, target));
    }
    if all.contains((name, target)) {
        let j = choose|j: int| 0 <= j < all.len() && all[j] == (name, target);
        let deps = graph.packages@[dep_path].dependencies;
        let i = lemma_known_dep_from(graph, deps, deps.keys().len() as int, j);
        lemma_entry(deps, i);
    }
}

/// Whatever a placed package declares is put into a directory that it looks
/// through, under the name it goes by there. That holds of every package but a
/// live link: one from the registry, a copied directory, a portal, a tarball,
/// a checkout.
pub proof fn law_declared_dependencies_are_provided(
    ctx: PlanContext,
    start: Progress,
    plan: PlanView,
    node: int,
    name: Seq<char>,
)
    requires
        progress_wf(start),
        plans(ctx, start, plan),
        maps_wf(ctx.graph),
        start.plan.nodes.len() <= node < plan.nodes.len(),
        plan.nodes[node].dep_path is Some,
        ctx.graph.packages@.contains_key(plan.nodes[node].dep_path->0),
        !(ctx.graph.packages@[plan.nodes[node].dep_path->0].local_source matches Some(LocalSource::Link(_))),
        ctx.graph.packages@[plan.nodes[node].dep_path->0].dependencies@.contains_key(name),
        ctx.graph.packages@.contains_key(
            edge_dep_path(name, ctx.graph.packages@[plan.nodes[node].dep_path->0].dependencies@[name]),
        ),
    ensures
        plan.provides(
            node,
            name,
            edge_dep_path(name, ctx.graph.packages@[plan.nodes[node].dep_path->0].dependencies@[name]),
        ),
{
    let d = plan.nodes[node].dep_path->0;
    let target = edge_dep_path(name, ctx.graph.packages@[d].dependencies@[name]);
    lemma_needs_are_declared(ctx.graph, d, name, target);
    let all = needs(ctx.graph, d);
    let j = choose|j: int| 0 <= j < all.len() && all[j] == (name, target);
    law_every_need_is_provided(ctx, start, plan, node, j);
}

/// Planning for one importer starts from a valid tree and valid requests.
pub proof fn lemma_importer_start_wf(nm: Seq<Seq<char>>, deps: Seq<DirectDep>, graph: LockfileGraph)
    ensures
        progress_wf(importer_start(nm, deps, graph)),
{
    let s = importer_start(nm, deps, graph);
    lemma_seeds_requester(deps, graph, 0, 0);
    assert forall|i: int| 0 <= i < s.plan.nodes.len() implies #[trigger] s.plan.node_wf(i) by {}
}

/// Node `r` wants `target` under `name`: it asked for it at the start, or it is
/// a package that was placed since and declares it.
pub open spec fn wants(
    graph: LockfileGraph,
    start: Progress,
    plan: PlanView,
    r: int,
    name: Seq<char>,
    target: Seq<char>,
) -> bool {
    ||| exists|i: int|
        0 <= i < start.queue.len() && (#[trigger] start.queue[i]).requester == r && start.queue[i].name == name
            && start.queue[i].dep_path == target
    ||| start.plan.nodes.len() <= r < plan.nodes.len() && plan.nodes[r].dep_path is Some && declares(
        graph,
        plan.nodes[r].dep_path->0,
        name,
        target,
    )
}

/// Node `k` was placed for node `r`, which wants its package under `name`.
pub open spec fn placed_for(
    graph: LockfileGraph,
    start: Progress,
    plan: PlanView,
    k: int,
    r: int,
    name: Seq<char>,
) -> bool {
    &&& 0 <= r < plan.nodes.len()
    &&& plan.nodes[k].dep_path is Some
    &&& wants(graph, start, plan, r, name, plan.nodes[k].dep_path->0)
    &&& plan.provides_at(r, name, plan.nodes[k].dep_path->0, k)
}

/// Node `k` was placed for someone.
pub open spec fn is_placed_for_someone(graph: LockfileGraph, start: Progress, plan: PlanView, k: int) -> bool {
    exists|r: int, name: Seq<char>| #[trigger] placed_for(graph, start, plan, k, r, name)
}

spec fn queue_wanted(graph: LockfileGraph, start: Progress, s: Progress) -> bool {
    forall|i: int|
        0 <= i < s.queue.len() ==> wants(
            graph,
            start,
            s.plan,
            (#[trigger] s.queue[i]).requester,
            s.queue[i].name,
            s.queue[i].dep_path,
        )
}

spec fn nodes_wanted(graph: LockfileGraph, start: Progress, s: Progress) -> bool {
    forall|k: int|
        start.plan.nodes.len() <= k < s.plan.nodes.len() ==> #[trigger] is_placed_for_someone(graph, start, s.plan, k)
}

/// What is wanted stays wanted.
proof fn lemma_wants_kept(
    graph: LockfileGraph,
    start: Progress,
    a: PlanView,
    b: PlanView,
    r: int,
    name: Seq<char>,
    target: Seq<char>,
)
    requires
        wants(graph, start, a, r, name, target),
        a.nodes.len() <= b.nodes.len(),
        forall|i: int| 0 <= i < a.nodes.len() ==> (#[trigger] b.nodes[i]).dep_path == a.nodes[i].dep_path,
    ensures
        wants(graph, start, b, r, name, target),
{
    if start.plan.nodes.len() <= r < a.nodes.len() {
        assert(b.nodes[r].dep_path == a.nodes[r].dep_path);
    }
}

/// A placed package keeps its place.
proof fn lemma_placed_for_kept(
    graph: LockfileGraph,
    start: Progress,
    s: Progress,
    q: RequestView,
    k: int,
    r: int,
    name: Seq<char>,
)
    requires
        progress_wf(s),
        0 <= q.requester < s.plan.nodes.len(),
        0 <= k < s.plan.nodes.len(),
        placed_for(graph, start, s.plan, k, r, name),
    ensures
        placed_for(graph, start, s.plan.placed(q.requester, q.floor, q.name, q.dep_path), k, r, name),
{
    let plan = s.plan;
    let next = plan.placed(q.requester, q.floor, q.name, q.dep_path);
    let target = plan.nodes[k].dep_path->0;
    law_placing_keeps_nodes(plan, q.requester, q.floor, q.name, q.dep_path);
    lemma_wants_kept(graph, start, plan, next, r, name, target);
    let p = plan.nodes[k].parent->0;
    lemma_reaches_bound(plan, p, r);
    assert(next.nodes[p].nm_dir == plan.nodes[p].nm_dir);
    assert(next.nodes[k].parent == plan.nodes[k].parent);
    if !plan.reuses(q.requester, q.name, q.dep_path) {
        law_site_is_visible(plan, q.requester, q.floor, q.name);
        lemma_reaches_kept(plan, plan.site(q.requester, q.floor, q.name), q.name, q.dep_path, p, r);
    }
    assert(next.provides_at(r, name, target, k));
}

proof fn lemma_wanted_kept(ctx: PlanContext, start: Progress, s: Progress)
    requires
        maps_wf(ctx.graph),
        progress_wf(s),
        step(ctx, s) is Next,
        start.plan.nodes.len() <= s.plan.nodes.len(),
        queue_wanted(ctx.graph, start, s),
        nodes_wanted(ctx.graph, start, s),
    ensures
        queue_wanted(ctx.graph, start, step(ctx, s)->Next_0),
        nodes_wanted(ctx.graph, start, step(ctx, s)->Next_0),
{
    let t = step(ctx, s)->Next_0;
    let q = s.queue[0];
    let rest = s.queue.drop_first();
    let graph = ctx.graph;
    if !s.force && s.plan.defers(q, ctx.preferred) {
        assert forall|i: int| 0 <= i < t.queue.len() implies wants(
            graph,
            start,
            t.plan,
            (#[trigger] t.queue[i]).requester,
            t.queue[i].name,
            t.queue[i].dep_path,
        ) by {
            if i < rest.len() {
                assert(t.queue[i] == s.queue[i + 1]);
            }
        }
        assert(t.plan == s.plan);
    } else {
        law_placing_keeps_nodes(s.plan, q.requester, q.floor, q.name, q.dep_path);
        let node = s.plan.placed_at(q.requester, q.name, q.dep_path);
        let more = child_requests(ctx, q, node);
        assert forall|i: int| 0 <= i < t.queue.len() implies wants(
            graph,
            start,
            t.plan,
            (#[trigger] t.queue[i]).requester,
            t.queue[i].name,
            t.queue[i].dep_path,
        ) by {
            if i < rest.len() {
                let e = s.queue[i + 1];
                assert(t.queue[i] == e);
                lemma_wants_kept(graph, start, s.plan, t.plan, e.requester, e.name, e.dep_path);
            } else if s.plan.reuses(q.requester, q.name, q.dep_path) {
                assert(t.queue =~= rest);
            } else {
                let j = i - rest.len();
                let all = needs(graph, q.dep_path);
                assert(t.queue[i] == more[j]);
                assert(more[j].name == all[j].0 && more[j].dep_path == all[j].1);
                assert(all.contains((more[j].name, more[j].dep_path)));
                lemma_needs_are_declared(graph, q.dep_path, more[j].name, more[j].dep_path);
                law_site_is_visible(s.plan, q.requester, q.floor, q.name);
                assert(t.plan.nodes[node].dep_path == Some(q.dep_path));
            }
        }
        assert forall|k: int| start.plan.nodes.len() <= k < t.plan.nodes.len() implies #[trigger] is_placed_for_someone(
            graph,
            start,
            t.plan,
            k,
        ) by {
            if k < s.plan.nodes.len() {
                assert(is_placed_for_someone(graph, start, s.plan, k));
                let (r, name) = choose|r: int, name: Seq<char>| #[trigger]
                    placed_for(graph, start, s.plan, k, r, name);
                lemma_placed_for_kept(graph, start, s, q, k, r, name);
            } else {
                let site = s.plan.site(q.requester, q.floor, q.name);
                law_site_is_visible(s.plan, q.requester, q.floor, q.name);
                lemma_reaches_kept(s.plan, site, q.name, q.dep_path, site, q.requester);
                lemma_wants_kept(graph, start, s.plan, t.plan, q.requester, q.name, q.dep_path);
                assert(t.plan.provides_at(q.requester, q.name, q.dep_path, k));
                assert(placed_for(graph, start, t.plan, k, q.requester, q.name));
            }
        }
    }
}

proof fn lemma_wanted_after(ctx: PlanContext, start: Progress, n: nat)
    requires
        maps_wf(ctx.graph),
        progress_wf(start),
    ensures
        queue_wanted(ctx.graph, start, after(ctx, start, n)),
        nodes_wanted(ctx.graph, start, after(ctx, start, n)),
        progress_wf(after(ctx, start, n)),
        start.plan.nodes.len() <= after(ctx, start, n).plan.nodes.len(),
    decreases n,
{
    if n > 0 {
        let s = after(ctx, start, (n - 1) as nat);
        lemma_wanted_after(ctx, start, (n - 1) as nat);
        if step(ctx, s) is Next {
            lemma_step_wf(ctx, s);
            lemma_wanted_kept(ctx, start, s);
        }
    }
}

/// Nothing is placed that nobody wants: every placed package was asked for at
/// the start, or a placed package that is no live link declares it; and the one
/// that wants it looks through the directory it was put into.
pub proof fn law_nothing_is_placed_unasked(ctx: PlanContext, start: Progress, plan: PlanView, k: int)
    requires
        maps_wf(ctx.graph),
        progress_wf(start),
        plans(ctx, start, plan),
        start.plan.nodes.len() <= k < plan.nodes.len(),
    ensures
        exists|r: int, name: Seq<char>| #[trigger] placed_for(ctx.graph, start, plan, k, r, name),
{
    let n = choose|n: nat| #[trigger] after(ctx, start, n).plan == plan && step(ctx, after(ctx, start, n)) is Done;
    lemma_wanted_after(ctx, start, n);
    assert(is_placed_for_someone(ctx.graph, start, plan, k));
}

/// The nodes that planning starts with stay what they are.
pub proof fn lemma_start_nodes_kept(ctx: PlanContext, start: Progress, n: nat)
    requires
        progress_wf(start),
    ensures
        progress_wf(after(ctx, start, n)),
        start.plan.nodes.len() <= after(ctx, start, n).plan.nodes.len(),
        after(ctx, start, n).plan.importers == start.plan.importers,
        forall|i: int|
            0 <= i < start.plan.nodes.len() ==> {
                &&& (#[trigger] after(ctx, start, n).plan.nodes[i]).dep_path == start.plan.nodes[i].dep_path
                &&& after(ctx, start, n).plan.nodes[i].parent == start.plan.nodes[i].parent
                &&& after(ctx, start, n).plan.nodes[i].nm_dir == start.plan.nodes[i].nm_dir
            },
    decreases n,
{
    if n > 0 {
        let s = after(ctx, start, (n - 1) as nat);
        lemma_start_nodes_kept(ctx, start, (n - 1) as nat);
        if step(ctx, s) is Next {
            let q = s.queue[0];
            lemma_step_wf(ctx, s);
            law_placing_keeps_nodes(s.plan, q.requester, q.floor, q.name, q.dep_path);
            let t = after(ctx, start, n);
            assert forall|i: int| 0 <= i < start.plan.nodes.len() implies {
                &&& (#[trigger] t.plan.nodes[i]).dep_path == start.plan.nodes[i].dep_path
                &&& t.plan.nodes[i].parent == start.plan.nodes[i].parent
                &&& t.plan.nodes[i].nm_dir == start.plan.nodes[i].nm_dir
            } by {
                assert(s.plan.nodes[i].dep_path == start.plan.nodes[i].dep_path);
            }
        }
    }
}

/// The nodes that planning a workspace starts with are no packages.
proof fn lemma_workspace_starts_bare(
    root_nm: Seq<Seq<char>>,
    importers: Seq<ImporterView>,
    graph: LockfileGraph,
    limits: HoistingLimits,
)
    ensures
        forall|i: int|
            0 <= i < workspace_start(root_nm, importers, graph, limits).plan.nodes.len() ==> (
            #[trigger] workspace_start(root_nm, importers, graph, limits).plan.nodes[i]).dep_path is None,
    decreases importers.len(),
{
    if importers.len() > 0 {
        let prior = workspace_start(root_nm, importers.drop_last(), graph, limits);
        let s = workspace_start(root_nm, importers, graph, limits);
        lemma_workspace_starts_bare(root_nm, importers.drop_last(), graph, limits);
        assert forall|i: int| 0 <= i < s.plan.nodes.len() implies (#[trigger] s.plan.nodes[i]).dep_path is None by {
            if i < prior.plan.nodes.len() {
                assert(s.plan.nodes[i] == prior.plan.nodes[i]);
            }
        }
    }
}

/// The tree of one importer is complete: the importer looks through a directory
/// that has each direct dependency that the graph has, and each package in the
/// tree through one that has whatever it declares.
pub proof fn law_importer_tree_is_complete(
    nm: Seq<Seq<char>>,
    deps: Seq<DirectDep>,
    graph: LockfileGraph,
    limits: HoistingLimits,
    refused: Set<Seq<char>>,
    plan: PlanView,
)
    requires
        maps_wf(graph),
        plans(
            PlanContext { graph, limits, preferred: Map::empty(), refused },
            importer_start(nm, deps, graph),
            plan,
        ),
    ensures
        forall|d: int|
            0 <= d < deps.len() && graph.packages@.contains_key((#[trigger] deps[d]).dep_path@) ==> plan.provides(
                0,
                deps[d].name@,
                deps[d].dep_path@,
            ),
        forall|node: int, name: Seq<char>, target: Seq<char>|
            0 <= node < plan.nodes.len() && plan.nodes[node].dep_path is Some
                && declares(graph, plan.nodes[node].dep_path->0, name, target)
                ==> #[trigger] plan.provides(node, name, target),
{
    let ctx = PlanContext { graph, limits, preferred: Map::empty(), refused };
    let start = importer_start(nm, deps, graph);
    lemma_importer_start_wf(nm, deps, graph);
    let n = choose|n: nat| #[trigger] after(ctx, start, n).plan == plan && step(ctx, after(ctx, start, n)) is Done;
    lemma_start_nodes_kept(ctx, start, n);
    assert forall|d: int| 0 <= d < deps.len() && graph.packages@.contains_key(
        (#[trigger] deps[d]).dep_path@,
    ) implies plan.provides(0, deps[d].name@, deps[d].dep_path@) by {
        let k = crate::hoisted::workspace::lemma_seed_of(deps, graph, 0, 0, d);
        law_every_request_is_provided(ctx, start, plan, k);
    }
    assert forall|node: int, name: Seq<char>, target: Seq<char>|
        0 <= node < plan.nodes.len() && plan.nodes[node].dep_path is Some
            && declares(graph, plan.nodes[node].dep_path->0, name, target) implies #[trigger] plan.provides(node,
            name, target) by {
        assert(plan.nodes[0].dep_path == start.plan.nodes[0].dep_path);
        law_declared_dependencies_are_provided(ctx, start, plan, node, name);
    }
}

/// The tree of a workspace is complete in the same way, whatever the limits.
pub proof fn law_workspace_tree_is_complete(
    root_nm: Seq<Seq<char>>,
    importers: Seq<ImporterView>,
    graph: LockfileGraph,
    limits: HoistingLimits,
    refused: Set<Seq<char>>,
    plan: PlanView,
)
    requires
        maps_wf(graph),
        plans(
            workspace_context(root_nm, importers, graph, limits, refused),
            workspace_start(root_nm, importers, graph, limits),
            plan,
        ),
    ensures
        forall|i: int, d: int|
            0 <= i < importers.len() && 0 <= d < importers[i].dependencies.len() && graph.packages@.contains_key(
                (#[trigger] importers[i].dependencies[d]).dep_path@,
            ) ==> exists|node: int|
                {
                    &&& 0 <= node < plan.nodes.len()
                    &&& (#[trigger] plan.nodes[node]).dep_path is None
                    &&& plan.nodes[node].nm_dir == importers[i].modules_dir
                    &&& plan.provides(
                        node,
                        importers[i].dependencies[d].name@,
                        importers[i].dependencies[d].dep_path@,
                    )
                },
        forall|node: int, name: Seq<char>, target: Seq<char>|
            0 <= node < plan.nodes.len() && plan.nodes[node].dep_path is Some
                && declares(graph, plan.nodes[node].dep_path->0, name, target)
                ==> #[trigger] plan.provides(node, name, target),
{
    let ctx = workspace_context(root_nm, importers, graph, limits, refused);
    let start = workspace_start(root_nm, importers, graph, limits);
    lemma_workspace_start_wf(root_nm, importers, graph, limits);
    lemma_workspace_starts_bare(root_nm, importers, graph, limits);
    let n = choose|n: nat| #[trigger] after(ctx, start, n).plan == plan && step(ctx, after(ctx, start, n)) is Done;
    lemma_start_nodes_kept(ctx, start, n);
    assert forall|i: int, d: int|
        0 <= i < importers.len() && 0 <= d < importers[i].dependencies.len() && graph.packages@.contains_key(
            (#[trigger] importers[i].dependencies[d]).dep_path@,
        ) implies exists|node: int|
        {
            &&& 0 <= node < plan.nodes.len()
            &&& (#[trigger] plan.nodes[node]).dep_path is None
            &&& plan.nodes[node].nm_dir == importers[i].modules_dir
            &&& plan.provides(node, importers[i].dependencies[d].name@, importers[i].dependencies[d].dep_path@)
        } by {
        law_direct_dependencies_are_provided(root_nm, importers, graph, limits, refused, plan, i, d);
        let node = importer_node(root_nm, importers, graph, limits, i);
        lemma_importer_node_dir(root_nm, importers, graph, limits, i);
        assert(plan.nodes[node].nm_dir == start.plan.nodes[node].nm_dir);
        assert(plan.nodes[node].dep_path == start.plan.nodes[node].dep_path);
    }
    assert forall|node: int, name: Seq<char>, target: Seq<char>|
        0 <= node < plan.nodes.len() && plan.nodes[node].dep_path is Some
            && declares(graph, plan.nodes[node].dep_path->0, name, target) implies #[trigger] plan.provides(node,
            name, target) by {
        if node < start.plan.nodes.len() {
            assert(plan.nodes[node].dep_path == start.plan.nodes[node].dep_path);
        }
        law_declared_dependencies_are_provided(ctx, start, plan, node, name);
    }
}

/// The node of an importer has the importer's modules directory.
proof fn lemma_importer_node_dir(
    root_nm: Seq<Seq<char>>,
    importers: Seq<ImporterView>,
    graph: LockfileGraph,
    limits: HoistingLimits,
    i: int,
)
    requires
        0 <= i < importers.len(),
    ensures
        ({
            let nodes = workspace_start(root_nm, importers, graph, limits).plan.nodes;
            let node = importer_node(root_nm, importers, graph, limits, i);
            &&& nodes.len() > 0 && nodes[0].nm_dir == root_nm
            &&& 0 <= node < nodes.len()
            &&& nodes[node].nm_dir == importers[i].modules_dir
        }),
    decreases importers.len(),
{
    let last = importers.drop_last();
    let prior = workspace_start(root_nm, last, graph, limits);
    let s = workspace_start(root_nm, importers, graph, limits);
    lemma_root_node_dir(root_nm, importers, graph, limits);
    lemma_root_node_dir(root_nm, last, graph, limits);
    if i == importers.len() - 1 {
        assert(last =~= importers.take(i));
    } else {
        assert(last.take(i) =~= importers.take(i));
        lemma_importer_node_dir(root_nm, last, graph, limits, i);
        let node = importer_node(root_nm, importers, graph, limits, i);
        assert(s.plan.nodes[node] == prior.plan.nodes[node]);
    }
}

proof fn lemma_root_node_dir(
    root_nm: Seq<Seq<char>>,
    importers: Seq<ImporterView>,
    graph: LockfileGraph,
    limits: HoistingLimits,
)
    ensures
        workspace_start(root_nm, importers, graph, limits).plan.nodes.len() > 0,
        workspace_start(root_nm, importers, graph, limits).plan.nodes[0].nm_dir == root_nm,
        workspace_start(root_nm, importers, graph, limits).plan.nodes[0].parent is None,
    decreases importers.len(),
{
    if importers.len() > 0 {
        lemma_root_node_dir(root_nm, importers.drop_last(), graph, limits);
    }
}

/// The name is taken above: the directory over the one that node `k` stands in
/// has a package of that name, or the same directory had one before.
pub open spec fn name_is_taken(plan: PlanView, k: int, name: Seq<char>) -> bool {
    let p = plan.nodes[k].parent->0;
    &&& plan.nodes[k].pkg_dir == Some(path_joined(plan.nodes[p].nm_dir, name))
    &&& {
        ||| plan.nodes[plan.nodes[p].parent->0].children.contains_key(name)
        ||| exists|j: int|
            0 <= j < plan.nodes.len() && j != k && (#[trigger] plan.nodes[j]).parent == Some(p) && plan.nodes[j].pkg_dir
                == plan.nodes[k].pkg_dir
    }
}

/// Node `k` stands as high as it can.
pub open spec fn stands_high(plan: PlanView, k: int) -> bool {
    &&& plan.nodes[k].parent matches Some(p)
    &&& 0 <= p < plan.nodes.len()
    &&& plan.nodes[p].parent is None || exists|name: Seq<char>| #[trigger] name_is_taken(plan, k, name)
}

/// The package is a live link.
pub open spec fn is_live_link(graph: LockfileGraph, dep_path: Seq<char>) -> bool {
    graph.packages@.contains_key(dep_path) && (graph.packages@[dep_path].local_source matches Some(
        LocalSource::Link(_),
    ))
}

spec fn queue_rises(graph: LockfileGraph, s: Progress) -> bool {
    forall|i: int|
        0 <= i < s.queue.len() && !is_live_link(graph, (#[trigger] s.queue[i]).dep_path) ==> 0 <= s.queue[i].floor
            < s.plan.nodes.len() && s.plan.nodes[s.queue[i].floor].parent is None
}

spec fn nodes_high(graph: LockfileGraph, first: int, s: Progress) -> bool {
    forall|k: int|
        #![trigger stands_high(s.plan, k)]
        first <= k < s.plan.nodes.len() && s.plan.nodes[k].dep_path is Some && !is_live_link(
            graph,
            s.plan.nodes[k].dep_path->0,
        ) ==> stands_high(s.plan, k)
}

/// A site is at the top, or right below a directory that has the name, or it is
/// where the search began.
proof fn lemma_site_is_high(plan: PlanView, cursor: int, floor: int, name: Seq<char>, best: int)
    requires
        plan.wf(),
        0 <= cursor < plan.nodes.len(),
        0 <= floor < plan.nodes.len(),
        plan.nodes[floor].parent is None,
    ensures
        ({
            let r = plan.site_from(cursor, floor, name, best);
            ||| plan.nodes[cursor].children.contains_key(name) && r == best
            ||| plan.nodes[r].parent is None
            ||| plan.nodes[plan.nodes[r].parent->0].children.contains_key(name)
        }),
    decreases cursor,
{
    assert(plan.node_wf(cursor));
    if !plan.nodes[cursor].children.contains_key(name) && cursor != floor && plan.nodes[cursor].parent is Some {
        lemma_site_is_high(plan, plan.nodes[cursor].parent->0, floor, name, cursor);
    }
}

proof fn lemma_high_kept(plan: PlanView, q: RequestView, k: int)
    requires
        plan.wf(),
        0 <= q.requester < plan.nodes.len(),
        0 <= k < plan.nodes.len(),
        stands_high(plan, k),
    ensures
        stands_high(plan.placed(q.requester, q.floor, q.name, q.dep_path), k),
{
    let next = plan.placed(q.requester, q.floor, q.name, q.dep_path);
    law_placing_keeps_nodes(plan, q.requester, q.floor, q.name, q.dep_path);
    law_site_is_visible(plan, q.requester, q.floor, q.name);
    let p = plan.nodes[k].parent->0;
    assert(plan.node_wf(p));
    assert(next.nodes[k].parent == plan.nodes[k].parent);
    assert(next.nodes[p].parent == plan.nodes[p].parent);
    if plan.nodes[p].parent is Some {
        let name = choose|name: Seq<char>| #[trigger] name_is_taken(plan, k, name);
        let top = plan.nodes[p].parent->0;
        assert(next.nodes[top].parent == plan.nodes[top].parent);
        if plan.nodes[top].children.contains_key(name) {
            assert(next.nodes[top].children.contains_key(name));
        } else {
            let j = choose|j: int|
                0 <= j < plan.nodes.len() && j != k && (#[trigger] plan.nodes[j]).parent == Some(p)
                    && plan.nodes[j].pkg_dir == plan.nodes[k].pkg_dir;
            assert(next.nodes[j].parent == Some(p));
        }
        assert(name_is_taken(next, k, name));
    }
}

proof fn lemma_heights_kept(ctx: PlanContext, first: int, s: Progress)
    requires
        maps_wf(ctx.graph),
        progress_wf(s),
        s.plan.nodes[0].parent is None,
        step(ctx, s) is Next,
        ctx.limits is Unlimited,
        0 <= first <= s.plan.nodes.len(),
        queue_rises(ctx.graph, s),
        nodes_high(ctx.graph, first, s),
    ensures
        queue_rises(ctx.graph, step(ctx, s)->Next_0),
        nodes_high(ctx.graph, first, step(ctx, s)->Next_0),
        step(ctx, s)->Next_0.plan.nodes[0].parent is None,
{
    let t = step(ctx, s)->Next_0;
    let q = s.queue[0];
    let rest = s.queue.drop_first();
    let graph = ctx.graph;
    law_placing_keeps_nodes(s.plan, q.requester, q.floor, q.name, q.dep_path);
    law_site_is_visible(s.plan, q.requester, q.floor, q.name);
    assert(t.plan.nodes[0].parent == s.plan.nodes[0].parent);
    let node = s.plan.placed_at(q.requester, q.name, q.dep_path);
    let more = child_requests(ctx, q, node);
    assert forall|i: int| 0 <= i < t.queue.len() && !is_live_link(graph, (#[trigger] t.queue[i]).dep_path) implies 0
        <= t.queue[i].floor < t.plan.nodes.len() && t.plan.nodes[t.queue[i].floor].parent is None by {
        if i < rest.len() {
            assert(t.queue[i] == s.queue[i + 1]);
            assert(t.plan.nodes[t.queue[i].floor].parent == s.plan.nodes[t.queue[i].floor].parent);
        } else if !s.force && s.plan.defers(q, ctx.preferred) {
            assert(t.queue[i] == q);
        } else if s.plan.reuses(q.requester, q.name, q.dep_path) {
            assert(t.queue =~= rest);
        } else {
            assert(t.queue[i] == more[i - rest.len()]);
            assert(t.queue[i].floor == 0);
        }
    }
    assert forall|k: int|
        #![trigger stands_high(t.plan, k)]
        first <= k < t.plan.nodes.len() && t.plan.nodes[k].dep_path is Some && !is_live_link(
            graph,
            t.plan.nodes[k].dep_path->0,
        ) implies stands_high(t.plan, k) by {
        if k < s.plan.nodes.len() {
            assert(t.plan.nodes[k].dep_path == s.plan.nodes[k].dep_path);
            assert(stands_high(s.plan, k));
            if !(!s.force && s.plan.defers(q, ctx.preferred)) {
                lemma_high_kept(s.plan, q, k);
            }
        } else {
            let p = s.plan.site(q.requester, q.floor, q.name);
            lemma_site_is_high(s.plan, q.requester, q.floor, q.name, q.requester);
            assert(s.plan.node_wf(p));
            assert(t.plan.nodes[k].parent == Some(p));
            assert(t.plan.nodes[p].parent == s.plan.nodes[p].parent);
            if s.plan.nodes[p].parent is Some {
                let top = s.plan.nodes[p].parent->0;
                if s.plan.nodes[top].children.contains_key(q.name) {
                    assert(t.plan.nodes[top].children.contains_key(q.name));
                } else {
                    let j = s.plan.nodes[p].children[q.name];
                    assert(s.plan.child_wf(p, q.name, j));
                    assert(t.plan.nodes[j].parent == Some(p));
                }
                assert(name_is_taken(t.plan, k, q.name));
            }
        }
    }
}

proof fn lemma_heights_after(ctx: PlanContext, start: Progress, n: nat)
    requires
        maps_wf(ctx.graph),
        progress_wf(start),
        start.plan.nodes[0].parent is None,
        ctx.limits is Unlimited,
        queue_rises(ctx.graph, start),
    ensures
        queue_rises(ctx.graph, after(ctx, start, n)),
        nodes_high(ctx.graph, start.plan.nodes.len() as int, after(ctx, start, n)),
        progress_wf(after(ctx, start, n)),
        after(ctx, start, n).plan.nodes[0].parent is None,
        start.plan.nodes.len() <= after(ctx, start, n).plan.nodes.len(),
    decreases n,
{
    if n > 0 {
        let s = after(ctx, start, (n - 1) as nat);
        lemma_heights_after(ctx, start, (n - 1) as nat);
        if step(ctx, s) is Next {
            lemma_step_wf(ctx, s);
            lemma_heights_kept(ctx, start.plan.nodes.len() as int, s);
        }
    }
}

proof fn lemma_seeds_rise(deps: Seq<DirectDep>, graph: LockfileGraph, importer: int, floor: int)
    ensures
        forall|i: int|
            0 <= i < seeds(deps, graph, importer, floor).len() && !is_live_link(
                graph,
                (#[trigger] seeds(deps, graph, importer, floor)[i]).dep_path,
            ) ==> seeds(deps, graph, importer, floor)[i].floor == floor,
    decreases deps.len(),
{
    if deps.len() > 0 {
        lemma_seeds_rise(deps.drop_last(), graph, importer, floor);
        let all = seeds(deps, graph, importer, floor);
        let rest = seeds(deps.drop_last(), graph, importer, floor);
        assert forall|i: int| 0 <= i < all.len()
            && !is_live_link(graph, (#[trigger] all[i]).dep_path) implies all[i].floor
            == floor by {
            if i < rest.len() {
                assert(all[i] == rest[i]);
            }
        }
    }
}

proof fn lemma_workspace_rises(root_nm: Seq<Seq<char>>, importers: Seq<ImporterView>, graph: LockfileGraph)
    ensures
        queue_rises(graph, workspace_start(root_nm, importers, graph, HoistingLimits::Unlimited)),
    decreases importers.len(),
{
    let limits = HoistingLimits::Unlimited;
    if importers.len() > 0 {
        let prior = workspace_start(root_nm, importers.drop_last(), graph, limits);
        let s = workspace_start(root_nm, importers, graph, limits);
        lemma_workspace_rises(root_nm, importers.drop_last(), graph);
        lemma_root_node_dir(root_nm, importers.drop_last(), graph, limits);
        lemma_root_node_dir(root_nm, importers, graph, limits);
        let importer = importers.last();
        let reachable = crate::hoisted::planner::root_reachable(root_nm, importer.modules_dir);
        let idx = if importer.modules_dir == root_nm {
            0
        } else {
            prior.plan.nodes.len() as int
        };
        let floor = if reachable {
            0
        } else {
            idx
        };
        lemma_seeds_rise(importer.dependencies, graph, idx, floor);
        let added = seeds(importer.dependencies, graph, idx, floor);
        assert forall|i: int| 0 <= i < s.queue.len() && !is_live_link(
            graph,
            (#[trigger] s.queue[i]).dep_path,
        ) implies 0 <= s.queue[i].floor < s.plan.nodes.len() && s.plan.nodes[s.queue[i].floor].parent is None by {
            if i < prior.queue.len() {
                assert(s.queue[i] == prior.queue[i]);
                assert(s.plan.nodes[s.queue[i].floor] == prior.plan.nodes[s.queue[i].floor]);
            } else {
                assert(s.queue[i] == added[i - prior.queue.len()]);
            }
        }
    }
}

/// Without limits packages go up as far as they can: every placed package that
/// is no live link stands in a directory at the top of its tree, or its name is
/// taken in the directory above.
pub proof fn law_packages_stand_high(
    root_nm: Seq<Seq<char>>,
    importers: Seq<ImporterView>,
    graph: LockfileGraph,
    refused: Set<Seq<char>>,
    plan: PlanView,
    k: int,
)
    requires
        maps_wf(graph),
        plans(
            workspace_context(root_nm, importers, graph, HoistingLimits::Unlimited, refused),
            workspace_start(root_nm, importers, graph, HoistingLimits::Unlimited),
            plan,
        ),
        0 <= k < plan.nodes.len(),
        plan.nodes[k].dep_path is Some,
        !is_live_link(graph, plan.nodes[k].dep_path->0),
    ensures
        stands_high(plan, k),
{
    let limits = HoistingLimits::Unlimited;
    let ctx = workspace_context(root_nm, importers, graph, limits, refused);
    let start = workspace_start(root_nm, importers, graph, limits);
    lemma_workspace_start_wf(root_nm, importers, graph, limits);
    lemma_workspace_starts_bare(root_nm, importers, graph, limits);
    lemma_workspace_rises(root_nm, importers, graph);
    lemma_root_node_dir(root_nm, importers, graph, limits);
    let n = choose|n: nat| #[trigger] after(ctx, start, n).plan == plan && step(ctx, after(ctx, start, n)) is Done;
    lemma_heights_after(ctx, start, n);
    lemma_start_nodes_kept(ctx, start, n);
    if k < start.plan.nodes.len() {
        assert(plan.nodes[k].dep_path == start.plan.nodes[k].dep_path);
    }
}

} // verus!
