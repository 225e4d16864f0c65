//! Who gets the workspace root's slot in a finished plan.
use crate::graph::{DirectDep, LockfileGraph};
use crate::hoisted::need_laws::{is_live_link, lemma_start_nodes_kept};
use crate::hoisted::plan::{law_placing_keeps_nodes, law_site_is_visible, HoistingLimits, PlanView, RequestView};
use crate::hoisted::planner::{
    after, child_requests, plans, progress_wf, root_reachable, seeds, step, workspace_start, ImporterView,
    PlanContext, Progress,
};
use crate::hoisted::preference_laws::law_roots_own_dependency_is_preferred;
use crate::hoisted::preferences::workspace_preferences;
use crate::hoisted::workspace::{importer_node, lemma_importer_seed, lemma_workspace_start_wf, workspace_context};
use vstd::prelude::*;

verus! {

/// The root's slot for the name holds the package.
pub open spec fn slot_holds(plan: PlanView, name: Seq<char>, dep_path: Seq<char>) -> bool {
    &&& plan.nodes.len() > 0
    &&& plan.nodes[0].children.contains_key(name)
    &&& 0 <= plan.nodes[0].children[name] < plan.nodes.len()
    &&& plan.nodes[plan.nodes[0].children[name]].dep_path == Some(dep_path)
}

/// Every request of node `r` for the name is one for the package, up to the root.
spec fn asks_only(s: Progress, r: int, name: Seq<char>, dep_path: Seq<char>) -> bool {
    forall|i: int|
        0 <= i < s.queue.len() && (#[trigger] s.queue[i]).requester == r && s.queue[i].name == name
            ==> s.queue[i].dep_path == dep_path && s.queue[i].floor == 0
}

/// Requests go up to the root, or stay with the one who asks.
spec fn floors_plain(s: Progress) -> bool {
    forall|i: int|
        0 <= i < s.queue.len() ==> (#[trigger] s.queue[i]).floor == 0 || s.queue[i].floor == s.queue[i].requester
}

/// The request at place `w` is for the package, up to the root, and comes round
/// before everything was put off.
spec fn comes_round(s: Progress, r: int, name: Seq<char>, dep_path: Seq<char>, w: int) -> bool {
    &&& 0 <= w
    &&& w + s.deferrals < s.queue.len()
    &&& s.queue[w].requester == r
    &&& s.queue[w].floor == 0
    &&& s.queue[w].name == name
    &&& s.queue[w].dep_path == dep_path
}

/// The slot is free, and the request for it waits.
spec fn slot_waits(s: Progress, r: int, name: Seq<char>, dep_path: Seq<char>) -> bool {
    &&& !s.force
    &&& !s.plan.nodes[0].children.contains_key(name)
    &&& !s.plan.nodes[r].children.contains_key(name)
    &&& asks_only(s, r, name, dep_path)
    &&& exists|w: int| #[trigger] comes_round(s, r, name, dep_path, w)
}

spec fn slot_state(s: Progress, r: int, name: Seq<char>, dep_path: Seq<char>) -> bool {
    &&& asks_only(s, 0, name, dep_path)
    &&& floors_plain(s)
    &&& slot_holds(s.plan, name, dep_path) || slot_waits(s, r, name, dep_path)
}

proof fn lemma_site_at_root(plan: PlanView, cursor: int, name: Seq<char>, best: int)
    requires
        plan.wf(),
        0 <= cursor < plan.nodes.len(),
        best != 0,
        plan.site_from(cursor, 0, name, best) == 0,
    ensures
        plan.open_to_floor(cursor, 0, name),
    decreases cursor,
{
    assert(plan.node_wf(cursor));
    if !plan.nodes[cursor].children.contains_key(name) && cursor != 0 && plan.nodes[cursor].parent is Some {
        lemma_site_at_root(plan, plan.nodes[cursor].parent->0, name, cursor);
    }
}

/// A site is not below a free root, unless the search began there.
proof fn lemma_site_below_root(plan: PlanView, cursor: int, name: Seq<char>, best: int, r: int)
    requires
        plan.wf(),
        0 <= cursor < plan.nodes.len(),
        !plan.nodes[0].children.contains_key(name),
        r != 0,
        plan.nodes[r].parent == Some(0int),
        best != r,
    ensures
        plan.site_from(cursor, 0, name, best) != r,
    decreases cursor,
{
    assert(plan.node_wf(cursor));
    if !plan.nodes[cursor].children.contains_key(name) && cursor != 0 && plan.nodes[cursor].parent is Some {
        let p = plan.nodes[cursor].parent->0;
        if cursor == r {
            assert(plan.site_from(p, 0, name, cursor) == 0);
        } else {
            lemma_site_below_root(plan, p, name, cursor, r);
        }
    }
}

/// A slot that is taken is not the site of another package, unless the root asks.
proof fn lemma_taken_root(plan: PlanView, cursor: int, floor: int, name: Seq<char>, best: int)
    requires
        plan.wf(),
        0 <= cursor < plan.nodes.len(),
        plan.nodes[0].children.contains_key(name),
        best != 0,
    ensures
        plan.site_from(cursor, floor, name, best) != 0,
    decreases cursor,
{
    assert(plan.node_wf(cursor));
    if !plan.nodes[cursor].children.contains_key(name) && cursor != floor && plan.nodes[cursor].parent is Some {
        lemma_taken_root(plan, plan.nodes[cursor].parent->0, floor, name, cursor);
    }
}

/// A step keeps what is asked for plain.
proof fn lemma_requests_kept(ctx: PlanContext, s: Progress, r: int, name: Seq<char>, dep_path: Seq<char>)
    requires
        progress_wf(s),
        ctx.limits is Unlimited,
        0 <= r < s.plan.nodes.len(),
        step(ctx, s) is Next,
        floors_plain(s),
        asks_only(s, r, name, dep_path),
    ensures
        floors_plain(step(ctx, s)->Next_0),
        asks_only(step(ctx, s)->Next_0, r, name, dep_path),
{
    let t = step(ctx, s)->Next_0;
    let q = s.queue[0];
    let rest = s.queue.drop_first();
    let node = s.plan.placed_at(q.requester, q.name, q.dep_path);
    let more = child_requests(ctx, q, node);
    assert forall|i: int| 0 <= i < t.queue.len() implies ({
        &&& (#[trigger] t.queue[i]).floor == 0 || t.queue[i].floor == t.queue[i].requester
        &&& t.queue[i].requester == r && t.queue[i].name == name ==> t.queue[i].dep_path == dep_path
            && t.queue[i].floor == 0
    }) by {
        if i < rest.len() {
            assert(t.queue[i] == s.queue[i + 1]);
        } else if !s.force && s.plan.defers(q, ctx.preferred) {
            assert(t.queue[i] == q);
        } else if s.plan.reuses(q.requester, q.name, q.dep_path) {
            assert(t.queue =~= rest);
        } else {
            assert(t.queue[i] == more[i - rest.len()]);
            assert(t.queue[i].requester == s.plan.nodes.len());
        }
    }
}

proof fn lemma_held_slot_kept(ctx: PlanContext, s: Progress, name: Seq<char>, dep_path: Seq<char>)
    requires
        progress_wf(s),
        step(ctx, s) is Next,
        asks_only(s, 0, name, dep_path),
        slot_holds(s.plan, name, dep_path),
    ensures
        slot_holds(step(ctx, s)->Next_0.plan, name, dep_path),
{
    let t = step(ctx, s)->Next_0;
    let q = s.queue[0];
    if !(!s.force && s.plan.defers(q, ctx.preferred)) {
        law_placing_keeps_nodes(s.plan, q.requester, q.floor, q.name, q.dep_path);
        law_site_is_visible(s.plan, q.requester, q.floor, q.name);
        let k = s.plan.nodes[0].children[name];
        assert(t.plan.nodes[k].dep_path == s.plan.nodes[k].dep_path);
        if !s.plan.reuses(q.requester, q.name, q.dep_path) && q.name == name {
            if q.requester != 0 {
                lemma_taken_root(s.plan, q.requester, q.floor, name, q.requester);
            } else {
                assert(s.queue[0].dep_path == dep_path);
                assert(s.plan.resolve(0, name) == Some(k));
            }
        }
    }
}

proof fn lemma_waiting_slot_kept(ctx: PlanContext, s: Progress, r: int, name: Seq<char>, dep_path: Seq<char>)
    requires
        progress_wf(s),
        step(ctx, s) is Next,
        ctx.limits is Unlimited,
        ctx.preferred.contains_key(name),
        ctx.preferred[name] == dep_path,
        0 <= r < s.plan.nodes.len(),
        r == 0 || s.plan.nodes[r].parent == Some(0int),
        s.plan.nodes[0].parent is None,
        asks_only(s, 0, name, dep_path),
        floors_plain(s),
        slot_waits(s, r, name, dep_path),
    ensures
        slot_state(step(ctx, s)->Next_0, r, name, dep_path),
{
    let t = step(ctx, s)->Next_0;
    let q = s.queue[0];
    let rest = s.queue.drop_first();
    let w = choose|w: int| #[trigger] comes_round(s, r, name, dep_path, w);
    lemma_requests_kept(ctx, s, r, name, dep_path);
    lemma_requests_kept(ctx, s, 0, name, dep_path);
    if !s.force && s.plan.defers(q, ctx.preferred) {
        assert(w > 0);
        assert(t.queue[w - 1] == s.queue[w]);
        assert(comes_round(t, r, name, dep_path, w - 1));
    } else {
        law_placing_keeps_nodes(s.plan, q.requester, q.floor, q.name, q.dep_path);
        law_site_is_visible(s.plan, q.requester, q.floor, q.name);
        let site = s.plan.site(q.requester, q.floor, q.name);
        if w == 0 {
            assert(s.plan.node_wf(r));
            assert(s.plan.resolve(0, name) is None);
            assert(s.plan.resolve(r, name) is None);
            assert(s.plan.site_from(0, 0, name, r) == 0);
            assert(site == 0);
            assert(slot_holds(t.plan, name, dep_path));
        } else {
            assert(t.queue[w - 1] == s.queue[w]);
            assert(comes_round(t, r, name, dep_path, w - 1));
            if !s.plan.reuses(q.requester, q.name, q.dep_path) && q.name == name {
                if site == 0 {
                    if q.dep_path == dep_path {
                        assert(slot_holds(t.plan, name, dep_path));
                    } else {
                        assert(q.requester != 0);
                        assert(q.floor == 0);
                        lemma_site_at_root(s.plan, q.requester, name, q.requester);
                        assert(s.plan.defers(q, ctx.preferred));
                    }
                } else if site == r {
                    if q.requester == r {
                        assert(s.queue[0].floor == 0);
                        assert(s.plan.site_from(0, 0, name, r) == 0);
                    } else {
                        assert(q.floor == 0);
                        lemma_site_below_root(s.plan, q.requester, name, q.requester, r);
                    }
                }
            }
        }
    }
}

proof fn lemma_slot_after(
    ctx: PlanContext,
    start: Progress,
    n: nat,
    r: int,
    name: Seq<char>,
    dep_path: Seq<char>,
)
    requires
        progress_wf(start),
        ctx.limits is Unlimited,
        ctx.preferred.contains_key(name),
        ctx.preferred[name] == dep_path,
        0 <= r < start.plan.nodes.len(),
        r == 0 || start.plan.nodes[r].parent == Some(0int),
        start.plan.nodes[0].parent is None,
        slot_state(start, r, name, dep_path),
    ensures
        slot_state(after(ctx, start, n), r, name, dep_path),
    decreases n,
{
    if n > 0 {
        let s = after(ctx, start, (n - 1) as nat);
        lemma_slot_after(ctx, start, (n - 1) as nat, r, name, dep_path);
        lemma_start_nodes_kept(ctx, start, (n - 1) as nat);
        if step(ctx, s) is Next {
            assert(s.plan.nodes[0].parent == start.plan.nodes[0].parent);
            assert(s.plan.nodes[r].parent == start.plan.nodes[r].parent);
            if slot_holds(s.plan, name, dep_path) {
                lemma_held_slot_kept(ctx, s, name, dep_path);
                lemma_requests_kept(ctx, s, 0, name, dep_path);
            } else {
                lemma_waiting_slot_kept(ctx, s, r, name, dep_path);
            }
        }
    }
}

proof fn lemma_seeds(deps: Seq<DirectDep>, graph: LockfileGraph, importer: int, floor: int, k: int) -> (d: int)
    requires
        0 <= k < seeds(deps, graph, importer, floor).len(),
    ensures
        0 <= d < deps.len(),
        seeds(deps, graph, importer, floor)[k] == (RequestView {
            requester: importer,
            floor: if is_live_link(graph, deps[d].dep_path@) {
                importer
            } else {
                floor
            },
            name: deps[d].name@,
            dep_path: deps[d].dep_path@,
        }),
    decreases deps.len(),
{
    let rest = seeds(deps.drop_last(), graph, importer, floor);
    if k < rest.len() {
        lemma_seeds(deps.drop_last(), graph, importer, floor, k)
    } else {
        deps.len() - 1
    }
}

/// The requests that planning a workspace without limits starts with: each is an
/// importer's own.
proof fn lemma_start_requests(root_nm: Seq<Seq<char>>, importers: Seq<ImporterView>, graph: LockfileGraph,
    k: int) -> (r: (
    int,
    int,
))
    requires
        0 <= k < workspace_start(root_nm, importers, graph, HoistingLimits::Unlimited).queue.len(),
    ensures
        ({
            let limits = HoistingLimits::Unlimited;
            let q = workspace_start(root_nm, importers, graph, limits).queue[k];
            let (i, d) = r;
            &&& 0 <= i < importers.len()
            &&& 0 <= d < importers[i].dependencies.len()
            &&& q.requester == importer_node(root_nm, importers, graph, limits, i)
            &&& q.name == importers[i].dependencies[d].name@
            &&& q.dep_path == importers[i].dependencies[d].dep_path@
            &&& q.floor == if is_live_link(graph, q.dep_path) || !root_reachable(root_nm, importers[i].modules_dir) {
                q.requester
            } else {
                0
            }
        }),
    decreases importers.len(),
{
    let limits = HoistingLimits::Unlimited;
    let front = importers.drop_last();
    let prior = workspace_start(root_nm, front, graph, limits);
    let s = workspace_start(root_nm, importers, graph, limits);
    let last = importers.len() - 1;
    let importer = importers.last();
    if k < prior.queue.len() {
        let (i, d) = lemma_start_requests(root_nm, front, graph, k);
        assert(s.queue[k] == prior.queue[k]);
        assert(front.take(i) =~= importers.take(i));
        (i, d)
    } else {
        let idx = importer_node(root_nm, importers, graph, limits, last);
        assert(importers.take(last) =~= front);
        let floor = if root_reachable(root_nm, importer.modules_dir) {
            0
        } else {
            idx
        };
        let d = lemma_seeds(importer.dependencies, graph, idx, floor, k - prior.queue.len());
        assert(s.queue[k] == seeds(importer.dependencies, graph, idx, floor)[k - prior.queue.len()]);
        (last, d)
    }
}

/// Nodes of different importers differ, but for those in the root's directory.
proof fn lemma_importer_nodes(root_nm: Seq<Seq<char>>, importers: Seq<ImporterView>, graph: LockfileGraph, i: int,
    j: int)
    requires
        0 <= i < importers.len(),
        0 <= j < importers.len(),
        importer_node(root_nm, importers, graph, HoistingLimits::Unlimited, i) == importer_node(
            root_nm,
            importers,
            graph,
            HoistingLimits::Unlimited,
            j,
        ),
    ensures
        i == j || (importers[i].modules_dir == root_nm && importers[j].modules_dir == root_nm),
{
    let limits = HoistingLimits::Unlimited;
    lemma_start_grows(root_nm, importers, graph, i, j);
    lemma_start_grows(root_nm, importers, graph, j, i);
}

/// Each importer outside the root adds a node.
proof fn lemma_start_grows(root_nm: Seq<Seq<char>>, importers: Seq<ImporterView>, graph: LockfileGraph, i: int, j: int)
    requires
        0 <= i < importers.len(),
        0 <= j <= importers.len(),
    ensures
        workspace_start(root_nm, importers.take(i), graph, HoistingLimits::Unlimited).plan.nodes.len() >= 1,
        i < j && importers[i].modules_dir != root_nm ==> workspace_start(
            root_nm,
            importers.take(i),
            graph,
            HoistingLimits::Unlimited,
        ).plan.nodes.len() < workspace_start(
            root_nm,
            importers.take(j),
            graph,
            HoistingLimits::Unlimited,
        ).plan.nodes.len(),
    decreases j,
{
    let limits = HoistingLimits::Unlimited;
    lemma_workspace_start_wf(root_nm, importers.take(i), graph, limits);
    if i < j {
        let b = importers.take(j);
        assert(b.drop_last() =~= importers.take(j - 1));
        assert(b.last() == importers[j - 1]);
        if i < j - 1 {
            lemma_start_grows(root_nm, importers, graph, i, j - 1);
        } else {
            assert(importers.take(j - 1) =~= importers.take(i));
        }
    }
}

/// The node of an importer that reaches the root hangs below it.
proof fn lemma_node_below_root(root_nm: Seq<Seq<char>>, importers: Seq<ImporterView>, graph: LockfileGraph, i: int)
    requires
        0 <= i < importers.len(),
        root_reachable(root_nm, importers[i].modules_dir),
    ensures
        ({
            let limits = HoistingLimits::Unlimited;
            let nodes = workspace_start(root_nm, importers, graph, limits).plan.nodes;
            let r = importer_node(root_nm, importers, graph, limits, i);
            &&& 0 <= r < nodes.len()
            &&& nodes[0].parent is None
            &&& r == 0 || nodes[r].parent == Some(0int)
        }),
    decreases importers.len(),
{
    let limits = HoistingLimits::Unlimited;
    let front = importers.drop_last();
    lemma_workspace_start_wf(root_nm, importers, graph, limits);
    lemma_workspace_start_wf(root_nm, front, graph, limits);
    let s = workspace_start(root_nm, importers, graph, limits);
    let prior = workspace_start(root_nm, front, graph, limits);
    assert(s.plan.node_wf(0));
    if i == importers.len() - 1 {
        assert(importers.take(i) =~= front);
    } else {
        assert(front.take(i) =~= importers.take(i));
        lemma_node_below_root(root_nm, front, graph, i);
        let r = importer_node(root_nm, importers, graph, limits, i);
        assert(s.plan.nodes[r] == prior.plan.nodes[r]);
    }
}

/// The package that is preferred for a name gets the root's slot in the finished
/// plan, where an importer from which lookup comes past the root depends on it
/// directly, under no other version, and the root itself on no other version.
pub proof fn law_preferred_package_gets_the_slot(
    root_nm: Seq<Seq<char>>,
    importers: Seq<ImporterView>,
    graph: LockfileGraph,
    refused: Set<Seq<char>>,
    plan: PlanView,
    i: int,
    d: int,
)
    requires
        plans(
            workspace_context(root_nm, importers, graph, HoistingLimits::Unlimited, refused),
            workspace_start(root_nm, importers, graph, HoistingLimits::Unlimited),
            plan,
        ),
        0 <= i < importers.len(),
        0 <= d < importers[i].dependencies.len(),
        root_reachable(root_nm, importers[i].modules_dir),
        graph.packages@.contains_key(importers[i].dependencies[d].dep_path@),
        importers[i].modules_dir == root_nm || !is_live_link(graph, importers[i].dependencies[d].dep_path@),
        workspace_preferences(root_nm, importers, graph).contains_key(importers[i].dependencies[d].name@),
        workspace_preferences(root_nm, importers, graph)[importers[i].dependencies[d].name@]
            == importers[i].dependencies[d].dep_path@,
        forall|j: int, e: int|
            0 <= j < importers.len() && 0 <= e < importers[j].dependencies.len() && (j == i
                || importers[j].modules_dir == root_nm) && (#[trigger] importers[j].dependencies[e]).name@
                == importers[i].dependencies[d].name@ ==> importers[j].dependencies[e].dep_path@
                == importers[i].dependencies[d].dep_path@,
    ensures
        slot_holds(plan, importers[i].dependencies[d].name@, importers[i].dependencies[d].dep_path@),
{
    let limits = HoistingLimits::Unlimited;
    let ctx = workspace_context(root_nm, importers, graph, limits, refused);
    let start = workspace_start(root_nm, importers, graph, limits);
    let name = importers[i].dependencies[d].name@;
    let dep_path = importers[i].dependencies[d].dep_path@;
    let r = importer_node(root_nm, importers, graph, limits, i);
    lemma_workspace_start_wf(root_nm, importers, graph, limits);
    lemma_node_below_root(root_nm, importers, graph, i);
    let w = lemma_importer_seed(root_nm, importers, graph, limits, i, d);
    assert forall|k: int| 0 <= k < start.queue.len() implies ({
        &&& (#[trigger] start.queue[k]).floor == 0 || start.queue[k].floor == start.queue[k].requester
        &&& (start.queue[k].requester == r || start.queue[k].requester == 0) && start.queue[k].name == name
            ==> start.queue[k].dep_path == dep_path && start.queue[k].floor == 0
    }) by {
        let (j, e) = lemma_start_requests(root_nm, importers, graph, k);
        let q = start.queue[k];
        lemma_start_grows(root_nm, importers, graph, j, j);
        if q.requester == r && q.name == name {
            lemma_importer_nodes(root_nm, importers, graph, i, j);
            assert(importers[j].dependencies[e].name@ == name);
        } else if q.requester == 0 && q.name == name {
            assert(importers[j].modules_dir == root_nm);
            assert(importers[j].dependencies[e].name@ == name);
        }
    }
    assert(start.queue[w].floor == 0);
    assert(start.deferrals == 0 && !start.force);
    assert(comes_round(start, r, name, dep_path, w));
    assert(start.plan.nodes[0].children == Map::<Seq<char>, int>::empty());
    assert(start.plan.nodes[r].children == Map::<Seq<char>, int>::empty());
    assert(slot_waits(start, r, name, dep_path));
    let n = choose|n: nat| #[trigger] after(ctx, start, n).plan == plan && step(ctx, after(ctx, start, n)) is Done;
    lemma_slot_after(ctx, start, n, r, name, dep_path);
    let s = after(ctx, start, n);
    if !slot_holds(s.plan, name, dep_path) {
        let v = choose|v: int| #[trigger] comes_round(s, r, name, dep_path, v);
        assert(s.queue.len() > 0);
    }
}

/// A direct dependency of the workspace root stands in the root's directory, under
/// its name, whatever the other projects depend on.
pub proof fn law_roots_own_dependency_gets_the_slot(
    root_nm: Seq<Seq<char>>,
    importers: Seq<ImporterView>,
    graph: LockfileGraph,
    refused: Set<Seq<char>>,
    plan: PlanView,
    i: int,
    d: int,
)
    requires
        plans(
            workspace_context(root_nm, importers, graph, HoistingLimits::Unlimited, refused),
            workspace_start(root_nm, importers, graph, HoistingLimits::Unlimited),
            plan,
        ),
        0 <= i < importers.len(),
        importers[i].modules_dir == root_nm,
        root_reachable(root_nm, root_nm),
        forall|j: int| 0 <= j < importers.len() && j != i ==> (#[trigger] importers[j]).modules_dir != root_nm,
        0 <= d < importers[i].dependencies.len(),
        forall|e: int|
            0 <= e < importers[i].dependencies.len() && e != d ==> (#[trigger] importers[i].dependencies[e]).name@
                != importers[i].dependencies[d].name@,
        graph.packages@.contains_key(importers[i].dependencies[d].dep_path@),
    ensures
        slot_holds(plan, importers[i].dependencies[d].name@, importers[i].dependencies[d].dep_path@),
{
    law_roots_own_dependency_is_preferred(root_nm, importers, graph, i, d);
    assert forall|j: int, e: int|
        0 <= j < importers.len() && 0 <= e < importers[j].dependencies.len() && (j == i || importers[j].modules_dir
            == root_nm) && (#[trigger] importers[j].dependencies[e]).name@
            == importers[i].dependencies[d].name@ implies importers[j].dependencies[e].dep_path@
        == importers[i].dependencies[d].dep_path@ by {
        assert(j == i) by {
            if j != i {
                assert(importers[j].modules_dir != root_nm);
            }
        }
        if e != d {
            assert(importers[i].dependencies[e].name@ != importers[i].dependencies[d].name@);
        }
    }
    law_preferred_package_gets_the_slot(root_nm, importers, graph, refused, plan, i, d);
}

} // verus!
