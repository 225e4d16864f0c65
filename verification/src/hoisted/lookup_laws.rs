//! What the packages of a finished plan find when they look for what they need.
//!
//! A copy that is placed later, nearer to a package than the one it found, takes
//! that one's place in its lookups. So a package finds what it needs where that
//! cannot happen: under a name that only one package goes by, and where nothing
//! is placed above the package that needs it.
use crate::graph::{DependencyEdge, DirectDep, LockfileGraph};
use crate::hoisted::plan::{
    law_floor_is_kept, law_placed_package_is_found, law_placing_keeps_nodes, law_site_is_visible,
        lemma_reaches_bound, lemma_reaches_kept,
    lemma_resolve, HoistingLimits, PlanView, RequestView,
};
use crate::hoisted::planner::{
    after, child_requests, importer_start, known_deps, lemma_seeds_requester, lemma_step_wf, needs, plans, progress_wf,
    seeds, step, waits, workspace_start, ImporterView, PlanContext, Progress,
};
use crate::hoisted::workspace::{
    importer_node, lemma_importer_seed, lemma_workspace_start_wf, workspace_context,
};
use crate::str_map::{lemma_increasing_distinct, StrMap};
use vstd::prelude::*;

verus! {

/// A new package changes what a name means only at nodes that look through the
/// place where it is put, and only that name.
proof fn lemma_resolve_elsewhere(
    plan: PlanView,
    site: int,
    name: Seq<char>,
    dep_path: Seq<char>,
    from: int,
    other: Seq<char>,
)
    requires
        plan.wf(),
        0 <= site < plan.nodes.len(),
        0 <= from < plan.nodes.len(),
        other != name || !plan.reaches(site, from),
    ensures
        plan.with_package(site, name, dep_path).resolve(from, other) == plan.resolve(from, other),
    decreases from,
{
    let next = plan.with_package(site, name, dep_path);
    assert(plan.node_wf(from));
    assert(next.nodes[from].parent == plan.nodes[from].parent);
    assert(next.nodes[from].children.contains_key(other) == plan.nodes[from].children.contains_key(other));
    if !plan.nodes[from].children.contains_key(other) {
        match plan.nodes[from].parent {
            Some(p) => {
                lemma_resolve_elsewhere(plan, site, name, dep_path, p, other);
            },
            None => {},
        }
    }
}

/// Placing a package leaves alone what every other name means, and what its own
/// name means at the nodes that do not look through the place where it is put.
pub proof fn law_other_lookups_are_left_alone(
    plan: PlanView,
    requester: int,
    floor: int,
    name: Seq<char>,
    dep_path: Seq<char>,
    from: int,
    other: Seq<char>,
)
    requires
        plan.wf(),
        0 <= requester < plan.nodes.len(),
        0 <= from < plan.nodes.len(),
        other != name || !plan.reaches(plan.site(requester, floor, name), from),
    ensures
        plan.placed(requester, floor, name, dep_path).resolve(from, other) == plan.resolve(from, other),
{
    if !plan.reuses(requester, name, dep_path) {
        law_site_is_visible(plan, requester, floor, name);
        lemma_resolve_elsewhere(plan, plan.site(requester, floor, name), name, dep_path, from, other);
    }
}

/// The name means the package at the node.
pub open spec fn finds(plan: PlanView, from: int, name: Seq<char>, dep_path: Seq<char>) -> bool {
    plan.resolve(from, name) matches Some(k) && 0 <= k < plan.nodes.len() && plan.nodes[k].dep_path == Some(dep_path)
}

/// Every package that the plan has under the name is `dep_path`.
pub open spec fn only_version(plan: PlanView, name: Seq<char>, dep_path: Seq<char>) -> bool {
    forall|i: int|
        0 <= i < plan.nodes.len() && (#[trigger] plan.nodes[i]).children.contains_key(name)
            ==> plan.nodes[plan.nodes[i].children[name]].dep_path == Some(dep_path)
}

/// Whoever needs the name needs `dep_path`: those who ask at the start, and
/// every package of the graph.
pub open spec fn one_version(ctx: PlanContext, start: Progress, name: Seq<char>, dep_path: Seq<char>) -> bool {
    &&& only_version(start.plan, name, dep_path)
    &&& queue_agrees(start.queue, name, dep_path)
    &&& graph_agrees(ctx.graph, name, dep_path)
}

/// Every request for the name is one for `dep_path`.
pub open spec fn queue_agrees(queue: Seq<RequestView>, name: Seq<char>, dep_path: Seq<char>) -> bool {
    forall|i: int| 0 <= i < queue.len() && (#[trigger] queue[i]).name == name ==> queue[i].dep_path == dep_path
}

/// Every package that needs the name needs `dep_path`.
pub open spec fn graph_agrees(graph: LockfileGraph, name: Seq<char>, dep_path: Seq<char>) -> bool {
    forall|d: Seq<char>, j: int|
        #![trigger needs(graph, d)[j]]
        0 <= j < needs(graph, d).len() && needs(graph, d)[j].0 == name ==> needs(graph, d)[j].1 == dep_path
}

/// Where only one package goes by a name, the name means that package wherever
/// it means anything.
proof fn lemma_only_version_found(plan: PlanView, from: int, name: Seq<char>, dep_path: Seq<char>)
    requires
        plan.wf(),
        0 <= from < plan.nodes.len(),
        only_version(plan, name, dep_path),
        plan.resolve(from, name) is Some,
    ensures
        finds(plan, from, name, dep_path),
    decreases from,
{
    lemma_resolve(plan, from, name);
    assert(plan.node_wf(from));
    if !plan.nodes[from].children.contains_key(name) {
        lemma_only_version_found(plan, plan.nodes[from].parent->0, name, dep_path);
    }
}

/// A name that means something keeps meaning something.
proof fn lemma_resolve_stays(plan: PlanView, site: int, name: Seq<char>, dep_path: Seq<char>, from: int, n: Seq<char>)
    requires
        plan.wf(),
        0 <= site < plan.nodes.len(),
        0 <= from < plan.nodes.len(),
        plan.resolve(from, n) is Some,
    ensures
        plan.with_package(site, name, dep_path).resolve(from, n) is Some,
    decreases from,
{
    let next = plan.with_package(site, name, dep_path);
    assert(plan.node_wf(from));
    assert(next.nodes[from].parent == plan.nodes[from].parent);
    if !plan.nodes[from].children.contains_key(n) {
        lemma_resolve_stays(plan, site, name, dep_path, plan.nodes[from].parent->0, n);
    }
}

/// A placed package of another name, or the right one of that name, leaves the
/// name to one package.
proof fn lemma_only_version_kept(plan: PlanView, r: RequestView, name: Seq<char>, dep_path: Seq<char>)
    requires
        plan.wf(),
        0 <= r.requester < plan.nodes.len(),
        only_version(plan, name, dep_path),
        r.name == name ==> r.dep_path == dep_path,
    ensures
        only_version(plan.placed(r.requester, r.floor, r.name, r.dep_path), name, dep_path),
{
    let next = plan.placed(r.requester, r.floor, r.name, r.dep_path);
    if !plan.reuses(r.requester, r.name, r.dep_path) {
        law_site_is_visible(plan, r.requester, r.floor, r.name);
        let site = plan.site(r.requester, r.floor, r.name);
        assert forall|i: int|
            0 <= i < next.nodes.len() && (#[trigger] next.nodes[i]).children.contains_key(
                name,
            ) implies next.nodes[next.nodes[i].children[name]].dep_path == Some(dep_path) by {
            if i < plan.nodes.len() {
                assert(plan.node_wf(i));
                if !(i == site && r.name == name) {
                    assert(plan.nodes[i].children.contains_key(name));
                    assert(plan.child_wf(i, name, plan.nodes[i].children[name]));
                }
            }
        }
    }
}

/// A request was met, or still waits.
pub open spec fn met(s: Progress, requester: int, name: Seq<char>, dep_path: Seq<char>) -> bool {
    finds(s.plan, requester, name, dep_path) || waits(s, requester, name, dep_path)
}

/// Every need of the name, of every node from `first` on, was met or waits.
pub open spec fn name_met(ctx: PlanContext, s: Progress, first: int, name: Seq<char>, dep_path: Seq<char>) -> bool {
    forall|i: int, j: int|
        #![trigger s.plan.nodes[i], needs(ctx.graph, s.plan.nodes[i].dep_path->0)[j]]
        first <= i < s.plan.nodes.len() && s.plan.nodes[i].dep_path is Some && 0 <= j < needs(
            ctx.graph,
            s.plan.nodes[i].dep_path->0,
        ).len() && needs(ctx.graph, s.plan.nodes[i].dep_path->0)[j].0 == name ==> met(s, i, name, dep_path)
}

/// A request that was met, or waits, under a name of one package stays so.
proof fn lemma_met_kept(ctx: PlanContext, s: Progress, requester: int, name: Seq<char>, dep_path: Seq<char>)
    requires
        progress_wf(s),
        step(ctx, s) is Next,
        0 <= requester < s.plan.nodes.len(),
        only_version(s.plan, name, dep_path),
        queue_agrees(s.queue, name, dep_path),
        met(s, requester, name, dep_path),
    ensures
        met(step(ctx, s)->Next_0, requester, name, dep_path),
{
    let t = step(ctx, s)->Next_0;
    let r = s.queue[0];
    let rest = s.queue.drop_first();
    if finds(s.plan, requester, name, dep_path) {
        if !(!s.force && s.plan.defers(r, ctx.preferred)) && !s.plan.reuses(r.requester, r.name, r.dep_path) {
            law_site_is_visible(s.plan, r.requester, r.floor, r.name);
            lemma_resolve_stays(
                s.plan,
                s.plan.site(r.requester, r.floor, r.name),
                r.name,
                r.dep_path,
                requester,
                name,
            );
            law_placing_keeps_nodes(s.plan, r.requester, r.floor, r.name, r.dep_path);
            lemma_only_version_kept(s.plan, r, name, dep_path);
            lemma_only_version_found(t.plan, requester, name, dep_path);
        }
    } else {
        let i = choose|i: int|
            0 <= i < s.queue.len() && (#[trigger] s.queue[i]).requester == requester && s.queue[i].name == name
                && s.queue[i].dep_path == dep_path;
        if i > 0 {
            assert(t.queue[i - 1] == s.queue[i]);
        } else if !s.force && s.plan.defers(r, ctx.preferred) {
            assert(t.queue[rest.len() as int] == s.queue[0]);
        } else {
            law_placed_package_is_found(s.plan, r.requester, r.floor, r.name, r.dep_path);
            law_placing_keeps_nodes(s.plan, r.requester, r.floor, r.name, r.dep_path);
            lemma_resolve(t.plan, requester, name);
        }
    }
}

/// A step leaves the name to one package, and its needs met or waiting.
proof fn lemma_name_met_kept(ctx: PlanContext, s: Progress, first: int, name: Seq<char>, dep_path: Seq<char>)
    requires
        progress_wf(s),
        step(ctx, s) is Next,
        0 <= first <= s.plan.nodes.len(),
        graph_agrees(ctx.graph, name, dep_path),
        only_version(s.plan, name, dep_path),
        queue_agrees(s.queue, name, dep_path),
        name_met(ctx, s, first, name, dep_path),
    ensures
        only_version(step(ctx, s)->Next_0.plan, name, dep_path),
        queue_agrees(step(ctx, s)->Next_0.queue, name, dep_path),
        name_met(ctx, step(ctx, s)->Next_0, first, name, dep_path),
{
    let t = step(ctx, s)->Next_0;
    let r = s.queue[0];
    let rest = s.queue.drop_first();
    let defers = !s.force && s.plan.defers(r, ctx.preferred);
    let created = !defers && !s.plan.reuses(r.requester, r.name, r.dep_path);
    let node = s.plan.placed_at(r.requester, r.name, r.dep_path);
    let more = child_requests(ctx, r, node);
    law_placing_keeps_nodes(s.plan, r.requester, r.floor, r.name, r.dep_path);
    lemma_only_version_kept(s.plan, r, name, dep_path);
    assert forall|i: int| 0 <= i < t.queue.len() && (#[trigger] t.queue[i]).name == name implies t.queue[i].dep_path
        == dep_path by {
        if i < rest.len() {
            assert(t.queue[i] == s.queue[i + 1]);
        } else if created {
            assert(t.queue[i] == more[i - rest.len()]);
            assert(more[i - rest.len()].dep_path == needs(ctx.graph, r.dep_path)[i - rest.len()].1);
        }
    }
    assert forall|i: int, j: int|
        #![trigger t.plan.nodes[i], needs(ctx.graph, t.plan.nodes[i].dep_path->0)[j]]
        first <= i < t.plan.nodes.len() && t.plan.nodes[i].dep_path is Some && 0 <= j < needs(
            ctx.graph,
            t.plan.nodes[i].dep_path->0,
        ).len() && needs(ctx.graph, t.plan.nodes[i].dep_path->0)[j].0 == name implies met(t, i, name, dep_path) by {
        let d = needs(ctx.graph, t.plan.nodes[i].dep_path->0)[j];
        if i < s.plan.nodes.len() {
            assert(s.plan.nodes[i].dep_path == t.plan.nodes[i].dep_path);
            assert(met(s, i, name, dep_path));
            lemma_met_kept(ctx, s, i, name, dep_path);
        } else {
            assert(t.plan.nodes[i].dep_path == Some(r.dep_path));
            assert(t.queue =~= rest + more);
            assert(more[j].requester == i && more[j].name == d.0 && more[j].dep_path == d.1);
            assert(t.queue[rest.len() + j] == more[j]);
        }
    }
}

proof fn lemma_name_met_after(ctx: PlanContext, start: Progress, n: nat, name: Seq<char>, dep_path: Seq<char>)
    requires
        progress_wf(start),
        one_version(ctx, start, name, dep_path),
    ensures
        progress_wf(after(ctx, start, n)),
        start.plan.nodes.len() <= after(ctx, start, n).plan.nodes.len(),
        only_version(after(ctx, start, n).plan, name, dep_path),
        queue_agrees(after(ctx, start, n).queue, name, dep_path),
        name_met(ctx, after(ctx, start, n), start.plan.nodes.len() as int, name, dep_path),
    decreases n,
{
    if n > 0 {
        let s = after(ctx, start, (n - 1) as nat);
        lemma_name_met_after(ctx, start, (n - 1) as nat, name, dep_path);
        if step(ctx, s) is Next {
            lemma_step_wf(ctx, s);
            lemma_name_met_kept(ctx, s, start.plan.nodes.len() as int, name, dep_path);
        }
    }
}

proof fn lemma_met_after(
    ctx: PlanContext,
    start: Progress,
    n: nat,
    requester: int,
    name: Seq<char>,
    dep_path: Seq<char>,
)
    requires
        progress_wf(start),
        one_version(ctx, start, name, dep_path),
        0 <= requester < start.plan.nodes.len(),
        waits(start, requester, name, dep_path),
    ensures
        met(after(ctx, start, n), requester, name, dep_path),
    decreases n,
{
    if n > 0 {
        let s = after(ctx, start, (n - 1) as nat);
        lemma_met_after(ctx, start, (n - 1) as nat, requester, name, dep_path);
        lemma_name_met_after(ctx, start, (n - 1) as nat, name, dep_path);
        if step(ctx, s) is Next {
            lemma_met_kept(ctx, s, requester, name, dep_path);
        }
    }
}

/// A name that only one package goes by is found, in the finished plan, by
/// everyone who asked for it at the start.
pub proof fn law_single_version_is_found_where_asked_for(
    ctx: PlanContext,
    start: Progress,
    plan: PlanView,
    i: int,
)
    requires
        progress_wf(start),
        plans(ctx, start, plan),
        0 <= i < start.queue.len(),
        one_version(ctx, start, start.queue[i].name, start.queue[i].dep_path),
    ensures
        finds(plan, start.queue[i].requester, start.queue[i].name, start.queue[i].dep_path),
{
    let r = start.queue[i];
    let n = choose|n: nat| #[trigger] after(ctx, start, n).plan == plan && step(ctx, after(ctx, start, n)) is Done;
    assert(waits(start, r.requester, r.name, r.dep_path));
    lemma_met_after(ctx, start, n, r.requester, r.name, r.dep_path);
}

/// A name that only one package goes by is found, in the finished plan, by every
/// placed package that needs it.
pub proof fn law_single_version_is_found_where_needed(
    ctx: PlanContext,
    start: Progress,
    plan: PlanView,
    node: int,
    j: int,
)
    requires
        progress_wf(start),
        plans(ctx, start, plan),
        start.plan.nodes.len() <= node < plan.nodes.len(),
        plan.nodes[node].dep_path is Some,
        0 <= j < needs(ctx.graph, plan.nodes[node].dep_path->0).len(),
        ({
            let need = needs(ctx.graph, plan.nodes[node].dep_path->0)[j];
            one_version(ctx, start, need.0, need.1)
        }),
    ensures
        ({
            let need = needs(ctx.graph, plan.nodes[node].dep_path->0)[j];
            finds(plan, node, need.0, need.1)
        }),
{
    let n = choose|n: nat| #[trigger] after(ctx, start, n).plan == plan && step(ctx, after(ctx, start, n)) is Done;
    let need = needs(ctx.graph, plan.nodes[node].dep_path->0)[j];
    lemma_name_met_after(ctx, start, n, need.0, need.1);
    let s = after(ctx, start, n);
    assert(s.plan.nodes[node].dep_path is Some);
    assert(met(s, node, need.0, need.1));
}

/// No request may be met above the one who asks, each name is asked for once by
/// each node and is not there yet, and those further down ask later; only the
/// root may ask at any time.
pub open spec fn orderly(s: Progress) -> bool {
    &&& forall|i: int| 0 <= i < s.queue.len() ==> (#[trigger] s.queue[i]).floor == s.queue[i].requester
    &&& forall|i: int|
        0 <= i < s.queue.len() ==> !s.plan.nodes[(#[trigger] s.queue[i]).requester].children.contains_key(
            s.queue[i].name,
        )
    &&& forall|i: int, j: int|
        0 <= i < j < s.queue.len() ==> {
            &&& (#[trigger] s.queue[i]).requester <= (#[trigger] s.queue[j]).requester || s.queue[j].requester == 0
            &&& s.queue[i].requester == s.queue[j].requester ==> s.queue[i].name != s.queue[j].name
        }
}

/// The name means the package at the node, and no request that waits can put
/// another one in between.
pub open spec fn finds_for_good(s: Progress, from: int, name: Seq<char>, dep_path: Seq<char>) -> bool {
    &&& finds(s.plan, from, name, dep_path)
    &&& forall|i: int|
        0 <= i < s.queue.len() && (#[trigger] s.queue[i]).name == name && s.plan.reaches(s.queue[i].requester, from)
            ==> s.queue[i].requester < holder(s.plan, from, name)
}

/// The node that holds what the name means.
pub open spec fn holder(plan: PlanView, from: int, name: Seq<char>) -> int {
    plan.nodes[plan.resolve(from, name)->0].parent->0
}

/// What a name means is held by a node on the way up, under that name.
proof fn lemma_holder(plan: PlanView, from: int, name: Seq<char>)
    requires
        plan.wf(),
        0 <= from < plan.nodes.len(),
        plan.resolve(from, name) is Some,
    ensures
        0 <= holder(plan, from, name) <= from,
        plan.nodes[holder(plan, from, name)].children.contains_key(name),
    decreases from,
{
    assert(plan.node_wf(from));
    if plan.nodes[from].children.contains_key(name) {
        assert(plan.child_wf(from, name, plan.nodes[from].children[name]));
    } else {
        lemma_holder(plan, plan.nodes[from].parent->0, name);
    }
}

/// A package that is put above the one that a name means does not change that.
proof fn lemma_resolve_below(plan: PlanView, site: int, name: Seq<char>, dep_path: Seq<char>, from: int)
    requires
        plan.wf(),
        0 <= site < plan.nodes.len(),
        0 <= from < plan.nodes.len(),
        plan.resolve(from, name) is Some,
        site < holder(plan, from, name),
    ensures
        plan.with_package(site, name, dep_path).resolve(from, name) == plan.resolve(from, name),
    decreases from,
{
    let next = plan.with_package(site, name, dep_path);
    assert(plan.node_wf(from));
    lemma_holder(plan, from, name);
    assert(next.nodes[from].parent == plan.nodes[from].parent);
    if plan.nodes[from].children.contains_key(name) {
        assert(plan.child_wf(from, name, plan.nodes[from].children[name]));
    } else {
        let p = plan.nodes[from].parent->0;
        lemma_holder(plan, p, name);
        lemma_resolve_below(plan, site, name, dep_path, p);
    }
}

/// What was found for good stays found for good.
proof fn lemma_for_good_kept(ctx: PlanContext, s: Progress, from: int, name: Seq<char>, dep_path: Seq<char>)
    requires
        progress_wf(s),
        orderly(s),
        ctx.limits is Dependencies,
        ctx.preferred == Map::<Seq<char>, Seq<char>>::empty(),
        step(ctx, s) is Next,
        0 <= from < s.plan.nodes.len(),
        finds_for_good(s, from, name, dep_path),
    ensures
        finds_for_good(step(ctx, s)->Next_0, from, name, dep_path),
{
    let t = step(ctx, s)->Next_0;
    let r = s.queue[0];
    let rest = s.queue.drop_first();
    let k = s.plan.resolve(from, name)->0;
    lemma_resolve(s.plan, from, name);
    if s.plan.reuses(r.requester, r.name, r.dep_path) {
        assert(t.queue =~= rest);
        assert forall|i: int|
            0 <= i < t.queue.len() && (#[trigger] t.queue[i]).name == name && t.plan.reaches(
                t.queue[i].requester,
                from,
            ) implies t.queue[i].requester < holder(t.plan, from, name) by {
            assert(t.queue[i] == s.queue[i + 1]);
        }
    } else {
        let site = s.plan.site(r.requester, r.floor, r.name);
        assert(site == r.requester);
        if r.name == name && s.plan.reaches(site, from) {
            lemma_resolve_below(s.plan, site, r.name, r.dep_path, from);
        } else {
            lemma_resolve_elsewhere(s.plan, site, r.name, r.dep_path, from, name);
        }
        let node = s.plan.nodes.len() as int;
        let more = child_requests(ctx, r, node);
        assert(t.plan.nodes[k].dep_path == s.plan.nodes[k].dep_path);
        assert(t.plan.nodes[k].parent == s.plan.nodes[k].parent);
        law_placing_keeps_nodes(s.plan, r.requester, r.floor, r.name, r.dep_path);
        assert forall|i: int|
            0 <= i < t.queue.len() && (#[trigger] t.queue[i]).name == name && t.plan.reaches(
                t.queue[i].requester,
                from,
            ) implies t.queue[i].requester < holder(t.plan, from, name) by {
            if i < rest.len() {
                assert(t.queue[i] == s.queue[i + 1]);
                lemma_reaches_kept(s.plan, site, r.name, r.dep_path, t.queue[i].requester, from);
            } else {
                assert(t.queue[i] == more[i - rest.len()]);
                lemma_reaches_bound(t.plan, node, from);
            }
        }
    }
}

/// A request that is worked off is met for good.
proof fn lemma_met_for_good(ctx: PlanContext, s: Progress)
    requires
        progress_wf(s),
        orderly(s),
        ctx.limits is Dependencies,
        ctx.preferred == Map::<Seq<char>, Seq<char>>::empty(),
        step(ctx, s) is Next,
    ensures
        finds_for_good(step(ctx, s)->Next_0, s.queue[0].requester, s.queue[0].name, s.queue[0].dep_path),
{
    let t = step(ctx, s)->Next_0;
    let r = s.queue[0];
    let rest = s.queue.drop_first();
    let from = r.requester;
    law_placed_package_is_found(s.plan, r.requester, r.floor, r.name, r.dep_path);
    law_placing_keeps_nodes(s.plan, r.requester, r.floor, r.name, r.dep_path);
    lemma_resolve(t.plan, from, r.name);
    lemma_holder(t.plan, from, r.name);
    let created = !s.plan.reuses(r.requester, r.name, r.dep_path);
    let site = s.plan.site(r.requester, r.floor, r.name);
    let node = s.plan.nodes.len() as int;
    let more = child_requests(ctx, r, node);
    let p = holder(t.plan, from, r.name);
    if created {
        assert(site == r.requester);
        assert(p == r.requester);
    } else {
        assert(t.queue =~= rest);
    }
    assert forall|i: int|
        0 <= i < t.queue.len() && (#[trigger] t.queue[i]).name == r.name && t.plan.reaches(
            t.queue[i].requester,
            from,
        ) implies t.queue[i].requester < p by {
        lemma_reaches_bound(t.plan, t.queue[i].requester, from);
        if i < rest.len() {
            assert(t.queue[i] == s.queue[i + 1]);
            assert(s.queue[0].requester <= s.queue[i + 1].requester || s.queue[i + 1].requester == 0);
            assert(s.queue[i + 1].requester == 0 && from != 0);
            if p == 0 {
                assert(!created);
                assert(s.plan.nodes[0].children.contains_key(r.name));
            }
        } else {
            assert(t.queue[i] == more[i - rest.len()]);
        }
    }
}

/// The dependencies of every package are listed as maps are.
pub open spec fn deps_wf(graph: LockfileGraph) -> bool {
    forall|d: Seq<char>| #[trigger]
        graph.packages@.contains_key(d) ==> graph.packages@[d].dependencies.wf()
}

/// Each of the first dependencies that the graph has goes by a name among the
/// first, and no two by the same.
proof fn lemma_known_deps_distinct(graph: LockfileGraph, deps: StrMap<DependencyEdge>, n: int)
    requires
        deps.wf(),
        0 <= n <= deps.keys().len(),
    ensures
        forall|i: int|
            0 <= i < known_deps(graph, deps, n).len() ==> exists|k: int|
                0 <= k < n && deps.keys()[k] == (#[trigger] known_deps(graph, deps, n)[i]).0,
        forall|i: int, j: int|
            0 <= i < j < known_deps(graph, deps, n).len() ==> (#[trigger] known_deps(graph, deps, n)[i]).0 != (
            #[trigger] known_deps(graph, deps, n)[j]).0,
    decreases n,
{
    if n > 0 {
        lemma_known_deps_distinct(graph, deps, n - 1);
        lemma_increasing_distinct(deps.keys());
        let rest = known_deps(graph, deps, n - 1);
        let all = known_deps(graph, deps, n);
        assert forall|i: int| 0 <= i < all.len() implies exists|k: int|
            0 <= k < n && deps.keys()[k] == (#[trigger] all[i]).0 by {
            if i < rest.len() {
                assert(all[i] == rest[i]);
                let k = choose|k: int| 0 <= k < n - 1 && deps.keys()[k] == rest[i].0;
                assert(deps.keys()[k] == all[i].0);
            } else {
                assert(deps.keys()[n - 1] == all[i].0);
            }
        }
        assert forall|i: int, j: int| 0 <= i < j < all.len() implies (#[trigger] all[i]).0 != (#[trigger] all[j]).0 by {
            assert(all[i] == rest[i]);
            if j < rest.len() {
                assert(all[j] == rest[j]);
            } else {
                let k = choose|k: int| 0 <= k < n - 1 && deps.keys()[k] == rest[i].0;
                assert(deps.keys()[k] != deps.keys()[n - 1]);
            }
        }
    }
}

/// The names that a package needs are different from each other.
proof fn lemma_needs_distinct(graph: LockfileGraph, dep_path: Seq<char>)
    requires
        deps_wf(graph),
    ensures
        forall|i: int, j: int|
            0 <= i < j < needs(graph, dep_path).len() ==> (#[trigger] needs(graph, dep_path)[i]).0 != (
            #[trigger] needs(graph, dep_path)[j]).0,
{
    if graph.packages@.contains_key(dep_path) && !graph.packages@[dep_path].is_link() {
        let deps = graph.packages@[dep_path].dependencies;
        lemma_known_deps_distinct(graph, deps, deps.keys().len() as int);
    }
}

/// A step keeps the requests orderly.
proof fn lemma_orderly_kept(ctx: PlanContext, s: Progress)
    requires
        progress_wf(s),
        orderly(s),
        deps_wf(ctx.graph),
        ctx.limits is Dependencies,
        ctx.preferred == Map::<Seq<char>, Seq<char>>::empty(),
        step(ctx, s) is Next,
    ensures
        orderly(step(ctx, s)->Next_0),
{
    let t = step(ctx, s)->Next_0;
    let r = s.queue[0];
    let rest = s.queue.drop_first();
    let node = s.plan.nodes.len() as int;
    let more = child_requests(ctx, r, node);
    if s.plan.reuses(r.requester, r.name, r.dep_path) {
        assert(t.queue =~= rest);
        assert forall|i: int| 0 <= i < t.queue.len() implies #[trigger] t.queue[i] == s.queue[i + 1] by {}
    } else {
        lemma_needs_distinct(ctx.graph, r.dep_path);
        let site = s.plan.site(r.requester, r.floor, r.name);
        assert(site == r.requester);
        assert forall|i: int| 0 <= i < t.queue.len() implies (#[trigger] t.queue[i]) == (if i < rest.len() {
            s.queue[i + 1]
        } else {
            more[i - rest.len()]
        }) by {}
        assert forall|i: int| 0 <= i < t.queue.len() implies !t.plan.nodes[(
        #[trigger] t.queue[i]).requester].children.contains_key(t.queue[i].name) by {
            if i < rest.len() {
                assert(s.queue[0].requester == s.queue[i + 1].requester ==> s.queue[0].name != s.queue[i + 1].name);
            } else {
                assert(t.queue[i].requester == node);
            }
        }
        assert forall|i: int, j: int| 0 <= i < j < t.queue.len() implies {
            &&& (#[trigger] t.queue[i]).requester <= (#[trigger] t.queue[j]).requester || t.queue[j].requester == 0
            &&& t.queue[i].requester == t.queue[j].requester ==> t.queue[i].name != t.queue[j].name
        } by {
            if j < rest.len() {
                assert(s.queue[i + 1].requester <= s.queue[j + 1].requester || s.queue[j + 1].requester == 0);
            } else {
                assert(t.queue[j].requester == node);
                if i < rest.len() {
                    assert(s.queue[i + 1].requester < node);
                } else {
                    let names = needs(ctx.graph, r.dep_path);
                    assert(t.queue[i].name == names[i - rest.len()].0);
                    assert(t.queue[j].name == names[j - rest.len()].0);
                }
            }
        }
    }
}

/// A request was met for good, or still waits.
pub open spec fn settled_for_good(s: Progress, requester: int, name: Seq<char>, dep_path: Seq<char>) -> bool {
    finds_for_good(s, requester, name, dep_path) || waits(s, requester, name, dep_path)
}

proof fn lemma_settled_for_good_kept(
    ctx: PlanContext,
    s: Progress,
    requester: int,
    name: Seq<char>,
    dep_path: Seq<char>,
)
    requires
        progress_wf(s),
        orderly(s),
        ctx.limits is Dependencies,
        ctx.preferred == Map::<Seq<char>, Seq<char>>::empty(),
        step(ctx, s) is Next,
        0 <= requester < s.plan.nodes.len(),
        settled_for_good(s, requester, name, dep_path),
    ensures
        settled_for_good(step(ctx, s)->Next_0, requester, name, dep_path),
{
    let t = step(ctx, s)->Next_0;
    if finds_for_good(s, requester, name, dep_path) {
        lemma_for_good_kept(ctx, s, requester, name, dep_path);
    } else {
        let i = choose|i: int|
            0 <= i < s.queue.len() && (#[trigger] s.queue[i]).requester == requester && s.queue[i].name == name
                && s.queue[i].dep_path == dep_path;
        if i > 0 {
            assert(t.queue[i - 1] == s.queue[i]);
        } else {
            lemma_met_for_good(ctx, s);
        }
    }
}

/// Every need of every node from `first` on was met for good or waits.
pub open spec fn needs_met_for_good(ctx: PlanContext, s: Progress, first: int) -> bool {
    forall|i: int, j: int|
        #![trigger s.plan.nodes[i], needs(ctx.graph, s.plan.nodes[i].dep_path->0)[j]]
        first <= i < s.plan.nodes.len() && s.plan.nodes[i].dep_path is Some && 0 <= j < needs(
            ctx.graph,
            s.plan.nodes[i].dep_path->0,
        ).len() ==> settled_for_good(
            s,
            i,
            needs(ctx.graph, s.plan.nodes[i].dep_path->0)[j].0,
            needs(ctx.graph, s.plan.nodes[i].dep_path->0)[j].1,
        )
}

proof fn lemma_needs_for_good_kept(ctx: PlanContext, s: Progress, first: int)
    requires
        progress_wf(s),
        orderly(s),
        ctx.limits is Dependencies,
        ctx.preferred == Map::<Seq<char>, Seq<char>>::empty(),
        step(ctx, s) is Next,
        0 <= first <= s.plan.nodes.len(),
        needs_met_for_good(ctx, s, first),
    ensures
        needs_met_for_good(ctx, step(ctx, s)->Next_0, first),
{
    let t = step(ctx, s)->Next_0;
    let r = s.queue[0];
    let rest = s.queue.drop_first();
    law_placing_keeps_nodes(s.plan, r.requester, r.floor, r.name, r.dep_path);
    assert forall|i: int, j: int|
        #![trigger t.plan.nodes[i], needs(ctx.graph, t.plan.nodes[i].dep_path->0)[j]]
        first <= i < t.plan.nodes.len() && t.plan.nodes[i].dep_path is Some && 0 <= j < needs(
            ctx.graph,
            t.plan.nodes[i].dep_path->0,
        ).len() implies settled_for_good(
        t,
        i,
        needs(ctx.graph, t.plan.nodes[i].dep_path->0)[j].0,
        needs(ctx.graph, t.plan.nodes[i].dep_path->0)[j].1,
    ) by {
        let d = needs(ctx.graph, t.plan.nodes[i].dep_path->0)[j];
        if i < s.plan.nodes.len() {
            assert(s.plan.nodes[i].dep_path == t.plan.nodes[i].dep_path);
            assert(settled_for_good(s, i, d.0, d.1));
            lemma_settled_for_good_kept(ctx, s, i, d.0, d.1);
        } else {
            assert(t.plan.nodes[i].dep_path == Some(r.dep_path));
            let more = child_requests(ctx, r, i);
            assert(t.queue =~= rest + more);
            assert(more[j].requester == i && more[j].name == d.0 && more[j].dep_path == d.1);
            assert(t.queue[rest.len() + j] == more[j]);
        }
    }
}

proof fn lemma_for_good_after(ctx: PlanContext, start: Progress, n: nat)
    requires
        progress_wf(start),
        orderly(start),
        deps_wf(ctx.graph),
        ctx.limits is Dependencies,
        ctx.preferred == Map::<Seq<char>, Seq<char>>::empty(),
    ensures
        progress_wf(after(ctx, start, n)),
        orderly(after(ctx, start, n)),
        start.plan.nodes.len() <= after(ctx, start, n).plan.nodes.len(),
        needs_met_for_good(ctx, after(ctx, start, n), start.plan.nodes.len() as int),
        forall|i: int|
            0 <= i < start.queue.len() ==> settled_for_good(
                after(ctx, start, n),
                (#[trigger] start.queue[i]).requester,
                start.queue[i].name,
                start.queue[i].dep_path,
            ),
    decreases n,
{
    if n == 0 {
        assert forall|i: int| 0 <= i < start.queue.len() implies waits(
            start,
            (#[trigger] start.queue[i]).requester,
            start.queue[i].name,
            start.queue[i].dep_path,
        ) by {}
    } else {
        let s = after(ctx, start, (n - 1) as nat);
        lemma_for_good_after(ctx, start, (n - 1) as nat);
        if step(ctx, s) is Next {
            lemma_step_wf(ctx, s);
            lemma_orderly_kept(ctx, s);
            lemma_needs_for_good_kept(ctx, s, start.plan.nodes.len() as int);
            assert forall|i: int| 0 <= i < start.queue.len() implies settled_for_good(
                after(ctx, start, n),
                (#[trigger] start.queue[i]).requester,
                start.queue[i].name,
                start.queue[i].dep_path,
            ) by {
                let r = start.queue[i];
                lemma_settled_for_good_kept(ctx, s, r.requester, r.name, r.dep_path);
            }
        }
    }
}

/// Where nothing is placed above the package that needs it, everyone who asked
/// at the start finds, in the finished plan, what was asked for, whatever
/// versions there are.
pub proof fn law_unhoisted_requests_are_found(ctx: PlanContext, start: Progress, plan: PlanView, i: int)
    requires
        progress_wf(start),
        orderly(start),
        deps_wf(ctx.graph),
        ctx.limits is Dependencies,
        ctx.preferred == Map::<Seq<char>, Seq<char>>::empty(),
        plans(ctx, start, plan),
        0 <= i < start.queue.len(),
    ensures
        finds(plan, start.queue[i].requester, start.queue[i].name, start.queue[i].dep_path),
{
    let n = choose|n: nat| #[trigger] after(ctx, start, n).plan == plan && step(ctx, after(ctx, start, n)) is Done;
    lemma_for_good_after(ctx, start, n);
    let r = start.queue[i];
    assert(settled_for_good(after(ctx, start, n), r.requester, r.name, r.dep_path));
}

/// Where nothing is placed above the package that needs it, every placed
/// package finds, in the finished plan, what it needs, whatever versions there
/// are.
pub proof fn law_unhoisted_needs_are_found(ctx: PlanContext, start: Progress, plan: PlanView, node: int, j: int)
    requires
        progress_wf(start),
        orderly(start),
        deps_wf(ctx.graph),
        ctx.limits is Dependencies,
        ctx.preferred == Map::<Seq<char>, Seq<char>>::empty(),
        plans(ctx, start, plan),
        start.plan.nodes.len() <= node < plan.nodes.len(),
        plan.nodes[node].dep_path is Some,
        0 <= j < needs(ctx.graph, plan.nodes[node].dep_path->0).len(),
    ensures
        ({
            let need = needs(ctx.graph, plan.nodes[node].dep_path->0)[j];
            finds(plan, node, need.0, need.1)
        }),
{
    let n = choose|n: nat| #[trigger] after(ctx, start, n).plan == plan && step(ctx, after(ctx, start, n)) is Done;
    lemma_for_good_after(ctx, start, n);
    let s = after(ctx, start, n);
    let need = needs(ctx.graph, plan.nodes[node].dep_path->0)[j];
    assert(s.plan.nodes[node].dep_path is Some);
    assert(settled_for_good(s, node, need.0, need.1));
}

/// No name is listed twice.
pub open spec fn names_once(deps: Seq<DirectDep>) -> bool {
    forall|a: int, b: int| 0 <= a < b < deps.len() ==> (#[trigger] deps[a]).name@ != (#[trigger] deps[b]).name@
}

/// The requests of an importer for which nothing goes higher come by different
/// names.
proof fn lemma_seeds_orderly(deps: Seq<DirectDep>, graph: LockfileGraph, importer: int)
    requires
        names_once(deps),
    ensures
        forall|i: int|
            0 <= i < seeds(deps, graph, importer, importer).len() ==> {
                &&& (#[trigger] seeds(deps, graph, importer, importer)[i]).floor == importer
                &&& exists|a: int|
                    0 <= a < deps.len() && #[trigger] deps[a].name@ == seeds(deps, graph, importer, importer)[i].name
            },
        forall|i: int, j: int|
            0 <= i < j < seeds(deps, graph, importer, importer).len() ==> (#[trigger] seeds(
                deps,
                graph,
                importer,
                importer,
            )[i]).name != (#[trigger] seeds(deps, graph, importer, importer)[j]).name,
    decreases deps.len(),
{
    if deps.len() > 0 {
        let short = deps.drop_last();
        assert(names_once(short));
        lemma_seeds_orderly(short, graph, importer);
        let rest = seeds(short, graph, importer, importer);
        let all = seeds(deps, graph, importer, importer);
        assert forall|i: int| 0 <= i < all.len() implies {
            &&& (#[trigger] all[i]).floor == importer
            &&& exists|a: int| 0 <= a < deps.len() && #[trigger] deps[a].name@ == all[i].name
        } by {
            if i < rest.len() {
                assert(all[i] == rest[i]);
                let a = choose|a: int| 0 <= a < short.len() && #[trigger] short[a].name@ == rest[i].name;
                assert(deps[a].name@ == all[i].name);
            } else {
                assert(deps[deps.len() - 1].name@ == all[i].name);
            }
        }
        assert forall|i: int, j: int| 0 <= i < j < all.len() implies (#[trigger] all[i]).name != (
        #[trigger] all[j]).name by {
            assert(all[i] == rest[i]);
            if j < rest.len() {
                assert(all[j] == rest[j]);
            } else {
                let a = choose|a: int| 0 <= a < short.len() && #[trigger] short[a].name@ == rest[i].name;
                assert(deps[a].name@ != deps[deps.len() - 1].name@);
            }
        }
    }
}

/// Planning for an importer that lists no name twice starts orderly.
pub proof fn law_importer_starts_orderly(nm: Seq<Seq<char>>, deps: Seq<DirectDep>, graph: LockfileGraph)
    requires
        names_once(deps),
    ensures
        progress_wf(importer_start(nm, deps, graph)),
        orderly(importer_start(nm, deps, graph)),
{
    lemma_seeds_orderly(deps, graph, 0);
    lemma_seeds_requester(deps, graph, 0, 0);
    let s = importer_start(nm, deps, graph);
    assert(s.plan.node_wf(0));
    assert forall|i: int| 0 <= i < s.plan.nodes.len() implies #[trigger] s.plan.node_wf(i) by {
        assert(i == 0);
    }
}

/// The importers list no name twice, and only one is the root.
pub open spec fn importers_once(root_nm: Seq<Seq<char>>, importers: Seq<ImporterView>) -> bool {
    &&& forall|i: int| 0 <= i < importers.len() ==> names_once((#[trigger] importers[i]).dependencies)
    &&& forall|i: int, j: int|
        0 <= i < j < importers.len() ==> !((#[trigger] importers[i]).modules_dir == root_nm && (
        #[trigger] importers[j]).modules_dir == root_nm)
}

/// One of the importers is the root.
pub open spec fn has_root(root_nm: Seq<Seq<char>>, importers: Seq<ImporterView>) -> bool {
    exists|k: int| 0 <= k < importers.len() && (#[trigger] importers[k]).modules_dir == root_nm
}

/// Only an importer that is the root asks in the root's name.
spec fn root_asks_only_for_root(
    root_nm: Seq<Seq<char>>,
    importers: Seq<ImporterView>,
    graph: LockfileGraph,
) -> bool {
    let queue = workspace_start(root_nm, importers, graph, HoistingLimits::Dependencies).queue;
    forall|i: int| 0 <= i < queue.len() && (#[trigger] queue[i]).requester == 0 ==> has_root(root_nm, importers)
}

proof fn lemma_workspace_starts_orderly(
    root_nm: Seq<Seq<char>>,
    importers: Seq<ImporterView>,
    graph: LockfileGraph,
)
    requires
        importers_once(root_nm, importers),
    ensures
        progress_wf(workspace_start(root_nm, importers, graph, HoistingLimits::Dependencies)),
        orderly(workspace_start(root_nm, importers, graph, HoistingLimits::Dependencies)),
        root_asks_only_for_root(root_nm, importers, graph),
    decreases importers.len(),
{
    let limits = HoistingLimits::Dependencies;
    let s = workspace_start(root_nm, importers, graph, limits);
    lemma_workspace_start_wf(root_nm, importers, graph, limits);
    if importers.len() > 0 {
        let short = importers.drop_last();
        assert forall|i: int| 0 <= i < short.len() implies names_once((#[trigger] short[i]).dependencies) by {
            assert(short[i] == importers[i]);
        }
        assert(importers_once(root_nm, short));
        lemma_workspace_starts_orderly(root_nm, short, graph);
        let prior = workspace_start(root_nm, short, graph, limits);
        let importer = importers.last();
        assert(importers[importers.len() - 1] == importer);
        let is_root = importer.modules_dir == root_nm;
        let idx = if is_root {
            0
        } else {
            prior.plan.nodes.len() as int
        };
        let added = seeds(importer.dependencies, graph, idx, idx);
        lemma_seeds_orderly(importer.dependencies, graph, idx);
        lemma_seeds_requester(importer.dependencies, graph, idx, idx);
        assert(s.queue =~= prior.queue + added);
        if is_root {
            assert forall|i: int| 0 <= i < short.len() implies (#[trigger] short[i]).modules_dir != root_nm by {
                assert(short[i] == importers[i]);
            }
        }
        assert forall|i: int, j: int| 0 <= i < j < s.queue.len() implies {
            &&& (#[trigger] s.queue[i]).requester <= (#[trigger] s.queue[j]).requester || s.queue[j].requester == 0
            &&& s.queue[i].requester == s.queue[j].requester ==> s.queue[i].name != s.queue[j].name
        } by {
            if j < prior.queue.len() {
                assert(s.queue[i] == prior.queue[i] && s.queue[j] == prior.queue[j]);
            } else {
                assert(s.queue[j] == added[j - prior.queue.len()]);
                if i < prior.queue.len() {
                    assert(s.queue[i] == prior.queue[i]);
                    assert(prior.queue[i].requester < prior.plan.nodes.len());
                } else {
                    assert(s.queue[i] == added[i - prior.queue.len()]);
                }
            }
        }
        assert forall|i: int| 0 <= i < s.queue.len() implies (#[trigger] s.queue[i]).floor == s.queue[i].requester by {
            if i < prior.queue.len() {
                assert(s.queue[i] == prior.queue[i]);
            } else {
                assert(s.queue[i] == added[i - prior.queue.len()]);
            }
        }
        assert forall|i: int| 0 <= i < s.queue.len() && (#[trigger] s.queue[i]).requester == 0 implies has_root(
            root_nm,
            importers,
        ) by {
            if i < prior.queue.len() {
                assert(s.queue[i] == prior.queue[i]);
                let k = choose|k: int| 0 <= k < short.len() && (#[trigger] short[k]).modules_dir == root_nm;
                assert(importers[k].modules_dir == root_nm);
            } else {
                assert(s.queue[i] == added[i - prior.queue.len()]);
                assert(prior.plan.nodes.len() > 0);
                assert(importers[importers.len() - 1].modules_dir == root_nm);
            }
        }
    }
}

/// Planning for a workspace whose importers list no name twice starts orderly,
/// where nothing is placed above the package that needs it.
pub proof fn law_workspace_starts_orderly(
    root_nm: Seq<Seq<char>>,
    importers: Seq<ImporterView>,
    graph: LockfileGraph,
)
    requires
        importers_once(root_nm, importers),
    ensures
        progress_wf(workspace_start(root_nm, importers, graph, HoistingLimits::Dependencies)),
        orderly(workspace_start(root_nm, importers, graph, HoistingLimits::Dependencies)),
{
    lemma_workspace_starts_orderly(root_nm, importers, graph);
}

/// In a workspace where nothing is placed above the package that needs it, every
/// importer finds its direct dependencies.
pub proof fn law_unhoisted_importers_find_their_dependencies(
    root_nm: Seq<Seq<char>>,
    importers: Seq<ImporterView>,
    graph: LockfileGraph,
    refused: Set<Seq<char>>,
    plan: PlanView,
    i: int,
    d: int,
)
    requires
        importers_once(root_nm, importers),
        deps_wf(graph),
        plans(
            workspace_context(root_nm, importers, graph, HoistingLimits::Dependencies, refused),
            workspace_start(root_nm, importers, graph, HoistingLimits::Dependencies),
            plan,
        ),
        0 <= i < importers.len(),
        0 <= d < importers[i].dependencies.len(),
        graph.packages@.contains_key(importers[i].dependencies[d].dep_path@),
    ensures
        finds(
            plan,
            importer_node(root_nm, importers, graph, HoistingLimits::Dependencies, i),
            importers[i].dependencies[d].name@,
            importers[i].dependencies[d].dep_path@,
        ),
{
    let limits = HoistingLimits::Dependencies;
    let k = lemma_importer_seed(root_nm, importers, graph, limits, i, d);
    law_workspace_starts_orderly(root_nm, importers, graph);
    law_unhoisted_requests_are_found(
        workspace_context(root_nm, importers, graph, limits, refused),
        workspace_start(root_nm, importers, graph, limits),
        plan,
        k,
    );
}

/// The root holds nothing, and no request may be met as high as the root.
pub open spec fn below_root(s: Progress) -> bool {
    &&& s.plan.nodes[0].children == Map::<Seq<char>, int>::empty()
    &&& forall|i: int|
        0 <= i < s.queue.len() ==> (#[trigger] s.queue[i]).floor > 0 && s.plan.reaches(
            s.queue[i].floor,
            s.queue[i].requester,
        )
}

/// A step leaves the root empty where every floor is below it.
proof fn lemma_below_root_kept(ctx: PlanContext, s: Progress)
    requires
        progress_wf(s),
        below_root(s),
        !(ctx.limits is Unlimited),
        step(ctx, s) is Next,
    ensures
        below_root(step(ctx, s)->Next_0),
{
    let t = step(ctx, s)->Next_0;
    let r = s.queue[0];
    let rest = s.queue.drop_first();
    if s.plan.reuses(r.requester, r.name, r.dep_path) {
        assert(t.queue =~= rest);
        assert forall|i: int| 0 <= i < t.queue.len() implies (#[trigger] t.queue[i]).floor > 0 && t.plan.reaches(
            t.queue[i].floor,
            t.queue[i].requester,
        ) by {
            assert(t.queue[i] == s.queue[i + 1]);
        }
    } else {
        let site = s.plan.site(r.requester, r.floor, r.name);
        let node = s.plan.nodes.len() as int;
        let more = child_requests(ctx, r, node);
        law_floor_is_kept(s.plan, r.requester, r.floor, r.name);
        law_site_is_visible(s.plan, r.requester, r.floor, r.name);
        lemma_reaches_bound(s.plan, r.floor, site);
        assert(t.plan.nodes[0] == s.plan.nodes[0]);
        assert forall|i: int| 0 <= i < t.queue.len() implies (#[trigger] t.queue[i]).floor > 0 && t.plan.reaches(
            t.queue[i].floor,
            t.queue[i].requester,
        ) by {
            if i < rest.len() {
                assert(t.queue[i] == s.queue[i + 1]);
                lemma_reaches_kept(
                    s.plan,
                    site,
                    r.name,
                    r.dep_path,
                    t.queue[i].floor,
                    t.queue[i].requester,
                );
            } else {
                assert(t.queue[i] == more[i - rest.len()]);
                lemma_reaches_kept(s.plan, site, r.name, r.dep_path, r.floor, site);
                assert(t.plan.nodes[node].parent == Some(site));
                assert(t.plan.reaches(r.floor, node));
                assert(t.plan.reaches(node, node));
            }
        }
    }
}

proof fn lemma_below_root_after(ctx: PlanContext, start: Progress, n: nat)
    requires
        progress_wf(start),
        below_root(start),
        !(ctx.limits is Unlimited),
    ensures
        progress_wf(after(ctx, start, n)),
        below_root(after(ctx, start, n)),
    decreases n,
{
    if n > 0 {
        let s = after(ctx, start, (n - 1) as nat);
        lemma_below_root_after(ctx, start, (n - 1) as nat);
        if step(ctx, s) is Next {
            lemma_step_wf(ctx, s);
            lemma_below_root_kept(ctx, s);
        }
    }
}

proof fn lemma_workspace_starts_below_root(
    root_nm: Seq<Seq<char>>,
    importers: Seq<ImporterView>,
    graph: LockfileGraph,
    limits: HoistingLimits,
)
    requires
        !(limits is Unlimited),
        !has_root(root_nm, importers),
    ensures
        below_root(workspace_start(root_nm, importers, graph, limits)),
    decreases importers.len(),
{
    let s = workspace_start(root_nm, importers, graph, limits);
    lemma_workspace_start_wf(root_nm, importers, graph, limits);
    if importers.len() > 0 {
        let short = importers.drop_last();
        let prior = workspace_start(root_nm, short, graph, limits);
        assert(!has_root(root_nm, short)) by {
            if has_root(root_nm, short) {
                let k = choose|k: int| 0 <= k < short.len() && (#[trigger] short[k]).modules_dir == root_nm;
                assert(importers[k].modules_dir == root_nm);
            }
        }
        lemma_workspace_starts_below_root(root_nm, short, graph, limits);
        lemma_workspace_start_wf(root_nm, short, graph, limits);
        let importer = importers.last();
        assert(importers[importers.len() - 1] == importer);
        assert(importer.modules_dir != root_nm);
        let idx = prior.plan.nodes.len() as int;
        let added = seeds(importer.dependencies, graph, idx, idx);
        lemma_seed_floors(importer.dependencies, graph, idx);
        lemma_seeds_requester(importer.dependencies, graph, idx, idx);
        assert(s.queue =~= prior.queue + added);
        assert forall|i: int| 0 <= i < s.queue.len() implies (#[trigger] s.queue[i]).floor > 0 && s.plan.reaches(
            s.queue[i].floor,
            s.queue[i].requester,
        ) by {
            if i < prior.queue.len() {
                assert(s.queue[i] == prior.queue[i]);
                lemma_reaches_with_importer(prior.plan, s.plan, s.queue[i].floor, s.queue[i].requester);
            } else {
                assert(s.queue[i] == added[i - prior.queue.len()]);
                assert(s.plan.reaches(idx, idx));
            }
        }
    }
}

/// The requests of an importer for which nothing goes higher have its own floor.
proof fn lemma_seed_floors(deps: Seq<DirectDep>, graph: LockfileGraph, importer: int)
    ensures
        forall|i: int|
            0 <= i < seeds(deps, graph, importer, importer).len() ==> (#[trigger] seeds(
                deps,
                graph,
                importer,
                importer,
            )[i]).floor == importer,
    decreases deps.len(),
{
    if deps.len() > 0 {
        lemma_seed_floors(deps.drop_last(), graph, importer);
        let all = seeds(deps, graph, importer, importer);
        let rest = seeds(deps.drop_last(), graph, importer, importer);
        assert forall|i: int| 0 <= i < all.len() implies (#[trigger] all[i]).floor == importer by {
            if i < rest.len() {
                assert(all[i] == rest[i]);
            }
        }
    }
}

/// One more node at the end leaves the others where they are.
proof fn lemma_reaches_with_importer(a: PlanView, b: PlanView, ancestor: int, node: int)
    requires
        a.wf(),
        0 <= node < a.nodes.len(),
        a.nodes.len() <= b.nodes.len(),
        forall|i: int| 0 <= i < a.nodes.len() ==> #[trigger] a.nodes[i] == b.nodes[i],
        a.reaches(ancestor, node),
    ensures
        b.reaches(ancestor, node),
    decreases node,
{
    assert(a.node_wf(node));
    assert(a.nodes[node] == b.nodes[node]);
    if ancestor != node {
        lemma_reaches_with_importer(a, b, ancestor, a.nodes[node].parent->0);
    }
}

/// In a workspace whose root is no importer, and where nothing is placed above
/// the importer that needs it, nothing is placed in the root.
pub proof fn law_root_stays_empty(
    root_nm: Seq<Seq<char>>,
    importers: Seq<ImporterView>,
    graph: LockfileGraph,
    limits: HoistingLimits,
    refused: Set<Seq<char>>,
    plan: PlanView,
)
    requires
        limits is Workspaces || limits is Dependencies,
        !has_root(root_nm, importers),
        plans(
            workspace_context(root_nm, importers, graph, limits, refused),
            workspace_start(root_nm, importers, graph, limits),
            plan,
        ),
    ensures
        plan.nodes[0].children == Map::<Seq<char>, int>::empty(),
{
    let ctx = workspace_context(root_nm, importers, graph, limits, refused);
    let start = workspace_start(root_nm, importers, graph, limits);
    lemma_workspace_start_wf(root_nm, importers, graph, limits);
    lemma_workspace_starts_below_root(root_nm, importers, graph, limits);
    let n = choose|n: nat| #[trigger] after(ctx, start, n).plan == plan && step(ctx, after(ctx, start, n)) is Done;
    lemma_below_root_after(ctx, start, n);
}

} // verus!
