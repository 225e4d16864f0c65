//! What becomes of names that no package may be placed under.
use crate::hoisted::plan::{law_site_is_visible, PlanView};
use crate::hoisted::planner::{after, lemma_step_wf, plans, progress_wf, step, stops_at, PlanContext, Progress, Step};
use vstd::prelude::*;

verus! {

/// No node of the plan holds a package under the name.
pub open spec fn holds_nowhere(plan: PlanView, name: Seq<char>) -> bool {
    forall|i: int| 0 <= i < plan.nodes.len() ==> !(#[trigger] plan.nodes[i]).children.contains_key(name)
}

proof fn lemma_refused_after(ctx: PlanContext, start: Progress, n: nat, name: Seq<char>)
    requires
        progress_wf(start),
        ctx.refused.contains(name),
        holds_nowhere(start.plan, name),
    ensures
        progress_wf(after(ctx, start, n)),
        holds_nowhere(after(ctx, start, n).plan, name),
    decreases n,
{
    if n > 0 {
        let s = after(ctx, start, (n - 1) as nat);
        lemma_refused_after(ctx, start, (n - 1) as nat, name);
        if step(ctx, s) is Next {
            let q = s.queue[0];
            let t = after(ctx, start, n);
            lemma_step_wf(ctx, s);
            law_site_is_visible(s.plan, q.requester, q.floor, q.name);
            assert forall|i: int| 0 <= i < t.plan.nodes.len() implies !(
            #[trigger] t.plan.nodes[i]).children.contains_key(name) by {
                if i < s.plan.nodes.len() {
                    assert(!s.plan.nodes[i].children.contains_key(name));
                }
            }
        }
    }
}

/// Nothing is placed under a name that is refused.
pub proof fn law_refused_names_are_not_placed(
    ctx: PlanContext,
    start: Progress,
    plan: PlanView,
    name: Seq<char>,
    i: int,
)
    requires
        progress_wf(start),
        plans(ctx, start, plan),
        ctx.refused.contains(name),
        forall|k: int| 0 <= k < start.plan.nodes.len() ==> !(#[trigger] start.plan.nodes[k]).children.contains_key(name),
        0 <= i < plan.nodes.len(),
    ensures
        !plan.nodes[i].children.contains_key(name),
{
    let n = choose|n: nat| #[trigger] after(ctx, start, n).plan == plan && step(ctx, after(ctx, start, n)) is Done;
    lemma_refused_after(ctx, start, n, name);
}

/// Planning stops at a name only where it is refused and was asked for.
pub proof fn law_planning_stops_at_refused_names(ctx: PlanContext, start: Progress, name: Seq<char>)
    requires
        stops_at(ctx, start, name),
    ensures
        ctx.refused.contains(name),
        exists|n: nat| {
            let queue = #[trigger] after(ctx, start, n).queue;
            queue.len() > 0 && queue[0].name == name
        },
{
    let n = choose|n: nat| step(ctx, #[trigger] after(ctx, start, n)) == Step::Refused(name);
    assert(after(ctx, start, n).queue.len() > 0);
}

} // verus!
