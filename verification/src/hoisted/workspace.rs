//! Planning the tree of a whole workspace.
use crate::fs_path::{dot_part, normalized, path_joined, FsPath};
use crate::graph::{DirectDep, Importer, LockfileGraph};
use crate::hoisted::plan::{HoistingLimits, PlacementPlan, PlanError, PlanView};
use crate::hoisted::planner::{
    complete_plan, importer_start, importer_views, plan_importer, plans, progress_wf, seeds, start_workspace,
    stops_at, workspace_start, HoistedWorkspaceImporter, ImporterView, PlanContext,
};
use crate::hoisted::preferences::{build_workspace_preferences, workspace_preferences};
use crate::str_map::{text_map, StrMap, StrSet};
use crate::text::same_text;
use vstd::prelude::*;

verus! {

/// What planning a workspace goes by. Versions compete for the root's slot
/// only where packages may go up to the root.
pub open spec fn workspace_context(
    root_nm: Seq<Seq<char>>,
    importers: Seq<ImporterView>,
    graph: LockfileGraph,
    limits: HoistingLimits,
    refused: Set<Seq<char>>,
) -> PlanContext {
    PlanContext {
        graph,
        limits,
        preferred: if limits is Unlimited {
            workspace_preferences(root_nm, importers, graph)
        } else {
            Map::empty()
        },
        refused,
    }
}

/// Plan one tree for all importers of a workspace.
pub fn plan_workspace(
    root_nm: &FsPath,
    importers: &Vec<HoistedWorkspaceImporter>,
    graph: &LockfileGraph,
    limits: HoistingLimits,
    refused: &StrSet,
) -> (r: Result<PlacementPlan, PlanError>)
    ensures
        ({
            let views = importer_views(importers@);
            let ctx = workspace_context(root_nm@, views, *graph, limits, refused@);
            let start = workspace_start(root_nm@, views, *graph, limits);
            match r {
                Ok(plan) => plan@.wf() && plans(ctx, start, plan@),
                Err(PlanError::RefusedName(name)) => stops_at(ctx, start, name@),
            }
        }),
{
    let (mut plan, queue) = start_workspace(root_nm, importers, graph, limits);
    let preferred = match limits {
        HoistingLimits::Unlimited => build_workspace_preferences(root_nm, importers, graph),
        _ => StrMap::new(),
    };
    proof {
        if !(limits is Unlimited) {
            assert(text_map(preferred) =~= Map::<Seq<char>, Seq<char>>::empty());
        }
    }
    match complete_plan(&mut plan, queue, graph, limits, &preferred, refused) {
        Ok(_) => Ok(plan),
        Err(e) => Err(e),
    }
}

/// Planning a workspace starts from a valid tree and valid requests.
pub proof fn lemma_workspace_start_wf(
    root_nm: Seq<Seq<char>>,
    importers: Seq<ImporterView>,
    graph: LockfileGraph,
    limits: HoistingLimits,
)
    ensures
        progress_wf(workspace_start(root_nm, importers, graph, limits)),
        forall|i: int|
            0 <= i < workspace_start(root_nm, importers, graph, limits).plan.nodes.len() ==> (
            #[trigger] workspace_start(root_nm, importers, graph, limits).plan.nodes[i]).children == Map::<
                Seq<char>,
                int,
            >::empty(),
    decreases importers.len(),
{
    let s = workspace_start(root_nm, importers, graph, limits);
    if importers.len() == 0 {
        assert forall|i: int| 0 <= i < s.plan.nodes.len() implies #[trigger] s.plan.node_wf(i) by {}
    } else {
        let prior = workspace_start(root_nm, importers.drop_last(), graph, limits);
        lemma_workspace_start_wf(root_nm, importers.drop_last(), graph, limits);
        assert forall|i: int| 0 <= i < s.plan.nodes.len() implies #[trigger] s.plan.node_wf(i) by {
            if i < prior.plan.nodes.len() {
                assert(prior.plan.node_wf(i));
                assert(s.plan.nodes[i] == prior.plan.nodes[i]);
            }
        }
        let importer = importers.last();
        let idx = if importer.modules_dir == root_nm {
            0
        } else {
            prior.plan.nodes.len() as int
        };
        let floor = if limits is Unlimited && crate::hoisted::planner::root_reachable(
            root_nm,
            importer.modules_dir,
        ) {
            0
        } else {
            idx
        };
        let added = seeds(importer.dependencies, graph, idx, floor);
        crate::hoisted::planner::lemma_seeds_requester(importer.dependencies, graph, idx, floor);
        assert forall|k: int| 0 <= k < s.queue.len() implies 0 <= (#[trigger] s.queue[k]).requester
            < s.plan.nodes.len() by {
            if k < prior.queue.len() {
                assert(s.queue[k] == prior.queue[k]);
            } else {
                assert(s.queue[k] == added[k - prior.queue.len()]);
            }
        }
    }
}

/// The direct dependency is asked for by its importer when planning starts.
pub proof fn lemma_seed_of(deps: Seq<DirectDep>, graph: LockfileGraph, importer: int, floor: int, d: int) -> (k: int)
    requires
        0 <= d < deps.len(),
        graph.packages@.contains_key(deps[d].dep_path@),
    ensures
        0 <= k < seeds(deps, graph, importer, floor).len(),
        seeds(deps, graph, importer, floor)[k].requester == importer,
        seeds(deps, graph, importer, floor)[k].name == deps[d].name@,
        seeds(deps, graph, importer, floor)[k].dep_path == deps[d].dep_path@,
    decreases deps.len(),
{
    if d == deps.len() - 1 {
        seeds(deps.drop_last(), graph, importer, floor).len() as int
    } else {
        lemma_seed_of(deps.drop_last(), graph, importer, floor, d)
    }
}

/// The node of importer number `i`.
pub open spec fn importer_node(
    root_nm: Seq<Seq<char>>,
    importers: Seq<ImporterView>,
    graph: LockfileGraph,
    limits: HoistingLimits,
    i: int,
) -> int {
    if importers[i].modules_dir == root_nm {
        0
    } else {
        workspace_start(root_nm, importers.take(i), graph, limits).plan.nodes.len() as int
    }
}

/// The direct dependency of an importer is asked for by the importer's node when
/// planning starts.
pub proof fn lemma_importer_seed(
    root_nm: Seq<Seq<char>>,
    importers: Seq<ImporterView>,
    graph: LockfileGraph,
    limits: HoistingLimits,
    i: int,
    d: int,
) -> (k: int)
    requires
        0 <= i < importers.len(),
        0 <= d < importers[i].dependencies.len(),
        graph.packages@.contains_key(importers[i].dependencies[d].dep_path@),
    ensures
        ({
            let queue = workspace_start(root_nm, importers, graph, limits).queue;
            let dep = importers[i].dependencies[d];
            &&& 0 <= k < queue.len()
            &&& queue[k].requester == importer_node(root_nm, importers, graph, limits, i)
            &&& queue[k].name == dep.name@
            &&& queue[k].dep_path == dep.dep_path@
        }),
    decreases importers.len(),
{
    let prior = workspace_start(root_nm, importers.drop_last(), graph, limits);
    let s = workspace_start(root_nm, importers, graph, limits);
    if i == importers.len() - 1 {
        assert(importers.drop_last() =~= importers.take(i));
        let importer = importers.last();
        let idx = importer_node(root_nm, importers, graph, limits, i);
        let floor = if limits is Unlimited && crate::hoisted::planner::root_reachable(
            root_nm,
            importer.modules_dir,
        ) {
            0
        } else {
            idx
        };
        let k = lemma_seed_of(importer.dependencies, graph, idx, floor, d);
        assert(s.queue[prior.queue.len() + k] == seeds(importer.dependencies, graph, idx, floor)[k]);
        prior.queue.len() + k
    } else {
        assert(importers.drop_last().take(i) =~= importers.take(i));
        let k = lemma_importer_seed(root_nm, importers.drop_last(), graph, limits, i, d);
        assert(s.queue[k] == prior.queue[k]);
        k
    }
}

/// In the plan of a workspace every direct dependency that the graph has
/// is put into a directory that its importer looks through.
pub proof fn law_direct_dependencies_are_provided(
    root_nm: Seq<Seq<char>>,
    importers: Seq<ImporterView>,
    graph: LockfileGraph,
    limits: HoistingLimits,
    refused: Set<Seq<char>>,
    plan: PlanView,
    i: int,
    d: int,
)
    requires
        plans(
            workspace_context(root_nm, importers, graph, limits, refused),
            workspace_start(root_nm, importers, graph, limits),
            plan,
        ),
        0 <= i < importers.len(),
        0 <= d < importers[i].dependencies.len(),
        graph.packages@.contains_key(importers[i].dependencies[d].dep_path@),
    ensures
        plan.provides(
            importer_node(root_nm, importers, graph, limits, i),
            importers[i].dependencies[d].name@,
            importers[i].dependencies[d].dep_path@,
        ),
{
    let k = lemma_importer_seed(root_nm, importers, graph, limits, i, d);
    lemma_workspace_start_wf(root_nm, importers, graph, limits);
    crate::hoisted::planner::law_every_request_is_provided(
        workspace_context(root_nm, importers, graph, limits, refused),
        workspace_start(root_nm, importers, graph, limits),
        plan,
        k,
    );
}

/// The directory of an importer.
pub open spec fn importer_dir(root: Seq<Seq<char>>, path: Seq<char>) -> Seq<Seq<char>> {
    if path == dot_part() {
        root
    } else {
        normalized(path_joined(root, path))
    }
}

/// The importers with a directory of their own among the first `n` of the graph.
pub open spec fn physical_importers(
    root: Seq<Seq<char>>,
    importers: StrMap<Importer>,
    modules_dir_name: Seq<char>,
    n: int,
) -> Seq<ImporterView>
    decreases n,
{
    if n <= 0 {
        Seq::empty()
    } else {
        let rest = physical_importers(root, importers, modules_dir_name, n - 1);
        let importer = importers.values()[n - 1];
        if importer.physical {
            rest.push(
                ImporterView {
                    modules_dir: path_joined(importer_dir(root, importers.keys()[n - 1]), modules_dir_name),
                    dependencies: importer.dependencies@,
                },
            )
        } else {
            rest
        }
    }
}

/// A copy of a list of direct dependencies.
pub fn copy_deps(deps: &Vec<DirectDep>) -> (r: Vec<DirectDep>)
    ensures
        r@ == deps@,
{
    let mut out: Vec<DirectDep> = Vec::new();
    let mut i: usize = 0;
    while i < deps.len()
        invariant
            i <= deps@.len(),
            out@ == deps@.take(i as int),
        decreases deps.len() - i,
    {
        let dep = &deps[i];
        out.push(
            DirectDep {
                name: dep.name.clone(),
                dep_path: dep.dep_path.clone(),
                dep_type: dep.dep_type,
                specifier: match &dep.specifier {
                    Some(s) => Some(s.clone()),
                    None => None,
                },
            },
        );
        i += 1;
        proof {
            assert(deps@.take(i as int) =~= deps@.take(i - 1).push(deps@[i - 1]));
        }
    }
    proof {
        assert(deps@.take(i as int) =~= deps@);
    }
    out
}

/// The importers of the graph that have a directory of their own.
pub fn graph_importers(root_dir: &FsPath, graph: &LockfileGraph, modules_dir_name: &str) -> (r: Vec<
    HoistedWorkspaceImporter,
>)
    ensures
        importer_views(r@) == physical_importers(
            root_dir@,
            graph.importers,
            modules_dir_name@,
            graph.importers.keys().len() as int,
        ),
{
    let mut out: Vec<HoistedWorkspaceImporter> = Vec::new();
    let total = graph.importers.len();
    let mut i: usize = 0;
    proof {
        reveal_strlit(".");
        assert("."@ =~= dot_part());
        assert(importer_views(out@) =~= Seq::<ImporterView>::empty());
    }
    while i < total
        invariant
            i <= total,
            total == graph.importers.keys().len(),
            "."@ == dot_part(),
            importer_views(out@) == physical_importers(
                root_dir@,
                graph.importers,
                modules_dir_name@,
                i as int,
            ),
        decreases total - i,
    {
        let path = graph.importers.key_at(i);
        let importer = graph.importers.value_at(i);
        let ghost was = out@;
        if importer.physical {
            let dir = if same_text(path, ".") {
                root_dir.copy()
            } else {
                root_dir.join(path).normalize_lexical()
            };
            let added = HoistedWorkspaceImporter {
                modules_dir: dir.join(modules_dir_name),
                dependencies: copy_deps(&importer.dependencies),
            };
            let ghost v = added@;
            out.push(added);
            proof {
                assert(importer_views(out@) =~= importer_views(was).push(v));
            }
        }
        i += 1;
    }
    out
}

/// Plan the tree of every importer of the graph.
pub fn plan_graph(
    root_dir: &FsPath,
    graph: &LockfileGraph,
    modules_dir_name: &str,
    limits: HoistingLimits,
    refused: &StrSet,
) -> (r: Result<PlacementPlan, PlanError>)
    ensures
        ({
            let root_nm = path_joined(root_dir@, modules_dir_name@);
            let views = physical_importers(
                root_dir@,
                graph.importers,
                modules_dir_name@,
                graph.importers.keys().len() as int,
            );
            let ctx = workspace_context(root_nm, views, *graph, limits, refused@);
            let start = workspace_start(root_nm, views, *graph, limits);
            match r {
                Ok(plan) => plan@.wf() && plans(ctx, start, plan@),
                Err(PlanError::RefusedName(name)) => stops_at(ctx, start, name@),
            }
        }),
{
    let importers = graph_importers(root_dir, graph, modules_dir_name);
    let root_nm = root_dir.join(modules_dir_name);
    plan_workspace(&root_nm, &importers, graph, limits, refused)
}

/// Plan the tree that is linked for one importer: the one in its modules
/// directory.
pub fn link_hoisted_importer(
    importer_dir: &FsPath,
    modules_dir_name: &str,
    root_deps: &Vec<DirectDep>,
    graph: &LockfileGraph,
    limits: HoistingLimits,
    refused: &StrSet,
) -> (r: Result<PlacementPlan, PlanError>)
    ensures
        ({
            let ctx = PlanContext { graph: *graph, limits, preferred: Map::empty(), refused: refused@ };
            let start = importer_start(path_joined(importer_dir@, modules_dir_name@), root_deps@, *graph);
            match r {
                Ok(plan) => plan@.wf() && plans(ctx, start, plan@),
                Err(PlanError::RefusedName(name)) => stops_at(ctx, start, name@),
            }
        }),
{
    let nm = importer_dir.join(modules_dir_name);
    plan_importer(&nm, root_deps, graph, limits, refused)
}

/// Plan the tree that is linked for a workspace: the one in the modules
/// directory of its root.
pub fn link_hoisted_workspace(
    root_dir: &FsPath,
    modules_dir_name: &str,
    importers: &Vec<HoistedWorkspaceImporter>,
    graph: &LockfileGraph,
    limits: HoistingLimits,
    refused: &StrSet,
) -> (r: Result<PlacementPlan, PlanError>)
    ensures
        ({
            let root_nm = path_joined(root_dir@, modules_dir_name@);
            let views = importer_views(importers@);
            let ctx = workspace_context(root_nm, views, *graph, limits, refused@);
            let start = workspace_start(root_nm, views, *graph, limits);
            match r {
                Ok(plan) => plan@.wf() && plans(ctx, start, plan@),
                Err(PlanError::RefusedName(name)) => stops_at(ctx, start, name@),
            }
        }),
{
    let root_nm = root_dir.join(modules_dir_name);
    plan_workspace(&root_nm, importers, graph, limits, refused)
}

} // verus!
