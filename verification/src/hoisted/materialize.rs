//! Carrying out a plan: what is done for each node, in which order, and what
//! is counted and recorded on the way.
use crate::fs_path::{path_joined, path_parent, FsPath};
use crate::graph::{LocalSource, LockedPackage, LockfileGraph};
use crate::hoisted::placements::{dirs_of, path_views, recorded, HoistedPlacements};
use crate::hoisted::plan::{NodeView, PlacementPlan, PlanView};
use crate::relative::{relative_path, relative_to};
use crate::str_map::StrSet;
use crate::text::{opt_text, texts};
use vstd::prelude::*;

verus! {

/// What linking has done so far.
#[derive(Clone, Copy, Debug, PartialEq, Eq, Structural)]
pub struct LinkStats {
    pub packages_linked: usize,
    pub files_linked: usize,
    pub top_level_linked: usize,
}

/// Why a package cannot be put in place.
#[derive(Debug, PartialEq, Eq)]
pub enum MaterializeError {
    /// There is no file list for the package.
    MissingPackageIndex(String),
    /// The file list holds a path that is not accepted.
    RefusedFile(String),
}

/// The `node_modules` directory of an importer, and the entries that stay in it.
#[derive(Debug)]
pub struct SweepStep {
    pub nm_dir: FsPath,
    pub keep: Vec<String>,
}

/// A link to put in place of a package directory.
#[derive(Debug)]
pub struct LinkStep {
    pub dep_path: String,
    pub pkg_dir: FsPath,
    /// The directory to create first.
    pub parent: Option<FsPath>,
    /// Where the link leads.
    pub target: FsPath,
}

/// A package to put in place, and what its file list is found by when it is
/// not at hand.
#[derive(Debug)]
pub struct PackageStep {
    pub dep_path: String,
    pub pkg_dir: FsPath,
    pub registry_name: String,
    pub version: String,
    pub integrity: Option<String>,
}

/// What is done for a node.
#[derive(Debug)]
pub enum NodeStep {
    /// Nothing: an importer, or a package that the graph lacks.
    Pass,
    Link(LinkStep),
    Package(PackageStep),
}

/// What a node is to the materializer.
pub enum NodeKind {
    Pass,
    Link,
    Package,
}

/// What a node is to the materializer.
pub open spec fn node_kind(node: NodeView, graph: LockfileGraph) -> NodeKind {
    if node.dep_path is None || node.pkg_dir is None || !graph.packages@.contains_key(node.dep_path->0) {
        NodeKind::Pass
    } else if graph.packages@[node.dep_path->0].is_link() {
        NodeKind::Link
    } else {
        NodeKind::Package
    }
}

/// The directory that a link is seen from.
pub open spec fn link_parent(pkg_dir: Seq<Seq<char>>, root: Seq<Seq<char>>) -> Seq<Seq<char>> {
    match path_parent(pkg_dir) {
        Some(p) => p,
        None => root,
    }
}

/// Where a link leads: to the package's directory, relative where it can be.
pub open spec fn link_target(pkg_dir: Seq<Seq<char>>, root: Seq<Seq<char>>, rel: Seq<char>) -> Seq<Seq<char>> {
    let target = path_joined(root, rel);
    match relative_to(target, link_parent(pkg_dir, root)) {
        Some(p) => p,
        None => target,
    }
}

/// The path that a link's source names.
pub open spec fn link_source(pkg: LockedPackage) -> Seq<char> {
    match pkg.local_source {
        Some(LocalSource::Link(rel)) => rel@,
        _ => Seq::empty(),
    }
}

impl NodeStep {
    /// The step is the one for the node.
    pub open spec fn is_for(self, node: NodeView, graph: LockfileGraph, root: Seq<Seq<char>>) -> bool {
        let kind = node_kind(node, graph);
        match self {
            NodeStep::Pass => kind is Pass,
            NodeStep::Link(s) => {
                let pkg = graph.packages@[s.dep_path@];
                &&& kind is Link
                &&& node.dep_path == Some(s.dep_path@)
                &&& node.pkg_dir == Some(s.pkg_dir@)
                &&& s.target@ == link_target(s.pkg_dir@, root, link_source(pkg))
                &&& match s.parent {
                    Some(p) => path_parent(s.pkg_dir@) == Some(p@),
                    None => path_parent(s.pkg_dir@) is None,
                }
            },
            NodeStep::Package(s) => {
                let pkg = graph.packages@[s.dep_path@];
                &&& kind is Package
                &&& node.dep_path == Some(s.dep_path@)
                &&& node.pkg_dir == Some(s.pkg_dir@)
                &&& s.registry_name@ == pkg.registry_name_spec()
                &&& s.version@ == pkg.version@
                &&& opt_text(s.integrity) == opt_text(pkg.integrity)
            },
        }
    }
}

/// What is done for node `i` of the plan.
pub fn node_step(plan: &PlacementPlan, i: usize, graph: &LockfileGraph, root_dir: &FsPath) -> (r: NodeStep)
    requires
        i < plan.nodes@.len(),
    ensures
        r.is_for(plan@.nodes[i as int], *graph, root_dir@),
{
    let node = &plan.nodes[i];
    proof {
        assert(plan@.nodes[i as int] == node@);
    }
    let (dep_path, pkg_dir) = match (&node.dep_path, &node.pkg_dir) {
        (Some(d), Some(p)) => (d, p),
        _ => {
            return NodeStep::Pass;
        },
    };
    let pkg = match graph.packages.get(dep_path.as_str()) {
        Some(pkg) => pkg,
        None => {
            return NodeStep::Pass;
        },
    };
    if let Some(LocalSource::Link(rel)) = &pkg.local_source {
        let target = root_dir.join(rel.as_str());
        let parent = pkg_dir.parent();
        let seen_from = match pkg_dir.parent() {
            Some(p) => p,
            None => root_dir.copy(),
        };
        let target = match relative_path(&target, &seen_from) {
            Some(p) => p,
            None => target,
        };
        return NodeStep::Link(LinkStep { dep_path: dep_path.clone(), pkg_dir: pkg_dir.copy(), parent, target });
    }
    NodeStep::Package(
        PackageStep {
            dep_path: dep_path.clone(),
            pkg_dir: pkg_dir.copy(),
            registry_name: pkg.registry_name().to_owned(),
            version: pkg.version.clone(),
            integrity: match &pkg.integrity {
                Some(s) => Some(s.clone()),
                None => None,
            },
        },
    )
}

/// The names of a list of strings are those of a node's children.
pub open spec fn names_children(names: Seq<String>, node: NodeView) -> bool {
    &&& texts(names).to_set() == node.children.dom()
    &&& crate::str_map::increasing(texts(names))
}

impl PlacementPlan {
    /// The names that are placed directly in an importer's `node_modules`.
    pub fn importer_root_names(&self, importer_idx: usize) -> (r: Vec<String>)
        requires
            importer_idx < self.nodes@.len(),
        ensures
            names_children(r@, self@.nodes[importer_idx as int]),
            r@.len() == self@.nodes[importer_idx as int].children.dom().len(),
    {
        let children = &self.nodes[importer_idx].children;
        let ghost node = self@.nodes[importer_idx as int];
        let total = children.len();
        let mut out: Vec<String> = Vec::new();
        let mut i: usize = 0;
        while i < total
            invariant
                i <= total,
                total == children.keys().len(),
                children.wf(),
                texts(out@) == children.keys().take(i as int),
            decreases total - i,
        {
            let ghost was = out@;
            out.push(children.key_at(i).to_owned());
            i += 1;
            proof {
                assert(texts(out@) =~= texts(was).push(children.keys()[i - 1]));
                assert(children.keys().take(i as int) =~= children.keys().take(i - 1).push(
                    children.keys()[i - 1],
                ));
            }
        }
        proof {
            assert(children.keys().take(i as int) =~= children.keys());
            assert(texts(out@).to_set() =~= node.children.dom());
            crate::str_map::lemma_key_count(*children);
            assert(node.children.dom() =~= children@.dom());
            assert(texts(out@).len() == out@.len());
        }
        out
    }
}

/// What is swept before anything is put in place: everything that the plan
/// does not claim in the importers' directories.
pub fn sweep_steps(plan: &PlacementPlan) -> (r: Vec<SweepStep>)
    requires
        plan@.wf(),
    ensures
        r@.len() == plan@.importers.len(),
        forall|k: int|
            0 <= k < r@.len() ==> {
                let node = plan@.nodes[plan@.importers[k]];
                &&& (#[trigger] r@[k]).nm_dir@ == node.nm_dir
                &&& names_children(r@[k].keep@, node)
            },
{
    let mut out: Vec<SweepStep> = Vec::new();
    let mut k: usize = 0;
    while k < plan.importer_indices.len()
        invariant
            k <= plan.importer_indices@.len(),
            plan@.wf(),
            out@.len() == k,
            forall|j: int|
                0 <= j < k ==> {
                    let node = plan@.nodes[plan@.importers[j]];
                    &&& (#[trigger] out@[j]).nm_dir@ == node.nm_dir
                    &&& names_children(out@[j].keep@, node)
                },
        decreases plan.importer_indices.len() - k,
    {
        let idx = plan.importer_indices[k];
        proof {
            assert(plan@.importers[k as int] == idx);
            assert(plan@.nodes[idx as int] == plan.nodes@[idx as int]@);
        }
        out.push(SweepStep { nm_dir: plan.nodes[idx].nm_dir.copy(), keep: plan.importer_root_names(idx) });
        k += 1;
    }
    out
}

/// The files of a package: where they go, and the directories to create for them.
#[derive(Debug)]
pub struct FilePlan {
    /// Distinct directories; the package's own comes first.
    pub parents: Vec<FsPath>,
    /// Where each file goes, in the order of the list.
    pub targets: Vec<FsPath>,
}

/// The directories that the first `n` files are written to.
pub open spec fn file_parents(pkg_dir: Seq<Seq<char>>, files: Seq<Seq<char>>, n: int) -> Set<Seq<Seq<char>>>
    decreases n,
{
    if n <= 0 {
        Set::empty().insert(pkg_dir)
    } else {
        let rest = file_parents(pkg_dir, files, n - 1);
        match path_parent(path_joined(pkg_dir, files[n - 1])) {
            Some(p) => rest.insert(p),
            None => rest,
        }
    }
}

/// Where the files of a package go. The first file that is not accepted stops it.
pub fn file_plan(pkg_dir: &FsPath, files: &Vec<String>, refused: &StrSet) -> (r: Result<FilePlan, MaterializeError>)
    ensures
        match r {
            Ok(p) => {
                &&& forall|i: int| 0 <= i < files@.len() ==> !refused@.contains((#[trigger] files@[i])@)
                &&& p.parents@.len() > 0 && p.parents@[0]@ == pkg_dir@
                &&& path_views(p.parents@).no_duplicates()
                &&& path_views(p.parents@).to_set() == file_parents(pkg_dir@, texts(files@), files@.len() as int)
                &&& p.targets@.len() == files@.len()
                &&& forall|i: int|
                    0 <= i < files@.len() ==> (#[trigger] p.targets@[i])@ == path_joined(pkg_dir@, files@[i]@)
            },
            Err(MaterializeError::RefusedFile(f)) => exists|i: int|
                0 <= i < files@.len() && (#[trigger] files@[i])@ == f@ && refused@.contains(f@) && forall|j: int|
                    0 <= j < i ==> !refused@.contains((#[trigger] files@[j])@),
            Err(_) => false,
        },
{
    let mut parents: Vec<FsPath> = Vec::new();
    let mut targets: Vec<FsPath> = Vec::new();
    parents.push(pkg_dir.copy());
    let mut i: usize = 0;
    proof {
        assert(path_views(parents@) =~= seq![pkg_dir@]);
        assert(path_views(parents@).to_set() =~= file_parents(pkg_dir@, texts(files@), 0)) by {
            assert(path_views(parents@)[0] == pkg_dir@);
        }
    }
    while i < files.len()
        invariant
            i <= files@.len(),
            forall|j: int| 0 <= j < i ==> !refused@.contains((#[trigger] files@[j])@),
            parents@.len() > 0,
            parents@[0]@ == pkg_dir@,
            path_views(parents@).no_duplicates(),
            path_views(parents@).to_set() == file_parents(pkg_dir@, texts(files@), i as int),
            targets@.len() == i,
            forall|j: int| 0 <= j < i ==> (#[trigger] targets@[j])@ == path_joined(pkg_dir@, files@[j]@),
        decreases files.len() - i,
    {
        if refused.contains(files[i].as_str()) {
            return Err(MaterializeError::RefusedFile(files[i].clone()));
        }
        let target = pkg_dir.join(files[i].as_str());
        proof {
            assert(texts(files@)[i as int] == files@[i as int]@);
        }
        if let Some(p) = target.parent() {
            let ghost set = path_views(parents@).to_set();
            if !crate::hoisted::placements::holds_path(&parents, &p) {
                let ghost was = parents@;
                let ghost v = p@;
                parents.push(p);
                proof {
                    let now = path_views(parents@);
                    assert(now =~= path_views(was).push(v));
                    assert(!path_views(was).contains(v));
                    assert(now.no_duplicates()) by {
                        assert forall|a: int, b: int|
                            0 <= a < now.len() && 0 <= b < now.len() && a != b implies now[a] != now[b] by {
                            if a < was.len() && b < was.len() {
                                assert(path_views(was)[a] != path_views(was)[b]);
                            } else if a < was.len() {
                                assert(path_views(was).contains(now[a]));
                            } else {
                                assert(path_views(was).contains(now[b]));
                            }
                        }
                    }
                    assert(now.to_set() =~= set.insert(v)) by {
                        assert forall|x: Seq<Seq<char>>| now.to_set().contains(x) == set.insert(v).contains(x) by {
                            if set.contains(x) {
                                let k = choose|k: int| 0 <= k < path_views(was).len() && path_views(was)[k] == x;
                                assert(now[k] == x);
                            }
                            if x == v {
                                assert(now[was.len() as int] == x);
                            }
                            if now.contains(x) {
                                let k = choose|k: int| 0 <= k < now.len() && now[k] == x;
                                if k < was.len() {
                                    assert(path_views(was)[k] == x);
                                }
                            }
                        }
                    }
                }
            } else {
                proof {
                    assert(set.insert(p@) =~= set);
                }
            }
        }
        targets.push(target);
        i += 1;
    }
    Ok(FilePlan { parents, targets })
}

/// The file list of a package: the one at hand, or the one that was loaded for
/// it. There must be one.
pub fn index_or_error<T>(at_hand: Option<T>, loaded: Option<T>, dep_path: &str) -> (r: Result<T, MaterializeError>)
    ensures
        match r {
            Ok(t) => at_hand == Some(t) || (at_hand is None && loaded == Some(t)),
            Err(MaterializeError::MissingPackageIndex(d)) => at_hand is None && loaded is None && d@ == dep_path@,
            Err(_) => false,
        },
{
    match at_hand {
        Some(t) => Ok(t),
        None => match loaded {
            Some(t) => Ok(t),
            None => Err(MaterializeError::MissingPackageIndex(dep_path.to_owned())),
        },
    }
}

/// How many entries the importers' directories get.
pub open spec fn top_level_count(plan: PlanView, n: int) -> nat
    decreases n,
{
    if n <= 0 {
        0
    } else {
        top_level_count(plan, n - 1) + plan.nodes[plan.importers[n - 1]].children.dom().len()
    }
}

/// Fewer importers have no more entries.
proof fn lemma_top_level_monotonic(plan: PlanView, n: int, m: int)
    requires
        n <= m,
    ensures
        top_level_count(plan, n) <= top_level_count(plan, m),
    decreases m - n,
{
    if n < m && m > 0 {
        lemma_top_level_monotonic(plan, n, m - 1);
    }
}

/// How far carrying out a plan has come.
#[derive(Debug)]
pub struct Materializer {
    /// The node that comes next.
    pub next: usize,
    pub stats: LinkStats,
    pub placements: HoistedPlacements,
}

/// The placements after a node was put in place.
pub open spec fn after_node(
    placements: Map<Seq<char>, Seq<Seq<Seq<char>>>>,
    node: NodeView,
    graph: LockfileGraph,
) -> Map<Seq<char>, Seq<Seq<Seq<char>>>> {
    if node_kind(node, graph) is Pass {
        placements
    } else {
        recorded(placements, node.dep_path->0, node.pkg_dir->0)
    }
}

/// The placements after the nodes from the first on up to `n` were put in place.
pub open spec fn placed_so_far(
    nodes: Seq<NodeView>,
    graph: LockfileGraph,
    before: Map<Seq<char>, Seq<Seq<Seq<char>>>>,
    n: int,
) -> Map<Seq<char>, Seq<Seq<Seq<char>>>>
    decreases n,
{
    if n <= 0 {
        before
    } else {
        after_node(placed_so_far(nodes, graph, before, n - 1), nodes[n - 1], graph)
    }
}

impl Materializer {
    /// Nothing has been put in place yet.
    pub fn new(stats: LinkStats, placements: HoistedPlacements) -> (m: Materializer)
        ensures
            m.next == 0,
            m.stats == stats,
            m.placements@ == placements@,
    {
        Materializer { next: 0, stats, placements }
    }

    /// The next node was put in place; `files` of its files were linked.
    pub fn complete_node(&mut self, plan: &PlacementPlan, graph: &LockfileGraph, files: usize)
        requires
            old(self).next < plan.nodes@.len(),
            old(self).stats.files_linked + files <= usize::MAX,
            old(self).stats.packages_linked < usize::MAX,
        ensures
            final(self).next == old(self).next + 1,
            ({
                let node = plan@.nodes[old(self).next as int];
                let was = old(self).stats;
                &&& final(self).placements@ == after_node(old(self).placements@, node, *graph)
                &&& final(self).stats == if node_kind(node, *graph) is Package {
                    LinkStats {
                        packages_linked: (was.packages_linked + 1) as usize,
                        files_linked: (was.files_linked + files) as usize,
                        ..was
                    }
                } else {
                    was
                }
            }),
    {
        let node = &plan.nodes[self.next];
        proof {
            assert(plan@.nodes[self.next as int] == node@);
        }
        let total = plan.nodes.len();
        self.next = self.next + 1;
        if let (Some(dep_path), Some(pkg_dir)) = (&node.dep_path, &node.pkg_dir) {
            if let Some(pkg) = graph.packages.get(dep_path.as_str()) {
                if !pkg.links() {
                    self.stats.packages_linked = self.stats.packages_linked + 1;
                    self.stats.files_linked = self.stats.files_linked + files;
                }
                self.placements.record(dep_path.as_str(), pkg_dir.copy());
            }
        }
    }

    /// All nodes were put in place.
    pub fn finish(&mut self, plan: &PlacementPlan)
        requires
            plan@.wf(),
            old(self).stats.top_level_linked + top_level_count(plan@, plan@.importers.len() as int) <= usize::MAX,
        ensures
            final(self).next == old(self).next,
            final(self).placements@ == old(self).placements@,
            final(self).stats == (LinkStats {
                top_level_linked: (old(self).stats.top_level_linked + top_level_count(
                    plan@,
                    plan@.importers.len() as int,
                )) as usize,
                ..old(self).stats
            }),
    {
        let mut k: usize = 0;
        let mut sum: usize = self.stats.top_level_linked;
        let ghost all = plan@.importers.len() as int;
        while k < plan.importer_indices.len()
            invariant
                k <= plan.importer_indices@.len(),
                plan@.wf(),
                all == plan@.importers.len(),
                self.stats.top_level_linked + top_level_count(plan@, all) <= usize::MAX,
                sum == self.stats.top_level_linked + top_level_count(plan@, k as int),
            decreases plan.importer_indices.len() - k,
        {
            let idx = plan.importer_indices[k];
            proof {
                assert(plan@.importers[k as int] == idx);
                assert(plan@.nodes[idx as int] == plan.nodes@[idx as int]@);
                lemma_top_level_monotonic(plan@, k + 1, all);
            }
            let count = plan.nodes[idx].children.len();
            proof {
                crate::str_map::lemma_key_count(plan.nodes@[idx as int].children);
                assert(plan@.nodes[idx as int].children.dom() =~= plan.nodes@[idx as int].children@.dom());
            }
            sum = sum + count;
            k += 1;
        }
        self.stats.top_level_linked = sum;
    }
}

/// Putting the nodes in place one after the other gives the placements of all of
/// them: `seen` holds the placements before the first node and after each.
pub proof fn law_nodes_add_up(
    nodes: Seq<NodeView>,
    graph: LockfileGraph,
    seen: Seq<Map<Seq<char>, Seq<Seq<Seq<char>>>>>,
    n: int,
)
    requires
        0 <= n <= nodes.len(),
        seen.len() == nodes.len() + 1,
        forall|i: int| 0 <= i < nodes.len() ==> seen[i + 1] == after_node(seen[i], #[trigger] nodes[i], graph),
    ensures
        seen[n] == placed_so_far(nodes, graph, seen[0], n),
    decreases n,
{
    if n > 0 {
        law_nodes_add_up(nodes, graph, seen, n - 1);
        assert(seen[n - 1 + 1] == after_node(seen[n - 1], nodes[n - 1], graph));
    }
}

/// The directories of the first `n` nodes that hold a copy of the package, in
/// the order of the nodes.
pub open spec fn copies_of(nodes: Seq<NodeView>, graph: LockfileGraph, dep_path: Seq<char>, n: int) -> Seq<
    Seq<Seq<char>>,
>
    decreases n,
{
    if n <= 0 {
        Seq::empty()
    } else {
        let rest = copies_of(nodes, graph, dep_path, n - 1);
        let node = nodes[n - 1];
        if !(node_kind(node, graph) is Pass) && node.dep_path == Some(dep_path) {
            rest.push(node.pkg_dir->0)
        } else {
            rest
        }
    }
}

/// Once the nodes were put in place, each copy that the graph has a package for
/// is recorded behind what was recorded before, in the order of the nodes, and
/// nothing else.
pub proof fn law_every_copy_is_recorded(
    nodes: Seq<NodeView>,
    graph: LockfileGraph,
    before: Map<Seq<char>, Seq<Seq<Seq<char>>>>,
    dep_path: Seq<char>,
    n: int,
)
    requires
        0 <= n <= nodes.len(),
    ensures
        dirs_of(placed_so_far(nodes, graph, before, n), dep_path) == dirs_of(before, dep_path) + copies_of(
            nodes,
            graph,
            dep_path,
            n,
        ),
        placed_so_far(nodes, graph, before, n).contains_key(dep_path) <==> before.contains_key(dep_path) || copies_of(
            nodes,
            graph,
            dep_path,
            n,
        ).len() > 0,
    decreases n,
{
    if n > 0 {
        law_every_copy_is_recorded(nodes, graph, before, dep_path, n - 1);
        let was = dirs_of(before, dep_path);
        let rest = copies_of(nodes, graph, dep_path, n - 1);
        let node = nodes[n - 1];
        if !(node_kind(node, graph) is Pass) && node.dep_path == Some(dep_path) {
            assert((was + rest).push(node.pkg_dir->0) =~= was + rest.push(node.pkg_dir->0));
        }
    } else {
        assert(dirs_of(before, dep_path) + Seq::<Seq<Seq<char>>>::empty() =~= dirs_of(before, dep_path));
    }
}

} // verus!
