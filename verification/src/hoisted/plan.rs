//! The placement tree and the planner that fills it.
//!
//! Each node of the tree is a `node_modules` directory: that of an importer,
//! or the one inside a placed package. A package is found from a node by
//! looking through the node and its ancestors, nearest first, which is how
//! module lookup walks up the directories.
use crate::fs_path::{path_joined, FsPath};
use crate::str_map::{text_map, StrMap, StrSet};
use crate::text::{opt_text, same_text};
use vstd::prelude::*;

verus! {

/// How far up a package may be placed.
#[derive(Clone, Copy, Debug, PartialEq, Eq, Structural)]
pub enum HoistingLimits {
    /// Up to the workspace root.
    Unlimited,
    /// Up to the importer.
    Workspaces,
    /// Not above the package that needs it.
    Dependencies,
}

/// One node of the tree: an importer, or a placed package.
#[derive(Debug)]
pub struct TreeNode {
    /// The directory of the package; an importer has none here.
    pub pkg_dir: Option<FsPath>,
    /// The `node_modules` directory that the children live in.
    pub nm_dir: FsPath,
    pub parent: Option<usize>,
    pub children: StrMap<usize>,
    pub dep_path: Option<String>,
}

/// The tree as a list of nodes. The first node is the root.
#[derive(Debug)]
pub struct PlacementPlan {
    pub nodes: Vec<TreeNode>,
    pub importer_indices: Vec<usize>,
}

/// What placing a package came to.
#[derive(Clone, Copy, Debug, PartialEq, Eq, Structural)]
pub struct PlaceOutcome {
    pub node_idx: usize,
    pub created: bool,
}

/// Why a plan cannot be made.
#[derive(Debug, PartialEq, Eq)]
pub enum PlanError {
    /// The name cannot be the name of a package directory.
    RefusedName(String),
}

/// A package that a node needs.
#[derive(Debug)]
pub struct Request {
    pub requester: usize,
    pub floor: usize,
    pub name: String,
    pub dep_path: String,
}

/// What a node is.
#[verifier::ext_equal]
pub struct NodeView {
    pub pkg_dir: Option<Seq<Seq<char>>>,
    pub nm_dir: Seq<Seq<char>>,
    pub parent: Option<int>,
    pub children: Map<Seq<char>, int>,
    pub dep_path: Option<Seq<char>>,
}

/// What a plan is.
#[verifier::ext_equal]
pub struct PlanView {
    pub nodes: Seq<NodeView>,
    pub importers: Seq<int>,
}

/// What a request is.
pub struct RequestView {
    pub requester: int,
    pub floor: int,
    pub name: Seq<char>,
    pub dep_path: Seq<char>,
}

impl View for TreeNode {
    type V = NodeView;

    open spec fn view(&self) -> NodeView {
        NodeView {
            pkg_dir: match self.pkg_dir {
                Some(p) => Some(p@),
                None => None,
            },
            nm_dir: self.nm_dir@,
            parent: match self.parent {
                Some(p) => Some(p as int),
                None => None,
            },
            children: self.children@.map_values(|i: usize| i as int),
            dep_path: opt_text(self.dep_path),
        }
    }
}

impl View for PlacementPlan {
    type V = PlanView;

    open spec fn view(&self) -> PlanView {
        PlanView {
            nodes: self.nodes@.map_values(|n: TreeNode| n@),
            importers: self.importer_indices@.map_values(|i: usize| i as int),
        }
    }
}

impl View for Request {
    type V = RequestView;

    open spec fn view(&self) -> RequestView {
        RequestView {
            requester: self.requester as int,
            floor: self.floor as int,
            name: self.name@,
            dep_path: self.dep_path@,
        }
    }
}

/// The directory name that the children of a package live under.
pub open spec fn node_modules() -> Seq<char> {
    "node_modules"@
}

impl PlanView {
    /// `c` is the child of `i` under `name`.
    pub open spec fn child_wf(self, i: int, name: Seq<char>, c: int) -> bool {
        &&& i < c < self.nodes.len()
        &&& self.nodes[c].parent == Some(i)
        &&& self.nodes[c].dep_path is Some
        &&& self.nodes[c].pkg_dir == Some(path_joined(self.nodes[i].nm_dir, name))
    }

    /// Node `i` hangs below an earlier node, and its children below it.
    pub open spec fn node_wf(self, i: int) -> bool {
        let node = self.nodes[i];
        &&& node.parent matches Some(p) ==> 0 <= p < i
        &&& node.dep_path is Some <==> node.pkg_dir is Some
        &&& node.pkg_dir matches Some(d) ==> node.nm_dir == path_joined(d, node_modules()) && node.parent is Some
        &&& forall|name: Seq<char>| #[trigger]
            node.children.contains_key(name) ==> self.child_wf(i, name, node.children[name])
    }

    /// The nodes form a tree with directories that follow it.
    pub open spec fn wf(self) -> bool {
        &&& self.nodes.len() > 0
        &&& forall|i: int| 0 <= i < self.nodes.len() ==> #[trigger] self.node_wf(i)
        &&& forall|k: int| 0 <= k < self.importers.len() ==> 0 <= #[trigger] self.importers[k] < self.nodes.len()
    }

    /// The package that `name` means at node `from`: the nearest child of
    /// that name, going up.
    pub open spec fn resolve(self, from: int, name: Seq<char>) -> Option<int>
        decreases from,
    {
        if self.nodes[from].children.contains_key(name) {
            Some(self.nodes[from].children[name])
        } else {
            match self.nodes[from].parent {
                Some(p) if 0 <= p < from => self.resolve(p, name),
                _ => None,
            }
        }
    }

    /// `ancestor` is `node` or stands above it.
    pub open spec fn reaches(self, ancestor: int, node: int) -> bool
        decreases node,
    {
        ancestor == node || match self.nodes[node].parent {
            Some(p) if 0 <= p < node => self.reaches(ancestor, p),
            _ => false,
        }
    }

    /// The highest node that can take `name`, going up from `cursor` as far
    /// as `floor`; `best` when `cursor` itself cannot.
    pub open spec fn site_from(self, cursor: int, floor: int, name: Seq<char>, best: int) -> int
        decreases cursor,
    {
        if self.nodes[cursor].children.contains_key(name) {
            best
        } else if cursor == floor {
            cursor
        } else {
            match self.nodes[cursor].parent {
                Some(p) if 0 <= p < cursor => self.site_from(p, floor, name, cursor),
                _ => cursor,
            }
        }
    }

    /// Where a new copy for `requester` goes: the highest node up to `floor`
    /// below the first one that holds another package of that name.
    pub open spec fn site(self, requester: int, floor: int, name: Seq<char>) -> int {
        self.site_from(requester, floor, name, requester)
    }

    /// The plan with a new package below `site`.
    pub open spec fn with_package(self, site: int, name: Seq<char>, dep_path: Seq<char>) -> PlanView {
        let dir = path_joined(self.nodes[site].nm_dir, name);
        let node = NodeView {
            pkg_dir: Some(dir),
            nm_dir: path_joined(dir, node_modules()),
            parent: Some(site),
            children: Map::empty(),
            dep_path: Some(dep_path),
        };
        let holder = NodeView {
            children: self.nodes[site].children.insert(name, self.nodes.len() as int),
            ..self.nodes[site]
        };
        PlanView { nodes: self.nodes.update(site, holder).push(node), ..self }
    }

    /// The package that `name` means at the requester is already the one asked for.
    pub open spec fn reuses(self, requester: int, name: Seq<char>, dep_path: Seq<char>) -> bool {
        self.resolve(requester, name) matches Some(k) && self.nodes[k].dep_path == Some(dep_path)
    }

    /// The plan after a package was placed.
    pub open spec fn placed(self, requester: int, floor: int, name: Seq<char>, dep_path: Seq<char>) -> PlanView {
        if self.reuses(requester, name, dep_path) {
            self
        } else {
            self.with_package(self.site(requester, floor, name), name, dep_path)
        }
    }

    /// The node that a placed package has.
    pub open spec fn placed_at(self, requester: int, name: Seq<char>, dep_path: Seq<char>) -> int {
        if self.reuses(requester, name, dep_path) {
            self.resolve(requester, name)->0
        } else {
            self.nodes.len() as int
        }
    }

    /// No node from `cursor` up to `floor` holds `name`, and `floor` is on the way.
    pub open spec fn open_to_floor(self, cursor: int, floor: int, name: Seq<char>) -> bool
        decreases cursor,
    {
        if self.nodes[cursor].children.contains_key(name) {
            false
        } else if cursor == floor {
            true
        } else {
            match self.nodes[cursor].parent {
                Some(p) if 0 <= p < cursor => self.open_to_floor(p, floor, name),
                _ => false,
            }
        }
    }

    /// The request should wait: it would take the root's slot for `name`,
    /// which another package is preferred for.
    pub open spec fn defers(self, r: RequestView, preferred: Map<Seq<char>, Seq<char>>) -> bool {
        &&& r.floor == 0
        &&& preferred.contains_key(r.name)
        &&& preferred[r.name] != r.dep_path
        &&& self.open_to_floor(r.requester, r.floor, r.name)
    }

    /// The plan puts the package into a directory on the way up from `requester`,
    /// under the name asked for.
    pub open spec fn provides(self, requester: int, name: Seq<char>, dep_path: Seq<char>) -> bool {
        exists|k: int| #[trigger] self.provides_at(requester, name, dep_path, k)
    }

    /// Node `k` is that package.
    pub open spec fn provides_at(self, requester: int, name: Seq<char>, dep_path: Seq<char>, k: int) -> bool {
        &&& 0 <= k < self.nodes.len()
        &&& self.nodes[k].dep_path == Some(dep_path)
        &&& self.nodes[k].parent matches Some(p) && self.reaches(p, requester) && self.nodes[k].pkg_dir
            == Some(path_joined(self.nodes[p].nm_dir, name))
    }
}

/// Going up from a node of a tree leads to nodes of the tree.
pub proof fn lemma_reaches_bound(plan: PlanView, ancestor: int, node: int)
    requires
        plan.wf(),
        0 <= node < plan.nodes.len(),
        plan.reaches(ancestor, node),
    ensures
        0 <= ancestor <= node,
    decreases node,
{
    assert(plan.node_wf(node));
    if ancestor != node {
        lemma_reaches_bound(plan, ancestor, plan.nodes[node].parent->0);
    }
}

/// What is above one's ancestor is above oneself.
proof fn lemma_reaches_transitive(plan: PlanView, a: int, b: int, c: int)
    requires
        plan.reaches(a, b),
        plan.reaches(b, c),
    ensures
        plan.reaches(a, c),
    decreases c,
{
    if b != c {
        lemma_reaches_transitive(plan, a, b, plan.nodes[c].parent->0);
    }
}

/// A name that resolves leads to a child of an ancestor.
pub proof fn lemma_resolve(plan: PlanView, from: int, name: Seq<char>)
    requires
        plan.wf(),
        0 <= from < plan.nodes.len(),
    ensures
        plan.resolve(from, name) matches Some(k) ==> {
            &&& 0 <= k < plan.nodes.len()
            &&& plan.nodes[k].dep_path is Some
            &&& plan.nodes[k].parent matches Some(p) && plan.reaches(p, from) && plan.child_wf(p, name, k)
        },
    decreases from,
{
    assert(plan.node_wf(from));
    if !plan.nodes[from].children.contains_key(name) {
        match plan.nodes[from].parent {
            Some(p) => {
                lemma_resolve(plan, p, name);
                if plan.resolve(p, name) is Some {
                    let k = plan.resolve(p, name)->0;
                    assert(plan.reaches(p, p));
                    assert(plan.reaches(p, from));
                    lemma_reaches_transitive(plan, plan.nodes[k].parent->0, p, from);
                }
            },
            None => {},
        }
    }
}

/// The site is an ancestor of the requester.
proof fn lemma_site_from(plan: PlanView, cursor: int, floor: int, name: Seq<char>, best: int, requester: int)
    requires
        plan.wf(),
        0 <= cursor < plan.nodes.len(),
        plan.reaches(cursor, requester),
        plan.reaches(best, requester),
    ensures
        plan.reaches(plan.site_from(cursor, floor, name, best), requester),
    decreases cursor,
{
    assert(plan.node_wf(cursor));
    if !plan.nodes[cursor].children.contains_key(name) && cursor != floor {
        match plan.nodes[cursor].parent {
            Some(p) => {
                assert(plan.reaches(p, p));
                assert(plan.reaches(p, cursor));
                lemma_reaches_transitive(plan, p, cursor, requester);
                lemma_site_from(plan, p, floor, name, cursor, requester);
            },
            None => {},
        }
    }
}

/// A new package hangs below a node that its requester looks through.
pub proof fn law_site_is_visible(plan: PlanView, requester: int, floor: int, name: Seq<char>)
    requires
        plan.wf(),
        0 <= requester < plan.nodes.len(),
    ensures
        plan.reaches(plan.site(requester, floor, name), requester),
        0 <= plan.site(requester, floor, name) <= requester,
{
    lemma_site_from(plan, requester, floor, name, requester, requester);
    lemma_reaches_bound(plan, plan.site(requester, floor, name), requester);
}

/// A step up from below `floor` does not leave it behind.
proof fn lemma_floor_on_the_way(plan: PlanView, floor: int, cursor: int)
    requires
        plan.reaches(floor, cursor),
        floor != cursor,
    ensures
        plan.nodes[cursor].parent matches Some(p) && 0 <= p < cursor && plan.reaches(floor, p),
{
}

proof fn lemma_site_above_floor(plan: PlanView, cursor: int, floor: int, name: Seq<char>, best: int)
    requires
        plan.wf(),
        0 <= cursor < plan.nodes.len(),
        plan.reaches(floor, cursor),
        plan.reaches(floor, best),
    ensures
        plan.reaches(floor, plan.site_from(cursor, floor, name, best)),
    decreases cursor,
{
    assert(plan.node_wf(cursor));
    if !plan.nodes[cursor].children.contains_key(name) && cursor != floor {
        lemma_floor_on_the_way(plan, floor, cursor);
        lemma_site_above_floor(plan, plan.nodes[cursor].parent->0, floor, name, cursor);
    }
}

/// A new package is not placed above the hoisting floor of its request.
pub proof fn law_floor_is_kept(plan: PlanView, requester: int, floor: int, name: Seq<char>)
    requires
        plan.wf(),
        0 <= requester < plan.nodes.len(),
        plan.reaches(floor, requester),
    ensures
        plan.reaches(floor, plan.site(requester, floor, name)),
{
    lemma_site_above_floor(plan, requester, floor, name, requester);
}

/// A new package leaves the tree well-formed.
pub proof fn lemma_with_package_wf(plan: PlanView, site: int, name: Seq<char>, dep_path: Seq<char>)
    requires
        plan.wf(),
        0 <= site < plan.nodes.len(),
    ensures
        plan.with_package(site, name, dep_path).wf(),
{
    let next = plan.with_package(site, name, dep_path);
    assert forall|i: int| 0 <= i < next.nodes.len() implies #[trigger] next.node_wf(i) by {
        if i < plan.nodes.len() {
            assert(plan.node_wf(i));
            assert(next.nodes[i].nm_dir == plan.nodes[i].nm_dir);
            assert forall|n: Seq<char>| #[trigger] next.nodes[i].children.contains_key(n) implies next.child_wf(
                i,
                n,
                next.nodes[i].children[n],
            ) by {
                if !(i == site && n == name) {
                    assert(plan.nodes[i].children.contains_key(n));
                    assert(plan.child_wf(i, n, plan.nodes[i].children[n]));
                }
            }
        }
    }
}

/// Nodes keep their place in the tree when a package is added.
pub proof fn lemma_reaches_kept(plan: PlanView, site: int, name: Seq<char>, dep_path: Seq<char>, a: int, n: int)
    requires
        plan.wf(),
        0 <= site < plan.nodes.len(),
        0 <= n < plan.nodes.len(),
    ensures
        plan.with_package(site, name, dep_path).reaches(a, n) == plan.reaches(a, n),
    decreases n,
{
    assert(plan.node_wf(n));
    let next = plan.with_package(site, name, dep_path);
    assert(next.nodes[n].parent == plan.nodes[n].parent);
    if a != n {
        match plan.nodes[n].parent {
            Some(p) => lemma_reaches_kept(plan, site, name, dep_path, a, p),
            None => {},
        }
    }
}

/// A package that was provided stays provided when another is added.
proof fn lemma_provides_kept(
    plan: PlanView,
    site: int,
    name: Seq<char>,
    dep_path: Seq<char>,
    requester: int,
    wanted: Seq<char>,
    target: Seq<char>,
)
    requires
        plan.wf(),
        0 <= site < plan.nodes.len(),
        0 <= requester < plan.nodes.len(),
        plan.provides(requester, wanted, target),
    ensures
        plan.with_package(site, name, dep_path).provides(requester, wanted, target),
{
    let next = plan.with_package(site, name, dep_path);
    let k = choose|k: int| plan.provides_at(requester, wanted, target, k);
    let p = plan.nodes[k].parent->0;
    lemma_reaches_bound(plan, p, requester);
    lemma_reaches_kept(plan, site, name, dep_path, p, requester);
    assert(next.nodes[p].nm_dir == plan.nodes[p].nm_dir);
    assert(next.provides_at(requester, wanted, target, k));
}

/// A package that was provided stays provided when another is placed.
pub proof fn lemma_provides_after_placing(
    plan: PlanView,
    by: int,
    floor: int,
    name: Seq<char>,
    dep_path: Seq<char>,
    requester: int,
    wanted: Seq<char>,
    target: Seq<char>,
)
    requires
        plan.wf(),
        0 <= by < plan.nodes.len(),
        0 <= requester < plan.nodes.len(),
        plan.provides(requester, wanted, target),
    ensures
        plan.placed(by, floor, name, dep_path).provides(requester, wanted, target),
{
    if !plan.reuses(by, name, dep_path) {
        law_site_is_visible(plan, by, floor, name);
        lemma_provides_kept(plan, plan.site(by, floor, name), name, dep_path, requester, wanted, target);
    }
}

/// From every node up to the site of a new package, the name now means that package.
proof fn lemma_resolve_after(
    plan: PlanView,
    cursor: int,
    floor: int,
    name: Seq<char>,
    dep_path: Seq<char>,
    best: int,
)
    requires
        plan.wf(),
        0 <= cursor < plan.nodes.len(),
        !plan.nodes[cursor].children.contains_key(name),
    ensures
        ({
            let next = plan.with_package(plan.site_from(cursor, floor, name, best), name, dep_path);
            next.resolve(cursor, name) == Some(plan.nodes.len() as int)
        }),
    decreases cursor,
{
    assert(plan.node_wf(cursor));
    let site = plan.site_from(cursor, floor, name, best);
    let next = plan.with_package(site, name, dep_path);
    lemma_site_from(plan, cursor, floor, name, cursor, cursor);
    if cursor != floor {
        match plan.nodes[cursor].parent {
            Some(p) => {
                assert(plan.reaches(p, p));
                lemma_site_from(plan, p, floor, name, cursor, cursor);
                lemma_reaches_bound(plan, site, cursor);
                if !plan.nodes[p].children.contains_key(name) {
                    lemma_resolve_after(plan, p, floor, name, dep_path, cursor);
                    lemma_site_from(plan, p, floor, name, p, p);
                    lemma_site_best_unused(plan, p, floor, name, p, cursor);
                    lemma_reaches_bound(plan, site, p);
                    assert(site < cursor);
                    assert(next.nodes[cursor].children == plan.nodes[cursor].children);
                }
            },
            None => {},
        }
    }
}

/// What is returned when nothing is free does not matter where something is.
proof fn lemma_site_best_unused(plan: PlanView, cursor: int, floor: int, name: Seq<char>, a: int, b: int)
    requires
        !plan.nodes[cursor].children.contains_key(name),
    ensures
        plan.site_from(cursor, floor, name, a) == plan.site_from(cursor, floor, name, b),
{
}

/// Right after a package was placed, the requester finds it under its name.
pub proof fn law_placed_package_is_found(
    plan: PlanView,
    requester: int,
    floor: int,
    name: Seq<char>,
    dep_path: Seq<char>,
)
    requires
        plan.wf(),
        0 <= requester < plan.nodes.len(),
    ensures
        ({
            let next = plan.placed(requester, floor, name, dep_path);
            let k = plan.placed_at(requester, name, dep_path);
            next.resolve(requester, name) == Some(k) && next.nodes[k].dep_path == Some(dep_path)
        }),
{
    if !plan.reuses(requester, name, dep_path) {
        if plan.nodes[requester].children.contains_key(name) {
            assert(plan.site(requester, floor, name) == requester);
        } else {
            lemma_resolve_after(plan, requester, floor, name, dep_path, requester);
        }
        law_site_is_visible(plan, requester, floor, name);
    }
}

/// Asking again for a package that was just placed changes nothing.
pub proof fn law_placing_again_reuses(
    plan: PlanView,
    requester: int,
    floor: int,
    name: Seq<char>,
    dep_path: Seq<char>,
)
    requires
        plan.wf(),
        0 <= requester < plan.nodes.len(),
    ensures
        ({
            let next = plan.placed(requester, floor, name, dep_path);
            &&& next.reuses(requester, name, dep_path)
            &&& next.placed(requester, floor, name, dep_path) == next
            &&& next.placed_at(requester, name, dep_path) == plan.placed_at(requester, name, dep_path)
        }),
{
    law_placed_package_is_found(plan, requester, floor, name, dep_path);
}

/// Placing keeps the tree well-formed and every node where it was; only the
/// site gains a child.
pub proof fn law_placing_keeps_nodes(
    plan: PlanView,
    requester: int,
    floor: int,
    name: Seq<char>,
    dep_path: Seq<char>,
)
    requires
        plan.wf(),
        0 <= requester < plan.nodes.len(),
    ensures
        ({
            let next = plan.placed(requester, floor, name, dep_path);
            let site = plan.site(requester, floor, name);
            &&& next.wf()
            &&& next.importers == plan.importers
            &&& plan.nodes.len() <= next.nodes.len() <= plan.nodes.len() + 1
            &&& forall|i: int|
                0 <= i < plan.nodes.len() ==> {
                    &&& (#[trigger] next.nodes[i]).pkg_dir == plan.nodes[i].pkg_dir
                    &&& next.nodes[i].nm_dir == plan.nodes[i].nm_dir
                    &&& next.nodes[i].parent == plan.nodes[i].parent
                    &&& next.nodes[i].dep_path == plan.nodes[i].dep_path
                    &&& i != site ==> next.nodes[i] == plan.nodes[i]
                }
        }),
{
    law_site_is_visible(plan, requester, floor, name);
    if !plan.reuses(requester, name, dep_path) {
        lemma_with_package_wf(plan, plan.site(requester, floor, name), name, dep_path);
    }
}

/// A placed package is put into a directory that its requester looks through.
pub proof fn law_placed_package_is_provided(
    plan: PlanView,
    requester: int,
    floor: int,
    name: Seq<char>,
    dep_path: Seq<char>,
)
    requires
        plan.wf(),
        0 <= requester < plan.nodes.len(),
    ensures
        plan.placed(requester, floor, name, dep_path).provides(requester, name, dep_path),
{
    let next = plan.placed(requester, floor, name, dep_path);
    if plan.reuses(requester, name, dep_path) {
        lemma_resolve(plan, requester, name);
        assert(plan.provides_at(requester, name, dep_path, plan.resolve(requester, name)->0));
    } else {
        let site = plan.site(requester, floor, name);
        law_site_is_visible(plan, requester, floor, name);
        lemma_reaches_kept(plan, site, name, dep_path, site, requester);
        assert(next.provides_at(requester, name, dep_path, plan.nodes.len() as int));
    }
}

impl PlacementPlan {
    /// A plan with one importer, whose `node_modules` is `importer_nm`.
    pub fn new(importer_nm: FsPath) -> (plan: PlacementPlan)
        ensures
            plan@.wf(),
            plan@ == (PlanView {
                nodes: seq![
                    NodeView {
                        pkg_dir: None,
                        nm_dir: importer_nm@,
                        parent: None,
                        children: Map::empty(),
                        dep_path: None,
                    },
                ],
                importers: seq![0],
            }),
    {
        let ghost nm = importer_nm@;
        let mut nodes: Vec<TreeNode> = Vec::new();
        nodes.push(
            TreeNode {
                pkg_dir: None,
                nm_dir: importer_nm,
                parent: None,
                children: StrMap::new(),
                dep_path: None,
            },
        );
        let mut importer_indices: Vec<usize> = Vec::new();
        importer_indices.push(0);
        let plan = PlacementPlan { nodes, importer_indices };
        proof {
            assert(plan@.nodes[0].children =~= Map::<Seq<char>, int>::empty());
            assert(plan@ =~= (PlanView {
                nodes: seq![
                    NodeView {
                        pkg_dir: None,
                        nm_dir: nm,
                        parent: None,
                        children: Map::empty(),
                        dep_path: None,
                    },
                ],
                importers: seq![0],
            }));
        }
        plan
    }

    /// Add an importer that hangs below `parent`, or stands alone.
    pub fn add_importer(&mut self, importer_nm: FsPath, parent: Option<usize>) -> (idx: usize)
        requires
            old(self)@.wf(),
            parent matches Some(p) ==> p < old(self).nodes@.len(),
        ensures
            final(self)@.wf(),
            idx == old(self).nodes@.len(),
            final(self)@ == (PlanView {
                nodes: old(self)@.nodes.push(
                    NodeView {
                        pkg_dir: None,
                        nm_dir: importer_nm@,
                        parent: match parent {
                            Some(p) => Some(p as int),
                            None => None,
                        },
                        children: Map::empty(),
                        dep_path: None,
                    },
                ),
                importers: old(self)@.importers.push(idx as int),
            }),
    {
        let ghost was = self@;
        let ghost node = NodeView {
            pkg_dir: None,
            nm_dir: importer_nm@,
            parent: match parent {
                Some(p) => Some(p as int),
                None => None,
            },
            children: Map::empty(),
            dep_path: None,
        };
        let idx = self.nodes.len();
        self.nodes.push(
            TreeNode { pkg_dir: None, nm_dir: importer_nm, parent, children: StrMap::new(), dep_path: None },
        );
        self.importer_indices.push(idx);
        proof {
            assert(self@.nodes[idx as int].children =~= Map::<Seq<char>, int>::empty());
            assert(self@.nodes =~= was.nodes.push(node));
            assert(self@.importers =~= was.importers.push(idx as int));
            let next = self@;
            assert forall|i: int| 0 <= i < next.nodes.len() implies #[trigger] next.node_wf(i) by {
                if i < was.nodes.len() {
                    assert(was.node_wf(i));
                    assert(next.nodes[i] == was.nodes[i]);
                    assert forall|n: Seq<char>| #[trigger] next.nodes[i].children.contains_key(n) implies next.child_wf(
                        i,
                        n,
                        next.nodes[i].children[n],
                    ) by {
                        assert(was.child_wf(i, n, was.nodes[i].children[n]));
                    }
                }
            }
        }
        idx
    }

    /// The package that `name` means at node `from`.
    pub fn resolve(&self, from: usize, name: &str) -> (r: Option<usize>)
        requires
            self@.wf(),
            from < self.nodes@.len(),
        ensures
            match r {
                Some(k) => self@.resolve(from as int, name@) == Some(k as int) && k < self.nodes@.len(),
                None => self@.resolve(from as int, name@) is None,
            },
    {
        let mut cursor: usize = from;
        loop
            invariant
                self@.wf(),
                cursor < self.nodes@.len(),
                self@.resolve(cursor as int, name@) == self@.resolve(from as int, name@),
            decreases cursor,
        {
            proof {
                assert(self@.node_wf(cursor as int));
                assert(self@.nodes[cursor as int] == self.nodes@[cursor as int]@);
                lemma_resolve(self@, cursor as int, name@);
            }
            if let Some(existing) = self.nodes[cursor].children.get(name) {
                return Some(*existing);
            }
            match self.nodes[cursor].parent {
                Some(p) => {
                    cursor = p;
                },
                None => {
                    return None;
                },
            }
        }
    }

    /// Where a new copy for `requester` goes.
    pub fn site(&self, requester: usize, floor: usize, name: &str) -> (r: usize)
        requires
            self@.wf(),
            requester < self.nodes@.len(),
        ensures
            r == self@.site(requester as int, floor as int, name@),
            r < self.nodes@.len(),
    {
        let mut cursor: usize = requester;
        let mut candidate: usize = requester;
        loop
            invariant
                self@.wf(),
                cursor < self.nodes@.len(),
                candidate < self.nodes@.len(),
                self@.site_from(cursor as int, floor as int, name@, candidate as int) == self@.site(
                    requester as int,
                    floor as int,
                    name@,
                ),
            decreases cursor,
        {
            proof {
                assert(self@.node_wf(cursor as int));
                assert(self@.nodes[cursor as int] == self.nodes@[cursor as int]@);
            }
            if self.nodes[cursor].children.contains_key(name) {
                return candidate;
            }
            candidate = cursor;
            if cursor == floor {
                return candidate;
            }
            match self.nodes[cursor].parent {
                Some(p) => {
                    cursor = p;
                },
                None => {
                    return candidate;
                },
            }
        }
    }

    /// Whether `ancestor` is `node` or stands above it.
    pub fn is_ancestor_or_self(&self, ancestor: usize, node: usize) -> (r: bool)
        requires
            self@.wf(),
            node < self.nodes@.len(),
        ensures
            r == self@.reaches(ancestor as int, node as int),
    {
        let mut cursor: usize = node;
        loop
            invariant
                self@.wf(),
                cursor < self.nodes@.len(),
                self@.reaches(ancestor as int, cursor as int) == self@.reaches(ancestor as int, node as int),
            decreases cursor,
        {
            proof {
                assert(self@.node_wf(cursor as int));
                assert(self@.nodes[cursor as int] == self.nodes@[cursor as int]@);
            }
            if cursor == ancestor {
                return true;
            }
            match self.nodes[cursor].parent {
                Some(p) => {
                    cursor = p;
                },
                None => {
                    return false;
                },
            }
        }
    }

    /// Place the package `dep_path` under `name` for `requester`.
    ///
    /// A copy that the requester already finds under that name is reused, even
    /// above `floor`. Otherwise a new one is placed as high as `floor` and the
    /// other packages of that name allow.
    pub fn place(
        &mut self,
        requester: usize,
        floor: usize,
        name: &str,
        dep_path: &str,
        refused: &StrSet,
    ) -> (r: Result<PlaceOutcome, PlanError>)
        requires
            old(self)@.wf(),
            requester < old(self).nodes@.len(),
        ensures
            final(self)@.wf(),
            match r {
                Ok(o) => {
                    &&& !refused@.contains(name@)
                    &&& final(self)@ == old(self)@.placed(requester as int, floor as int, name@, dep_path@)
                    &&& o.node_idx == old(self)@.placed_at(requester as int, name@, dep_path@)
                    &&& o.node_idx < final(self).nodes@.len()
                    &&& o.created == !old(self)@.reuses(requester as int, name@, dep_path@)
                },
                Err(PlanError::RefusedName(n)) => {
                    &&& refused@.contains(name@)
                    &&& n@ == name@
                    &&& final(self)@ == old(self)@
                },
            },
    {
        if refused.contains(name) {
            return Err(PlanError::RefusedName(name.to_owned()));
        }
        let ghost was = self@;
        proof {
            law_placing_keeps_nodes(was, requester as int, floor as int, name@, dep_path@);
        }
        if let Some(existing) = self.resolve(requester, name) {
            proof {
                assert(was.nodes[existing as int] == self.nodes@[existing as int]@);
            }
            if let Some(d) = &self.nodes[existing].dep_path {
                if same_text(d.as_str(), dep_path) {
                    return Ok(PlaceOutcome { node_idx: existing, created: false });
                }
            }
        }
        let site = self.site(requester, floor, name);
        let pkg_dir = self.nodes[site].nm_dir.join(name);
        let nm_dir = pkg_dir.join("node_modules");
        let new_idx = self.nodes.len();
        let ghost holder = self.nodes@[site as int];
        self.nodes.push(
            TreeNode {
                pkg_dir: Some(pkg_dir),
                nm_dir,
                parent: Some(site),
                children: StrMap::new(),
                dep_path: Some(dep_path.to_owned()),
            },
        );
        self.nodes[site].children.insert(name.to_owned(), new_idx);
        proof {
            let next = was.with_package(site as int, name@, dep_path@);
            assert(was.nodes[site as int] == holder@);
            assert(self@.nodes[new_idx as int].children =~= Map::<Seq<char>, int>::empty());
            assert(self@.nodes[site as int].children =~= holder@.children.insert(name@, new_idx as int));
            assert(self@.nodes =~= next.nodes) by {
                assert forall|i: int| 0 <= i < next.nodes.len() implies self@.nodes[i] == next.nodes[i] by {
                    if i != site && i != new_idx {
                        assert(was.nodes[i] == self.nodes@[i]@);
                    }
                }
            }
            assert(self@ =~= next);
        }
        Ok(PlaceOutcome { node_idx: new_idx, created: true })
    }

    /// Whether a request should wait for the preferred package of its name.
    pub fn should_defer_for_preference(
        &self,
        requester: usize,
        floor: usize,
        name: &str,
        dep_path: &str,
        preferred: &StrMap<String>,
    ) -> (r: bool)
        requires
            self@.wf(),
            requester < self.nodes@.len(),
        ensures
            r == self@.defers(
                RequestView { requester: requester as int, floor: floor as int, name: name@, dep_path: dep_path@ },
                text_map(*preferred),
            ),
    {
        if floor != 0 {
            return false;
        }
        match preferred.get(name) {
            None => {
                return false;
            },
            Some(candidate) => {
                if same_text(candidate.as_str(), dep_path) {
                    return false;
                }
            },
        }
        let mut cursor: usize = requester;
        loop
            invariant
                self@.wf(),
                floor == 0,
                text_map(*preferred).contains_key(name@),
                text_map(*preferred)[name@] != dep_path@,
                cursor < self.nodes@.len(),
                self@.open_to_floor(cursor as int, floor as int, name@) == self@.open_to_floor(
                    requester as int,
                    floor as int,
                    name@,
                ),
            decreases cursor,
        {
            proof {
                assert(self@.node_wf(cursor as int));
                assert(self@.nodes[cursor as int] == self.nodes@[cursor as int]@);
            }
            if self.nodes[cursor].children.contains_key(name) {
                return false;
            }
            if cursor == floor {
                return true;
            }
            match self.nodes[cursor].parent {
                Some(p) => {
                    cursor = p;
                },
                None => {
                    return false;
                },
            }
        }
    }
}

} // verus!
