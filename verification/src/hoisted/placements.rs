//! Where the packages of a hoisted tree are on disk.
use crate::fs_path::{path_joined, FsPath};
use crate::graph::LockfileGraph;
use crate::hoisted::plan::{HoistingLimits, NodeView, PlacementPlan, PlanError, PlanView};
use crate::hoisted::planner::{plans, stops_at, workspace_start};
use crate::hoisted::workspace::{physical_importers, plan_graph, workspace_context};
use crate::str_map::{StrMap, StrSet};
use vstd::prelude::*;

verus! {

/// The paths of a list.
pub open spec fn path_views(paths: Seq<FsPath>) -> Seq<Seq<Seq<char>>> {
    paths.map_values(|p: FsPath| p@)
}

/// For each package key the directories that hold a copy, in the order in
/// which they were recorded.
#[derive(Debug)]
pub struct HoistedPlacements {
    by_dep_path: StrMap<Vec<FsPath>>,
}

impl View for HoistedPlacements {
    type V = Map<Seq<char>, Seq<Seq<Seq<char>>>>;

    closed spec fn view(&self) -> Map<Seq<char>, Seq<Seq<Seq<char>>>> {
        self.by_dep_path@.map_values(|v: Vec<FsPath>| path_views(v@))
    }
}

/// The directories of a key.
pub open spec fn dirs_of(m: Map<Seq<char>, Seq<Seq<Seq<char>>>>, dep_path: Seq<char>) -> Seq<Seq<Seq<char>>> {
    if m.contains_key(dep_path) {
        m[dep_path]
    } else {
        Seq::empty()
    }
}

/// The placements with one more directory for a key.
pub open spec fn recorded(
    m: Map<Seq<char>, Seq<Seq<Seq<char>>>>,
    dep_path: Seq<char>,
    dir: Seq<Seq<char>>,
) -> Map<Seq<char>, Seq<Seq<Seq<char>>>> {
    m.insert(dep_path, dirs_of(m, dep_path).push(dir))
}

/// Directory `i` has no more components than any other, and fewer than those
/// before it.
pub open spec fn is_shallowest(dirs: Seq<Seq<Seq<char>>>, i: int) -> bool {
    forall|j: int|
        0 <= j < dirs.len() ==> dirs[i].len() <= (#[trigger] dirs[j]).len() && (j < i ==> dirs[i].len() < dirs[j].len())
}

/// Only one directory is the shallowest.
pub proof fn law_one_shallowest(dirs: Seq<Seq<Seq<char>>>, a: int, b: int)
    requires
        0 <= a < dirs.len(),
        0 <= b < dirs.len(),
        is_shallowest(dirs, a),
        is_shallowest(dirs, b),
    ensures
        a == b,
{
    assert(dirs[a].len() <= dirs[b].len());
    assert(dirs[b].len() <= dirs[a].len());
}

/// Each directory of `dirs` beside `key`.
pub open spec fn paired(key: Seq<char>, dirs: Seq<Seq<Seq<char>>>) -> Seq<(Seq<char>, Seq<Seq<char>>)> {
    dirs.map_values(|d: Seq<Seq<char>>| (key, d))
}

/// The directories of the keys, one key after the other.
pub open spec fn flattened(keys: Seq<Seq<char>>, m: Map<Seq<char>, Seq<Seq<Seq<char>>>>) -> Seq<
    (Seq<char>, Seq<Seq<char>>),
>
    decreases keys.len(),
{
    if keys.len() == 0 {
        Seq::empty()
    } else {
        flattened(keys.drop_last(), m) + paired(keys.last(), m[keys.last()])
    }
}

/// The pairs of a listing.
pub open spec fn pair_views(pairs: Seq<(&str, &FsPath)>) -> Seq<(Seq<char>, Seq<Seq<char>>)> {
    pairs.map_values(|p: (&str, &FsPath)| (p.0@, p.1@))
}

/// The placements of the first `n` nodes whose directories exist.
pub open spec fn placements_of(
    nodes: Seq<NodeView>,
    existing: Set<Seq<Seq<char>>>,
    n: int,
) -> Map<Seq<char>, Seq<Seq<Seq<char>>>>
    decreases n,
{
    if n <= 0 {
        Map::empty()
    } else {
        let rest = placements_of(nodes, existing, n - 1);
        let node = nodes[n - 1];
        if node.dep_path is Some && node.pkg_dir is Some && existing.contains(node.pkg_dir->0) {
            recorded(rest, node.dep_path->0, node.pkg_dir->0)
        } else {
            rest
        }
    }
}

impl HoistedPlacements {
    /// The keys, in order.
    pub closed spec fn keys(self) -> Seq<Seq<char>> {
        self.by_dep_path.keys()
    }

    /// No placements.
    pub fn new() -> (r: HoistedPlacements)
        ensures
            r@ == Map::<Seq<char>, Seq<Seq<Seq<char>>>>::empty(),
    {
        let r = HoistedPlacements { by_dep_path: StrMap::new() };
        proof {
            assert(r@ =~= Map::<Seq<char>, Seq<Seq<Seq<char>>>>::empty());
        }
        r
    }

    /// The placements that were recorded when the tree was linked.
    pub fn from_package_dirs(by_dep_path: StrMap<Vec<FsPath>>) -> (r: HoistedPlacements)
        ensures
            r@ == by_dep_path@.map_values(|v: Vec<FsPath>| path_views(v@)),
            r.keys() == by_dep_path.keys(),
    {
        HoistedPlacements { by_dep_path }
    }

    /// The canonical directory of a package: the shallowest that was recorded,
    /// and of several as shallow the first.
    pub fn package_dir(&self, dep_path: &str) -> (r: Option<&FsPath>)
        ensures
            match r {
                Some(p) => exists|i: int|
                    0 <= i < dirs_of(self@, dep_path@).len() && p@ == dirs_of(self@, dep_path@)[i] && (
                    #[trigger] is_shallowest(dirs_of(self@, dep_path@), i)),
                None => dirs_of(self@, dep_path@).len() == 0,
            },
    {
        let dirs = match self.by_dep_path.get(dep_path) {
            Some(dirs) => dirs,
            None => {
                return None;
            },
        };
        if dirs.len() == 0 {
            return None;
        }
        let ghost all = path_views(dirs@);
        let mut best: usize = 0;
        let mut i: usize = 1;
        while i < dirs.len()
            invariant
                0 <= best < i <= dirs@.len(),
                all == path_views(dirs@),
                is_shallowest(all.take(i as int), best as int),
            decreases dirs.len() - i,
        {
            if dirs[i].depth() < dirs[best].depth() {
                best = i;
            }
            i += 1;
        }
        proof {
            assert(self@[dep_path@] =~= all);
            assert(all.take(i as int) =~= all);
            assert(dirs_of(self@, dep_path@) == all);
            assert(is_shallowest(dirs_of(self@, dep_path@), best as int));
        }
        Some(&dirs[best])
    }

    /// Every directory that holds a copy of a package.
    pub fn all_package_dirs(&self, dep_path: &str) -> (r: &[FsPath])
        ensures
            path_views(r@) == dirs_of(self@, dep_path@),
    {
        match self.by_dep_path.get(dep_path) {
            Some(dirs) => dirs.as_slice(),
            None => {
                let none: &[FsPath] = &[];
                proof {
                    assert(path_views(none@) =~= Seq::<Seq<Seq<char>>>::empty());
                }
                none
            },
        }
    }

    /// Every key with each of its directories, in the order of the keys.
    pub fn iter(&self) -> (r: Vec<(&str, &FsPath)>)
        ensures
            pair_views(r@) == flattened(self.keys(), self@),
            crate::str_map::increasing(self.keys()),
            self.keys().to_set() == self@.dom(),
    {
        let mut out: Vec<(&str, &FsPath)> = Vec::new();
        let total = self.by_dep_path.len();
        let ghost keys = self.keys();
        let mut i: usize = 0;
        proof {
            assert(keys.take(0) =~= Seq::<Seq<char>>::empty());
            assert(pair_views(out@) =~= flattened(keys.take(0), self@));
            assert(keys.to_set() =~= self@.dom());
        }
        while i < total
            invariant
                i <= total,
                total == self.by_dep_path.keys().len(),
                keys == self.keys(),
                pair_views(out@) == flattened(keys.take(i as int), self@),
            decreases total - i,
        {
            let key = self.by_dep_path.key_at(i);
            let dirs = self.by_dep_path.value_at(i);
            let ghost done = flattened(keys.take(i as int), self@);
            let ghost all = path_views(dirs@);
            proof {
                assert(keys.take(i + 1).drop_last() =~= keys.take(i as int));
                assert(keys.take(i + 1).last() == key@);
                assert(self@[key@] == all);
                assert(done + paired(key@, all.take(0)) =~= done);
            }
            let mut j: usize = 0;
            while j < dirs.len()
                invariant
                    j <= dirs@.len(),
                    all == path_views(dirs@),
                    pair_views(out@) == done + paired(key@, all.take(j as int)),
                decreases dirs.len() - j,
            {
                let ghost was = out@;
                out.push((key, &dirs[j]));
                j += 1;
                proof {
                    let v = (key@, dirs@[j - 1]@);
                    assert(pair_views(out@) =~= pair_views(was).push(v));
                    assert(paired(key@, all.take(j as int)) =~= paired(key@, all.take(j - 1)).push(v));
                    assert(done + paired(key@, all.take(j as int)) =~= (done + paired(key@, all.take(j - 1))).push(
                        v,
                    ));
                }
            }
            proof {
                assert(all.take(j as int) =~= all);
            }
            i += 1;
        }
        proof {
            assert(keys.take(i as int) =~= keys);
        }
        out
    }

    /// Record one more directory for a package.
    pub fn record(&mut self, dep_path: &str, path: FsPath)
        ensures
            final(self)@ == recorded(old(self)@, dep_path@, path@),
    {
        let ghost was = self@;
        let ghost dir = path@;
        let mut dirs = match self.by_dep_path.remove(dep_path) {
            Some(dirs) => dirs,
            None => Vec::new(),
        };
        let ghost prior = dirs@;
        dirs.push(path);
        proof {
            assert(path_views(prior) =~= dirs_of(was, dep_path@));
            assert(path_views(dirs@) =~= path_views(prior).push(dir));
        }
        self.by_dep_path.insert(dep_path.to_owned(), dirs);
        proof {
            assert(self@ =~= recorded(was, dep_path@, dir));
        }
    }

    /// The placements of a plan, as far as their directories exist.
    pub fn from_plan(plan: &PlacementPlan, existing: &Vec<FsPath>) -> (r: HoistedPlacements)
        ensures
            r@ == placements_of(plan@.nodes, path_views(existing@).to_set(), plan@.nodes.len() as int),
    {
        let mut out = HoistedPlacements::new();
        let mut i: usize = 0;
        while i < plan.nodes.len()
            invariant
                i <= plan.nodes@.len(),
                out@ == placements_of(plan@.nodes, path_views(existing@).to_set(), i as int),
            decreases plan.nodes.len() - i,
        {
            let node = &plan.nodes[i];
            proof {
                assert(plan@.nodes[i as int] == node@);
            }
            if let Some(dep_path) = &node.dep_path {
                if let Some(pkg_dir) = &node.pkg_dir {
                    if holds_path(existing, pkg_dir) {
                        out.record(dep_path.as_str(), pkg_dir.copy());
                    }
                }
            }
            i += 1;
        }
        out
    }

    /// The placements that the planner gives for a graph, as far as their
    /// directories are among `existing`.
    pub fn from_graph(
        root_dir: &FsPath,
        graph: &LockfileGraph,
        modules_dir_name: &str,
        limits: HoistingLimits,
        refused: &StrSet,
        existing: &Vec<FsPath>,
    ) -> (r: Result<HoistedPlacements, PlanError>)
        ensures
            ({
                let root_nm = path_joined(root_dir@, modules_dir_name@);
                let views = physical_importers(
                    root_dir@,
                    graph.importers,
                    modules_dir_name@,
                    graph.importers.keys().len() as int,
                );
                let ctx = workspace_context(root_nm, views, *graph, limits, refused@);
                let start = workspace_start(root_nm, views, *graph, limits);
                match r {
                    Ok(p) => exists|plan: PlanView| #[trigger]
                        plans(ctx, start, plan) && p@ == placements_of(
                            plan.nodes,
                            path_views(existing@).to_set(),
                            plan.nodes.len() as int,
                        ),
                    Err(PlanError::RefusedName(name)) => stops_at(ctx, start, name@),
                }
            }),
    {
        match plan_graph(root_dir, graph, modules_dir_name, limits, refused) {
            Ok(plan) => Ok(HoistedPlacements::from_plan(&plan, existing)),
            Err(e) => Err(e),
        }
    }
}

/// Whether a list holds a path.
pub fn holds_path(list: &Vec<FsPath>, path: &FsPath) -> (r: bool)
    ensures
        r == path_views(list@).to_set().contains(path@),
{
    let mut i: usize = 0;
    while i < list.len()
        invariant
            i <= list@.len(),
            forall|j: int| 0 <= j < i ==> (#[trigger] list@[j])@ != path@,
        decreases list.len() - i,
    {
        if list[i].same(path) {
            proof {
                assert(path_views(list@)[i as int] == path@);
            }
            return true;
        }
        i += 1;
    }
    proof {
        assert forall|j: int| 0 <= j < path_views(list@).len() implies path_views(list@)[j] != path@ by {
            assert(path_views(list@)[j] == list@[j]@);
        }
    }
    false
}

/// Recording a directory leaves the other packages alone, and puts it behind
/// those that its own package has.
pub proof fn law_record_appends(
    m: Map<Seq<char>, Seq<Seq<Seq<char>>>>,
    dep_path: Seq<char>,
    dir: Seq<Seq<char>>,
    other: Seq<char>,
)
    ensures
        dirs_of(recorded(m, dep_path, dir), dep_path) == dirs_of(m, dep_path).push(dir),
        other != dep_path ==> dirs_of(recorded(m, dep_path, dir), other) == dirs_of(m, other),
{
}

} // verus!
