//! What carrying out a plan does, node by node.
use crate::fs_path::{path_joined, path_parent};
use crate::graph::{Importer, LocalSource, LockfileGraph};
use crate::hoisted::materialize::{after_node, file_parents, link_target, node_kind, top_level_count, NodeStep};
use crate::hoisted::placements::{dirs_of, placements_of};
use crate::hoisted::plan::{NodeView, PlanView};
use crate::hoisted::planner::ImporterView;
use crate::hoisted::workspace::{importer_dir, physical_importers};
use crate::path_laws::is_name;
use crate::str_map::{lemma_entry, lemma_key_index, StrMap};
use vstd::prelude::*;

verus! {

/// A node of a package that the graph has is put in place: as a link where the
/// package is a live link, else with its files. Importers, and packages that the
/// graph lacks, are passed over.
pub proof fn law_nodes_are_put_in_place_by_source(node: NodeView, graph: LockfileGraph)
    ensures
        node.dep_path is None ==> node_kind(node, graph) is Pass,
        node.dep_path is Some && !graph.packages@.contains_key(node.dep_path->0) ==> node_kind(node, graph) is Pass,
        node.dep_path is Some && node.pkg_dir is Some && graph.packages@.contains_key(node.dep_path->0) ==> {
            let source = graph.packages@[node.dep_path->0].local_source;
            &&& source matches Some(LocalSource::Link(_)) ==> node_kind(node, graph) is Link
            &&& source is None ==> node_kind(node, graph) is Package
            &&& source matches Some(LocalSource::Directory(_)) ==> node_kind(node, graph) is Package
            &&& source matches Some(LocalSource::Portal(_)) ==> node_kind(node, graph) is Package
            &&& source matches Some(LocalSource::Other) ==> node_kind(node, graph) is Package
        },
{
}

/// A package's step names the package, the name that the registry knows it by, its
/// version, its integrity and the directory that the plan has for it; a link's
/// leads to the directory that the source names, from the root, and stands where
/// the plan has it.
pub proof fn law_step_is_that_of_its_node(step: NodeStep, node: NodeView, graph: LockfileGraph, root: Seq<Seq<char>>)
    requires
        step.is_for(node, graph, root),
    ensures
        step matches NodeStep::Package(s) ==> {
            let pkg = graph.packages@[node.dep_path->0];
            &&& Some(s.dep_path@) == node.dep_path && Some(s.pkg_dir@) == node.pkg_dir
            &&& s.registry_name@ == (match pkg.alias_of {
                Some(target) => target@,
                None => pkg.name@,
            })
            &&& s.version@ == pkg.version@
            &&& pkg.integrity is Some ==> s.integrity is Some && s.integrity->0@ == pkg.integrity->0@
            &&& pkg.integrity is None ==> s.integrity is None
        },
        step matches NodeStep::Link(s) ==> {
            let pkg = graph.packages@[node.dep_path->0];
            &&& Some(s.dep_path@) == node.dep_path && Some(s.pkg_dir@) == node.pkg_dir
            &&& pkg.local_source matches Some(LocalSource::Link(rel)) && s.target@ == link_target(
                s.pkg_dir@,
                root,
                rel@,
            )
            &&& s.parent matches Some(p) ==> path_parent(s.pkg_dir@) == Some(p@)
            &&& s.parent is None ==> path_parent(s.pkg_dir@) is None
        },
        step is Pass ==> node.dep_path is None || node.pkg_dir is None || !graph.packages@.contains_key(
            node.dep_path->0,
        ),
{
}

/// A link into the root's own directory leads there from where the link stands,
/// where neither place has anything to resolve.
pub proof fn law_link_leads_to_its_source(
    dir: Seq<Seq<char>>,
    name: Seq<char>,
    root: Seq<Seq<char>>,
    rel: Seq<char>,
)
    requires
        is_name(name),
        crate::fs_path::path_wf(dir),
        crate::fs_path::path_wf(path_joined(root, rel)),
        crate::relative::absolute(dir),
        crate::relative::absolute(path_joined(root, rel)),
        crate::relative::no_dots(dir),
        !path_joined(root, rel).contains(crate::fs_path::dot_part()),
    ensures
        link_target(dir.push(name), root, rel) == crate::relative::way(path_joined(root, rel), dir),
{
    let target = path_joined(root, rel);
    crate::path_laws::law_joined_name_lies_in_the_directory(dir, name);
    assert(path_parent(dir.push(name)) == Some(dir));
    crate::relative::law_relative_path_is_the_way(target, dir);
}

/// The directories that are made for a package are its own and those that its
/// files lie in, and no others.
pub proof fn law_directories_are_made_for_the_files(
    pkg_dir: Seq<Seq<char>>,
    files: Seq<Seq<char>>,
    n: int,
    dir: Seq<Seq<char>>,
)
    requires
        0 <= n <= files.len(),
    ensures
        file_parents(pkg_dir, files, n).contains(dir) <==> dir == pkg_dir || exists|i: int|
            0 <= i < n && path_parent(path_joined(pkg_dir, #[trigger] files[i])) == Some(dir),
    decreases n,
{
    if n > 0 {
        law_directories_are_made_for_the_files(pkg_dir, files, n - 1, dir);
        if path_parent(path_joined(pkg_dir, files[n - 1])) == Some(dir) {
            assert(path_parent(path_joined(pkg_dir, files[n - 1])) == Some(dir));
        }
    }
}

/// A directory is recorded for a package exactly where a node of the plan has the
/// package in it and it is there.
pub proof fn law_placements_are_what_is_there(
    nodes: Seq<NodeView>,
    existing: Set<Seq<Seq<char>>>,
    n: int,
    dep_path: Seq<char>,
    dir: Seq<Seq<char>>,
)
    requires
        0 <= n <= nodes.len(),
    ensures
        dirs_of(placements_of(nodes, existing, n), dep_path).contains(dir) <==> existing.contains(dir) && exists|i: int|
            0 <= i < n && (#[trigger] nodes[i]).dep_path == Some(dep_path) && nodes[i].pkg_dir == Some(dir),
    decreases n,
{
    if n > 0 {
        law_placements_are_what_is_there(nodes, existing, n - 1, dep_path, dir);
        let node = nodes[n - 1];
        let was = dirs_of(placements_of(nodes, existing, n - 1), dep_path);
        let now = dirs_of(placements_of(nodes, existing, n), dep_path);
        if was.contains(dir) {
            let k = choose|k: int| 0 <= k < was.len() && was[k] == dir;
            assert(now[k] == dir);
        }
        if now.contains(dir) && !was.contains(dir) {
            let k = choose|k: int| 0 <= k < now.len() && now[k] == dir;
            if k < was.len() {
                assert(was[k] == dir);
            }
            assert(nodes[n - 1].dep_path == Some(dep_path));
        }
        if existing.contains(dir) && node.dep_path == Some(dep_path) && node.pkg_dir == Some(dir) {
            assert(now[now.len() - 1] == dir);
        }
    }
}

/// Putting a node in place records its directory behind those of its package and
/// leaves the other packages alone; a node that is passed over changes nothing.
pub proof fn law_node_is_recorded(
    before: Map<Seq<char>, Seq<Seq<Seq<char>>>>,
    node: NodeView,
    graph: LockfileGraph,
    other: Seq<char>,
)
    ensures
        node.dep_path is Some && node.pkg_dir is Some && graph.packages@.contains_key(node.dep_path->0) ==> {
            let now = after_node(before, node, graph);
            let p = node.dep_path->0;
            &&& now.contains_key(p)
            &&& now[p].len() > 0 && now[p].last() == node.pkg_dir->0
            &&& before.contains_key(p) ==> now[p].drop_last() == before[p]
            &&& !before.contains_key(p) ==> now[p].len() == 1
            &&& other != p ==> now.contains_key(other) == before.contains_key(other)
            &&& other != p && before.contains_key(other) ==> now[other] == before[other]
        },
        node.dep_path is None ==> after_node(before, node, graph) == before,
        node.dep_path is Some && !graph.packages@.contains_key(node.dep_path->0) ==> after_node(before, node, graph)
            == before,
{
    if node.dep_path is Some && node.pkg_dir is Some && graph.packages@.contains_key(node.dep_path->0) {
        let now = after_node(before, node, graph);
        let p = node.dep_path->0;
        assert(now[p].drop_last() =~= dirs_of(before, p));
    }
}

/// The entries at the top are counted importer by importer.
pub proof fn law_top_level_is_counted_by_importer(plan: PlanView, n: int)
    requires
        0 <= n < plan.importers.len(),
    ensures
        top_level_count(plan, 0) == 0,
        top_level_count(plan, n + 1) - top_level_count(plan, n)
            == plan.nodes[plan.importers[n]].children.dom().len(),
{
}

/// The root's own project lies in the root; every other at its path from there,
/// tidied.
pub proof fn law_projects_lie_at_their_paths(root: Seq<Seq<char>>, path: Seq<char>)
    ensures
        importer_dir(root, seq!['.']) == root,
        path != seq!['.'] ==> importer_dir(root, path) == crate::fs_path::normalized(path_joined(root, path)),
{
}

proof fn lemma_physical(
    root: Seq<Seq<char>>,
    importers: StrMap<Importer>,
    modules: Seq<char>,
    n: int,
    k: int,
) -> (i: int)
    requires
        0 <= n <= importers.keys().len(),
        0 <= k < physical_importers(root, importers, modules, n).len(),
    ensures
        0 <= i < n,
        importers.values()[i].physical,
        physical_importers(root, importers, modules, n)[k] == (ImporterView {
            modules_dir: path_joined(importer_dir(root, importers.keys()[i]), modules),
            dependencies: importers.values()[i].dependencies@,
        }),
    decreases n,
{
    if n <= 0 {
        0
    } else {
        let rest = physical_importers(root, importers, modules, n - 1);
        if k < rest.len() {
            lemma_physical(root, importers, modules, n - 1, k)
        } else {
            n - 1
        }
    }
}

proof fn lemma_physical_at(root: Seq<Seq<char>>, importers: StrMap<Importer>, modules: Seq<char>, n: int,
    i: int) -> (k: int)
    requires
        0 <= i < n <= importers.keys().len(),
        importers.values()[i].physical,
    ensures
        0 <= k < physical_importers(root, importers, modules, n).len(),
        physical_importers(root, importers, modules, n)[k] == (ImporterView {
            modules_dir: path_joined(importer_dir(root, importers.keys()[i]), modules),
            dependencies: importers.values()[i].dependencies@,
        }),
    decreases n,
{
    let rest = physical_importers(root, importers, modules, n - 1);
    if i == n - 1 {
        rest.len() as int
    } else {
        let k = lemma_physical_at(root, importers, modules, n - 1, i);
        assert(physical_importers(root, importers, modules, n)[k] == rest[k]);
        k
    }
}

/// An importer of the plan is that of a project.
pub open spec fn is_importer_of(
    view: ImporterView,
    root: Seq<Seq<char>>,
    modules: Seq<char>,
    path: Seq<char>,
    importer: Importer,
) -> bool {
    &&& view.dependencies == importer.dependencies@
    &&& path == seq!['.'] ==> view.modules_dir == path_joined(root, modules)
    &&& path != seq!['.'] ==> view.modules_dir == path_joined(
        crate::fs_path::normalized(path_joined(root, path)),
        modules,
    )
}

/// The projects that have a directory of their own are planned for, each with its
/// direct dependencies, and no others are.
pub proof fn law_projects_with_directories_are_planned_for(
    root: Seq<Seq<char>>,
    importers: StrMap<Importer>,
    modules: Seq<char>,
    path: Seq<char>,
    k: int,
)
    requires
        importers.wf(),
    ensures
        importers@.contains_key(path) && importers@[path].physical ==> exists|j: int|
            0 <= j < physical_importers(root, importers, modules, importers.keys().len() as int).len()
                && is_importer_of(
                #[trigger] physical_importers(root, importers, modules, importers.keys().len() as int)[j],
                root,
                modules,
                path,
                importers@[path],
            ),
        0 <= k < physical_importers(root, importers, modules, importers.keys().len() as int).len() ==> exists|p: Seq<
            char,
        >| #[trigger]
            importers@.contains_key(p) && importers@[p].physical && is_importer_of(
                physical_importers(root, importers, modules, importers.keys().len() as int)[k],
                root,
                modules,
                p,
                importers@[p],
            ),
{
    let n = importers.keys().len() as int;
    let all = physical_importers(root, importers, modules, n);
    if importers@.contains_key(path) && importers@[path].physical {
        let i = lemma_key_index(importers, path);
        let j = lemma_physical_at(root, importers, modules, n, i);
        assert(is_importer_of(all[j], root, modules, path, importers@[path]));
    }
    if 0 <= k < all.len() {
        let i = lemma_physical(root, importers, modules, n, k);
        lemma_entry(importers, i);
        let p = importers.keys()[i];
        assert(importers@.contains_key(p));
        assert(is_importer_of(all[k], root, modules, p, importers@[p]));
    }
}

} // verus!
