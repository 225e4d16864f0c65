//! Recording the tree that an install made.
use crate::digest::{hash_bytes, tagged_digest};
use crate::fs_path::{path_joined, path_parent, FsPath};
use crate::graph::{DirectDep, Importer, LocalSource, LockedPackage, LockfileGraph};
use crate::hoisted::materialize::link_source;
use crate::hoisted::placements::{dirs_of, path_views, HoistedPlacements};
use crate::hoisted::plan::HoistingLimits;
use crate::hoisted::workspace::importer_dir;
use crate::relative::{relative_path_or_original, relative_text};
use crate::state::model::{
    InstallHoistingLimits, InstallLayoutMode, InstallLayoutState, InstalledPackageState, LayoutView, PackageView,
};
use crate::str_map::{lemma_all_keys, lemma_first_keys, text_map, StrMap, StrSet};
use crate::text::{same_text, texts};
use vstd::prelude::*;

verus! {

/// How packages are linked.
#[derive(Clone, Copy, Debug, PartialEq, Eq, Structural)]
pub enum NodeLinker {
    Isolated,
    Hoisted,
}

/// A package that lives in the shared store: the directory that its
/// dependencies are linked in, and where those links lead, as far as they can
/// be read.
#[derive(Debug)]
pub struct StoreEntry {
    pub modules_dir: FsPath,
    pub targets: StrMap<String>,
}

/// The tree that is to be recorded.
#[derive(Debug)]
pub struct WriteStateLayout {
    pub node_linker: NodeLinker,
    pub hoisting_limits: HoistingLimits,
    pub modules_dir_name: String,
    pub virtual_store_dir_max_length: usize,
    pub placements: Option<HoistedPlacements>,
    pub use_global_virtual_store: bool,
    /// Where each package was put.
    pub package_dirs: StrMap<FsPath>,
    /// The bytes of each package's manifest, where it can be read.
    pub manifests: StrMap<Vec<u8>>,
    /// The packages with a local source that every project may share.
    pub shareable: StrSet,
    /// The packages whose entry in the project is a link.
    pub linked: StrSet,
    /// What the packages in the shared store link to.
    pub store_entries: StrMap<StoreEntry>,
}

/// The first directory on the way up that has the package under the name.
pub open spec fn visible_entry(
    dirs: Seq<Seq<Seq<char>>>,
    from: Seq<Seq<char>>,
    modules: Seq<char>,
    name: Seq<char>,
) -> Option<Seq<Seq<char>>>
    decreases from.len(),
{
    let candidate = path_joined(path_joined(from, modules), name);
    if dirs.contains(candidate) {
        Some(candidate)
    } else {
        match path_parent(from) {
            Some(p) => visible_entry(dirs, p, modules, name),
            None => None,
        }
    }
}

/// The entry of a direct dependency: the importer's own, or the one further up
/// that module lookup finds.
pub open spec fn direct_entry(layout: WriteStateLayout, dir: Seq<Seq<char>>, dep: DirectDep) -> Seq<Seq<char>> {
    let own = path_joined(path_joined(dir, layout.modules_dir_name@), dep.name@);
    if layout.node_linker is Hoisted && layout.placements is Some {
        match visible_entry(
            dirs_of(layout.placements->0@, dep.dep_path@),
            dir,
            layout.modules_dir_name@,
            dep.name@,
        ) {
            Some(p) => p,
            None => own,
        }
    } else {
        own
    }
}

/// The entries of an importer's direct dependencies, relative to the project.
pub open spec fn importer_entries(
    project: Seq<Seq<char>>,
    layout: WriteStateLayout,
    path: Seq<char>,
    deps: Seq<DirectDep>,
) -> Seq<Seq<char>> {
    deps.map_values(
        |d: DirectDep| relative_text(direct_entry(layout, importer_dir(project, path), d), project),
    )
}

/// The direct entries of every importer.
pub open spec fn all_entries(
    project: Seq<Seq<char>>,
    layout: WriteStateLayout,
    importers: StrMap<Importer>,
) -> Map<Seq<char>, Seq<Seq<char>>> {
    Map::new(
        |path: Seq<char>| importers@.contains_key(path),
        |path: Seq<char>| importer_entries(project, layout, path, importers@[path].dependencies@),
    )
}

/// The root depends on the package.
pub open spec fn root_needs(graph: LockfileGraph, dep_path: Seq<char>) -> bool {
    graph.importers@.contains_key("."@) && exists|i: int|
        0 <= i < graph.importers@["."@].dependencies@.len() && (
        #[trigger] graph.importers@["."@].dependencies@[i]).dep_path@ == dep_path
}

/// Where a package is.
pub open spec fn package_dir(
    project: Seq<Seq<char>>,
    layout: WriteStateLayout,
    dep_path: Seq<char>,
    pkg: LockedPackage,
) -> Seq<Seq<char>> {
    if pkg.is_link() {
        path_joined(project, link_source(pkg))
    } else {
        layout.package_dirs@[dep_path]@
    }
}

/// What is recorded of a package.
pub open spec fn package_record(
    project: Seq<Seq<char>>,
    layout: WriteStateLayout,
    dep_path: Seq<char>,
    pkg: LockedPackage,
) -> PackageView {
    PackageView {
        name: pkg.name@,
        version: pkg.version@,
        package_json_path: relative_text(
            path_joined(package_dir(project, layout, dep_path, pkg), "package.json"@),
            project,
        ),
        package_json_hash: if layout.manifests@.contains_key(dep_path) {
            tagged_digest(layout.manifests@[dep_path]@)
        } else {
            Seq::empty()
        },
        link: pkg.is_link(),
    }
}

/// What is recorded of the packages that the root depends on.
pub open spec fn all_packages(
    project: Seq<Seq<char>>,
    layout: WriteStateLayout,
    graph: LockfileGraph,
) -> Map<Seq<char>, PackageView> {
    Map::new(
        |k: Seq<char>| graph.packages@.contains_key(k) && root_needs(graph, k),
        |k: Seq<char>| package_record(project, layout, k, graph.packages@[k]),
    )
}

/// The links of the first `n` dependencies of a package in the store, over
/// those that came before. None where one of them cannot be read.
pub open spec fn with_store_links(
    known: Map<Seq<char>, Seq<char>>,
    project: Seq<Seq<char>>,
    entry: StoreEntry,
    pkg: LockedPackage,
    n: int,
) -> Option<Map<Seq<char>, Seq<char>>>
    decreases n,
{
    if n <= 0 {
        Some(known)
    } else {
        let name = pkg.dependencies.keys()[n - 1];
        match with_store_links(known, project, entry, pkg, n - 1) {
            None => None,
            Some(m) => if name == pkg.name@ {
                Some(m)
            } else if !entry.targets@.contains_key(name) {
                None
            } else {
                Some(
                    m.insert(
                        relative_text(path_joined(entry.modules_dir@, name), project),
                        entry.targets@[name]@,
                    ),
                )
            },
        }
    }
}

/// The links of the first `n` packages of the graph that live in the store.
pub open spec fn store_links(
    project: Seq<Seq<char>>,
    layout: WriteStateLayout,
    graph: LockfileGraph,
    n: int,
) -> Option<Map<Seq<char>, Seq<char>>>
    decreases n,
{
    if n <= 0 {
        Some(Map::empty())
    } else {
        let key = graph.packages.keys()[n - 1];
        let pkg = graph.packages.values()[n - 1];
        match store_links(project, layout, graph, n - 1) {
            None => None,
            Some(m) => if in_shared_store(graph, layout.shareable@, layout.linked@, n - 1) {
                with_store_links(
                    m,
                    project,
                    layout.store_entries@[key],
                    pkg,
                    pkg.dependencies.keys().len() as int,
                )
            } else {
                Some(m)
            },
        }
    }
}

/// What is recorded of the tree.
pub open spec fn layout_record(
    project: Seq<Seq<char>>,
    layout: WriteStateLayout,
    graph: LockfileGraph,
) -> LayoutView {
    LayoutView {
        linker: match layout.node_linker {
            NodeLinker::Isolated => InstallLayoutMode::Isolated,
            NodeLinker::Hoisted => InstallLayoutMode::Hoisted,
        },
        modules_dir_name: layout.modules_dir_name@,
        hoisting_limits: if layout.node_linker is Hoisted {
            Some(
                match layout.hoisting_limits {
                    HoistingLimits::Unlimited => InstallHoistingLimits::Unlimited,
                    HoistingLimits::Workspaces => InstallHoistingLimits::Workspaces,
                    HoistingLimits::Dependencies => InstallHoistingLimits::Dependencies,
                },
            )
        } else {
            None
        },
        virtual_store_dir_max_length: Some(layout.virtual_store_dir_max_length),
        direct_entries: all_entries(project, layout, graph.importers),
        packages: all_packages(project, layout, graph),
        gvs_nested_links: if layout.use_global_virtual_store && layout.node_linker is Isolated {
            store_links(project, layout, graph, graph.packages.keys().len() as int)
        } else {
            None
        },
    }
}

/// Every package that the root depends on has a directory, unless it is a live
/// link.
pub open spec fn dirs_known(layout: WriteStateLayout, graph: LockfileGraph) -> bool {
    forall|k: Seq<char>| #[trigger]
        graph.packages@.contains_key(k) && root_needs(graph, k) && !graph.packages@[k].is_link()
            ==> layout.package_dirs@.contains_key(k)
}

/// Whether a listing of directories holds a path.
fn dirs_hold(dirs: &[FsPath], path: &FsPath) -> (r: bool)
    ensures
        r == path_views(dirs@).contains(path@),
{
    let mut i: usize = 0;
    while i < dirs.len()
        invariant
            i <= dirs@.len(),
            forall|j: int| 0 <= j < i ==> (#[trigger] dirs@[j])@ != path@,
        decreases dirs.len() - i,
    {
        if dirs[i].same(path) {
            proof {
                assert(path_views(dirs@)[i as int] == path@);
            }
            return true;
        }
        i += 1;
    }
    proof {
        assert forall|j: int| 0 <= j < path_views(dirs@).len() implies path_views(dirs@)[j] != path@ by {
            assert(path_views(dirs@)[j] == dirs@[j]@);
        }
    }
    false
}

fn find_visible(dirs: &[FsPath], from: &FsPath, modules: &str, name: &str) -> (r: Option<FsPath>)
    ensures
        match r {
            Some(p) => visible_entry(path_views(dirs@), from@, modules@, name@) == Some(p@),
            None => visible_entry(path_views(dirs@), from@, modules@, name@) is None,
        },
{
    let mut dir = from.copy();
    loop
        invariant
            visible_entry(path_views(dirs@), from@, modules@, name@) == visible_entry(
                path_views(dirs@),
                dir@,
                modules@,
                name@,
            ),
        decreases dir@.len(),
    {
        let candidate = dir.join(modules).join(name);
        if dirs_hold(dirs, &candidate) {
            return Some(candidate);
        }
        match dir.parent() {
            Some(p) => {
                dir = p;
            },
            None => {
                return None;
            },
        }
    }
}

fn entry_for(layout: &WriteStateLayout, dir: &FsPath, dep: &DirectDep) -> (r: FsPath)
    ensures
        r@ == direct_entry(*layout, dir@, *dep),
{
    if let NodeLinker::Hoisted = layout.node_linker {
        if let Some(placements) = &layout.placements {
            let dirs = placements.all_package_dirs(dep.dep_path.as_str());
            if let Some(p) = find_visible(dirs, dir, layout.modules_dir_name.as_str(), dep.name.as_str()) {
                return p;
            }
        }
    }
    dir.join(layout.modules_dir_name.as_str()).join(dep.name.as_str())
}

fn entries_for(
    project_dir: &FsPath,
    layout: &WriteStateLayout,
    path: &str,
    deps: &Vec<DirectDep>,
) -> (r: Vec<String>)
    ensures
        r.deep_view() == importer_entries(project_dir@, *layout, path@, deps@),
{
    proof {
        reveal_strlit(".");
        assert("."@ =~= crate::fs_path::dot_part());
    }
    let dir = if same_text(path, ".") {
        project_dir.copy()
    } else {
        project_dir.join(path).normalize_lexical()
    };
    let ghost all = importer_entries(project_dir@, *layout, path@, deps@);
    let mut out: Vec<String> = Vec::new();
    let mut i: usize = 0;
    while i < deps.len()
        invariant
            i <= deps@.len(),
            dir@ == importer_dir(project_dir@, path@),
            all == importer_entries(project_dir@, *layout, path@, deps@),
            out@.len() == i,
            forall|j: int| 0 <= j < i ==> (#[trigger] out@[j])@ == all[j],
        decreases deps.len() - i,
    {
        let entry = entry_for(layout, &dir, &deps[i]);
        out.push(relative_path_or_original(&entry, project_dir));
        i += 1;
    }
    proof {
        assert(out.deep_view() =~= all);
    }
    out
}

fn collect_entries(project_dir: &FsPath, layout: &WriteStateLayout, graph: &LockfileGraph) -> (r: StrMap<Vec<String>>)
    ensures
        r.deep_view() == all_entries(project_dir@, *layout, graph.importers),
{
    let ghost all = all_entries(project_dir@, *layout, graph.importers);
    let mut out: StrMap<Vec<String>> = StrMap::new();
    let total = graph.importers.len();
    let mut i: usize = 0;
    proof {
        lemma_all_keys(graph.importers);
    }
    while i < total
        invariant
            i <= total,
            total == graph.importers.keys().len(),
            all == all_entries(project_dir@, *layout, graph.importers),
            forall|k: Seq<char>| #[trigger]
                out.deep_view().contains_key(k) <==> graph.importers.keys().take(i as int).contains(k),
            forall|k: Seq<char>| #[trigger] out.deep_view().contains_key(k) ==> out.deep_view()[k] == all[k],
        decreases total - i,
    {
        let path = graph.importers.key_at(i);
        let importer = graph.importers.value_at(i);
        let ghost was = out.deep_view();
        let entries = entries_for(project_dir, layout, path, &importer.dependencies);
        let ghost v = entries.deep_view();
        out.insert(path.to_owned(), entries);
        proof {
            assert(out.deep_view() =~= was.insert(path@, v));
            lemma_first_keys(graph.importers.keys(), i as int);
        }
        i += 1;
    }
    proof {
        lemma_all_keys(graph.importers);
        assert(out.deep_view() =~= all);
    }
    out
}

/// Whether the root depends on a package.
fn root_has(graph: &LockfileGraph, dep_path: &str) -> (r: bool)
    ensures
        r == root_needs(*graph, dep_path@),
{
    let root = match graph.importers.get(".") {
        None => {
            return false;
        },
        Some(r) => r,
    };
    let mut i: usize = 0;
    while i < root.dependencies.len()
        invariant
            i <= root.dependencies@.len(),
            graph.importers@.contains_key("."@),
            *root == graph.importers@["."@],
            forall|j: int| 0 <= j < i ==> (#[trigger] root.dependencies@[j]).dep_path@ != dep_path@,
        decreases root.dependencies.len() - i,
    {
        if same_text(root.dependencies[i].dep_path.as_str(), dep_path) {
            return true;
        }
        i += 1;
    }
    false
}

fn record_package(
    project_dir: &FsPath,
    layout: &WriteStateLayout,
    dep_path: &str,
    pkg: &LockedPackage,
) -> (r: InstalledPackageState)
    requires
        !pkg.is_link() ==> layout.package_dirs@.contains_key(dep_path@),
    ensures
        r.deep_view() == package_record(project_dir@, *layout, dep_path@, *pkg),
{
    let dir = match &pkg.local_source {
        Some(LocalSource::Link(rel)) => project_dir.join(rel.as_str()),
        _ => match layout.package_dirs.get(dep_path) {
            Some(d) => d.copy(),
            None => project_dir.copy(),
        },
    };
    let manifest = dir.join("package.json");
    let hash = match layout.manifests.get(dep_path) {
        Some(bytes) => hash_bytes(bytes.as_slice()),
        None => String::new(),
    };
    InstalledPackageState {
        name: pkg.name.clone(),
        version: pkg.version.clone(),
        package_json_path: relative_path_or_original(&manifest, project_dir),
        package_json_hash: hash,
        link: pkg.links(),
    }
}

fn collect_packages(project_dir: &FsPath, layout: &WriteStateLayout, graph: &LockfileGraph) -> (r: StrMap<
    InstalledPackageState,
>)
    requires
        dirs_known(*layout, *graph),
    ensures
        r.deep_view() == all_packages(project_dir@, *layout, *graph),
{
    let ghost all = all_packages(project_dir@, *layout, *graph);
    let mut out: StrMap<InstalledPackageState> = StrMap::new();
    let total = graph.packages.len();
    let mut i: usize = 0;
    proof {
        lemma_all_keys(graph.packages);
    }
    while i < total
        invariant
            i <= total,
            total == graph.packages.keys().len(),
            dirs_known(*layout, *graph),
            all == all_packages(project_dir@, *layout, *graph),
            forall|k: Seq<char>| #[trigger]
                out.deep_view().contains_key(k) <==> all.contains_key(k) && graph.packages.keys().take(
                    i as int,
                ).contains(k),
            forall|k: Seq<char>| #[trigger] out.deep_view().contains_key(k) ==> out.deep_view()[k] == all[k],
        decreases total - i,
    {
        let dep_path = graph.packages.key_at(i);
        let pkg = graph.packages.value_at(i);
        let ghost was = out.deep_view();
        if root_has(graph, dep_path) {
            let record = record_package(project_dir, layout, dep_path, pkg);
            let ghost v = record.deep_view();
            out.insert(dep_path.to_owned(), record);
            proof {
                assert(out.deep_view() =~= was.insert(dep_path@, v));
            }
        }
        proof {
            lemma_first_keys(graph.packages.keys(), i as int);
        }
        i += 1;
    }
    proof {
        lemma_all_keys(graph.packages);
        assert(out.deep_view() =~= all);
    }
    out
}

/// Add the links of one package in the store; false where one cannot be read.
fn add_store_links(
    out: &mut StrMap<String>,
    project_dir: &FsPath,
    entry: &StoreEntry,
    pkg: &LockedPackage,
) -> (r: bool)
    ensures
        r == (with_store_links(
            text_map(*old(out)),
            project_dir@,
            *entry,
            *pkg,
            pkg.dependencies.keys().len() as int,
        ) is Some),
        r ==> with_store_links(
            text_map(*old(out)),
            project_dir@,
            *entry,
            *pkg,
            pkg.dependencies.keys().len() as int,
        ) == Some(text_map(*final(out))),
{
    let ghost first = text_map(*out);
    let total = pkg.dependencies.len();
    let mut i: usize = 0;
    while i < total
        invariant
            i <= total,
            total == pkg.dependencies.keys().len(),
            first == text_map(*old(out)),
            with_store_links(first, project_dir@, *entry, *pkg, i as int) == Some(text_map(*out)),
        decreases total - i,
    {
        let name = pkg.dependencies.key_at(i);
        if !same_text(name, pkg.name.as_str()) {
            match entry.targets.get(name) {
                None => {
                    proof {
                        lemma_links_stay_lost(first, project_dir@, *entry, *pkg, i + 1, total as int);
                    }
                    return false;
                },
                Some(target) => {
                    let link = entry.modules_dir.join(name);
                    let ghost was = text_map(*out);
                    let rel = relative_path_or_original(&link, project_dir);
                    let ghost k = rel@;
                    out.insert(rel, target.clone());
                    proof {
                        assert(text_map(*out) =~= was.insert(k, target@));
                    }
                },
            }
        }
        i += 1;
    }
    true
}

/// One link that cannot be read loses them all.
proof fn lemma_links_stay_lost(
    known: Map<Seq<char>, Seq<char>>,
    project: Seq<Seq<char>>,
    entry: StoreEntry,
    pkg: LockedPackage,
    n: int,
    m: int,
)
    requires
        n <= m,
        with_store_links(known, project, entry, pkg, n) is None,
    ensures
        with_store_links(known, project, entry, pkg, m) is None,
    decreases m - n,
{
    if n < m {
        lemma_links_stay_lost(known, project, entry, pkg, n, m - 1);
    }
}

/// One package whose links cannot be read loses them all.
proof fn lemma_store_links_stay_lost(
    project: Seq<Seq<char>>,
    layout: WriteStateLayout,
    graph: LockfileGraph,
    n: int,
    m: int,
)
    requires
        n <= m,
        store_links(project, layout, graph, n) is None,
    ensures
        store_links(project, layout, graph, m) is None,
    decreases m - n,
{
    if n < m {
        lemma_store_links_stay_lost(project, layout, graph, n, m - 1);
    }
}

/// The package's entry lives in the shared store: nothing about it is this
/// project's own, and the project's entry for it is a link.
pub open spec fn in_shared_store(
    graph: LockfileGraph,
    shareable: Set<Seq<char>>,
    linked: Set<Seq<char>>,
    i: int,
) -> bool {
    let key = graph.packages.keys()[i];
    (graph.packages.values()[i].local_source is None || shareable.contains(key)) && linked.contains(key)
}

/// Every package in the shared store comes with what it links to.
pub open spec fn entries_known(layout: WriteStateLayout, graph: LockfileGraph) -> bool {
    forall|i: int|
        #![trigger graph.packages.keys()[i]]
        0 <= i < graph.packages.keys().len() && in_shared_store(graph, layout.shareable@, layout.linked@, i)
            ==> layout.store_entries@.contains_key(graph.packages.keys()[i])
}

/// Whether the entry of a package lives in the shared store.
fn is_in_shared_store(graph: &LockfileGraph, shareable: &StrSet, linked: &StrSet, i: usize) -> (r: bool)
    requires
        i < graph.packages.keys().len(),
    ensures
        r == in_shared_store(*graph, shareable@, linked@, i as int),
{
    let key = graph.packages.key_at(i);
    (graph.packages.value_at(i).local_source.is_none() || shareable.contains(key)) && linked.contains(key)
}

/// Those of the first `n` packages whose entries live in the shared store.
pub open spec fn shared_packages(
    graph: LockfileGraph,
    shareable: Set<Seq<char>>,
    linked: Set<Seq<char>>,
    n: int,
) -> Seq<Seq<char>>
    decreases n,
{
    if n <= 0 {
        Seq::empty()
    } else {
        let rest = shared_packages(graph, shareable, linked, n - 1);
        if in_shared_store(graph, shareable, linked, n - 1) {
            rest.push(graph.packages.keys()[n - 1])
        } else {
            rest
        }
    }
}

/// The packages whose links are recorded: those whose entries live in the
/// shared store, in order. `shareable` holds the packages of a local source that
/// every project may share, `linked` those whose entry is a link. A package that
/// is materialized in the project itself is left out.
pub fn shared_store_packages(graph: &LockfileGraph, shareable: &StrSet, linked: &StrSet) -> (r: Vec<String>)
    ensures
        texts(r@) == shared_packages(*graph, shareable@, linked@, graph.packages.keys().len() as int),
{
    let mut out: Vec<String> = Vec::new();
    let total = graph.packages.len();
    let mut i: usize = 0;
    proof {
        assert(texts(out@) =~= Seq::<Seq<char>>::empty());
    }
    while i < total
        invariant
            i <= total,
            total == graph.packages.keys().len(),
            texts(out@) == shared_packages(*graph, shareable@, linked@, i as int),
        decreases total - i,
    {
        let key = graph.packages.key_at(i);
        let ghost was = out@;
        if is_in_shared_store(graph, shareable, linked, i) {
            out.push(key.to_owned());
            proof {
                assert(texts(out@) =~= texts(was).push(key@));
            }
        }
        i += 1;
    }
    out
}

/// The links inside the packages that live in the shared store. None where one
/// of them cannot be read: what cannot be recorded whole is not recorded.
pub fn collect_gvs_nested_links(
    project_dir: &FsPath,
    layout: &WriteStateLayout,
    graph: &LockfileGraph,
) -> (r: Option<StrMap<String>>)
    requires
        entries_known(*layout, *graph),
    ensures
        match r {
            Some(m) => store_links(project_dir@, *layout, *graph, graph.packages.keys().len() as int) == Some(
                text_map(m),
            ),
            None => store_links(project_dir@, *layout, *graph, graph.packages.keys().len() as int) is None,
        },
{
    let mut out: StrMap<String> = StrMap::new();
    let total = graph.packages.len();
    let mut i: usize = 0;
    proof {
        assert(text_map(out) =~= Map::<Seq<char>, Seq<char>>::empty());
    }
    while i < total
        invariant
            i <= total,
            total == graph.packages.keys().len(),
            entries_known(*layout, *graph),
            store_links(project_dir@, *layout, *graph, i as int) == Some(text_map(out)),
        decreases total - i,
    {
        let dep_path = graph.packages.key_at(i);
        let pkg = graph.packages.value_at(i);
        if is_in_shared_store(graph, &layout.shareable, &layout.linked, i) {
            if let Some(entry) = layout.store_entries.get(dep_path) {
                if !add_store_links(&mut out, project_dir, entry, pkg) {
                    proof {
                        lemma_store_links_stay_lost(project_dir@, *layout, *graph, i + 1, total as int);
                    }
                    return None;
                }
            }
        }
        i += 1;
    }
    Some(out)
}

impl InstallLayoutState {
    /// What is recorded of the tree that an install made.
    pub fn from_graph(project_dir: &FsPath, layout: &WriteStateLayout, graph: &LockfileGraph) -> (r:
        InstallLayoutState)
        requires
            dirs_known(*layout, *graph),
            layout.use_global_virtual_store && layout.node_linker is Isolated ==> entries_known(*layout, *graph),
        ensures
            r.deep_view() == layout_record(project_dir@, *layout, *graph),
    {
        let linker = match layout.node_linker {
            NodeLinker::Isolated => InstallLayoutMode::Isolated,
            NodeLinker::Hoisted => InstallLayoutMode::Hoisted,
        };
        let hoisting_limits = match layout.node_linker {
            NodeLinker::Isolated => None,
            NodeLinker::Hoisted => Some(
                match layout.hoisting_limits {
                    HoistingLimits::Unlimited => InstallHoistingLimits::Unlimited,
                    HoistingLimits::Workspaces => InstallHoistingLimits::Workspaces,
                    HoistingLimits::Dependencies => InstallHoistingLimits::Dependencies,
                },
            ),
        };
        let isolated = match layout.node_linker {
            NodeLinker::Isolated => true,
            NodeLinker::Hoisted => false,
        };
        let gvs_nested_links = if layout.use_global_virtual_store && isolated {
            collect_gvs_nested_links(project_dir, layout, graph)
        } else {
            None
        };
        proof {
            if gvs_nested_links is Some {
                assert(gvs_nested_links->0.deep_view() =~= text_map(gvs_nested_links->0));
            }
        }
        InstallLayoutState {
            linker,
            modules_dir_name: layout.modules_dir_name.clone(),
            hoisting_limits,
            virtual_store_dir_max_length: Some(layout.virtual_store_dir_max_length),
            direct_entries: collect_entries(project_dir, layout, graph),
            packages: collect_packages(project_dir, layout, graph),
            gvs_nested_links,
        }
    }
}

/// The importer's own entry is recorded unless the tree is hoisted and a
/// directory further up, or the same, has the package.
pub proof fn law_isolated_entries_are_the_importers_own(
    layout: WriteStateLayout,
    dir: Seq<Seq<char>>,
    dep: DirectDep,
)
    requires
        layout.node_linker is Isolated || layout.placements is None,
    ensures
        direct_entry(layout, dir, dep) == path_joined(path_joined(dir, layout.modules_dir_name@), dep.name@),
{
}

/// In a hoisted tree the recorded entry is one of the package's directories
/// wherever module lookup from the importer finds one.
pub proof fn law_hoisted_entry_is_a_placement(
    layout: WriteStateLayout,
    dir: Seq<Seq<char>>,
    dep: DirectDep,
)
    requires
        layout.node_linker is Hoisted,
        layout.placements is Some,
        visible_entry(
            dirs_of(layout.placements->0@, dep.dep_path@),
            dir,
            layout.modules_dir_name@,
            dep.name@,
        ) is Some,
    ensures
        dirs_of(layout.placements->0@, dep.dep_path@).contains(direct_entry(layout, dir, dep)),
{
    lemma_visible_is_listed(
        dirs_of(layout.placements->0@, dep.dep_path@),
        dir,
        layout.modules_dir_name@,
        dep.name@,
    );
}

proof fn lemma_visible_is_listed(
    dirs: Seq<Seq<Seq<char>>>,
    from: Seq<Seq<char>>,
    modules: Seq<char>,
    name: Seq<char>,
)
    ensures
        visible_entry(dirs, from, modules, name) matches Some(p) ==> dirs.contains(p),
    decreases from.len(),
{
    if !dirs.contains(path_joined(path_joined(from, modules), name)) {
        match path_parent(from) {
            Some(p) => lemma_visible_is_listed(dirs, p, modules, name),
            None => {},
        }
    }
}

} // verus!
