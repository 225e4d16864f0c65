//! What packages, files and failures are called.
use crate::embedder::Embedder;
use crate::fetch::exact::missing_version;
use crate::fs_path::path_joined;
use crate::graph::{edge_dep_path, DependencyEdge, LocalSource, LockedPackage, LockfileGraph};
use crate::hoisted::materialize::names_children;
use crate::hoisted::placements::is_shallowest;
use crate::hoisted::plan::{NodeView, PlanView};
use crate::install::run::no_lockfile_text;
use crate::lockfile_policy::{report, report_line, ViolationView};
use crate::state::layout::shared_packages;
use crate::state::model::{FileMeta, FreshnessState};
use crate::state::settings_files::files_of;
use crate::state::verdict::state_refreshed;
use crate::text::{decimal_text, joined_text, texts};
use vstd::prelude::*;

verus! {

/// A dependency stands for the package that it names whole; one that names none
/// stands for that of its own name and of the version behind it.
pub proof fn law_dependency_stands_for_its_package(name: Seq<char>, edge: DependencyEdge)
    ensures
        edge.shared_dep_path matches Some(s) ==> edge_dep_path(name, edge) == s@,
        edge.shared_dep_path is None ==> edge_dep_path(name, edge) == name + "@"@ + edge.tail@,
{
    reveal_strlit("@");
    assert("@"@ =~= seq!['@']);
}

/// The registry knows a package by the name that it is an alias of, else by its own;
/// and of the sources in the project only a live link is a link.
pub proof fn law_package_is_known_by_its_alias(pkg: LockedPackage)
    ensures
        pkg.alias_of matches Some(s) ==> pkg.registry_name_spec() == s@,
        pkg.alias_of is None ==> pkg.registry_name_spec() == pkg.name@,
        pkg.is_link() <==> match pkg.local_source {
            Some(LocalSource::Link(_)) => true,
            _ => false,
        },
{
}

/// The settings of a project are read from the workspace file, from the program's own
/// where it has one, from the registry configuration of the project and of the user,
/// and from the patches, all under their own names.
pub proof fn law_settings_are_read_from_their_files(
    project: Seq<Seq<char>>,
    home: Option<Seq<Seq<char>>>,
    embedder: Embedder,
)
    ensures
        ({
            let f = files_of(project, home, embedder);
            let sidecar = "."@ + embedder.name@ + "-patches.json"@;
            &&& f.pnpm_workspace == path_joined(project, "pnpm-workspace.yaml"@)
            &&& f.project_npmrc == path_joined(project, ".npmrc"@)
            &&& f.patches_dir == path_joined(project, "patches"@)
            &&& f.patches_sidecar == (sidecar, path_joined(project, sidecar))
            &&& f.user_npmrc is Some <==> home is Some
            &&& home matches Some(h) ==> f.user_npmrc == Some(path_joined(h, ".npmrc"@))
            &&& f.own_workspace is Some <==> embedder.workspace_yaml is Some
            &&& embedder.workspace_yaml matches Some(n) ==> f.own_workspace == Some((n@, path_joined(project, n@)))
        }),
{
}

/// Where a lockfile has to be there and none is, the command is named that makes one.
pub proof fn law_missing_lockfile_is_explained(embedder: Embedder)
    ensures
        no_lockfile_text(embedder)
            == "no lockfile found and --frozen-lockfile is set\nhelp: commit pnpm-lock.yaml to your repository, or run `"@
            + joined_text(texts(embedder.command_prefix@), " "@) + " "@ + "install"@
            + " --no-frozen-lockfile` to generate one"@,
{
}

/// The report on a lockfile says how many packages are too young, one entry or several
/// entries, and then names them.
pub proof fn law_report_counts_the_packages(list: Seq<ViolationView>, cutoff: Seq<char>)
    ensures
        list.len() == 1 ==> report(list, cutoff) == "lockfile failed supply-chain policy check ("@ + decimal_text(1)
            + " entr"@ + "y"@ + "):\n"@ + report_line(list[0], cutoff),
        list.len() != 1 ==> ("lockfile failed supply-chain policy check ("@ + decimal_text(list.len()) + " entr"@
            + "ies"@ + "):\n"@).is_prefix_of(report(list, cutoff)),
        forall|v: ViolationView| #[trigger]
            report_line(v, cutoff) == "  "@ + v.name + "@"@ + v.version + " was published at "@ + v.published_at
                + ", within the minimumReleaseAge cutoff ("@ + cutoff + ")"@,
{
    let lines = crate::lockfile_policy::report_lines(list, cutoff);
    if list.len() == 1 {
        assert(lines.len() == 1 && lines[0] == report_line(list[0], cutoff));
        reveal_with_fuel(joined_text, 2);
        assert(joined_text(lines, "\n"@) =~= lines[0]);
    } else {
        let head = "lockfile failed supply-chain policy check ("@ + decimal_text(list.len()) + " entr"@ + "ies"@
            + "):\n"@;
        assert(report(list, cutoff) == head + joined_text(lines, "\n"@));
        assert(report(list, cutoff).take(head.len() as int) =~= head);
        assert(head.is_prefix_of(report(list, cutoff)));
    }
}

/// What is kept of a `node_modules` is what is placed in it: every name once, in order.
pub proof fn law_placed_names_are_kept(names: Seq<String>, node: NodeView, name: Seq<char>)
    requires
        names_children(names, node),
    ensures
        node.children.contains_key(name) <==> exists|i: int| 0 <= i < names.len() && (#[trigger] names[i])@ == name,
        forall|i: int, j: int| 0 <= i < j < names.len() ==> (#[trigger] names[i])@ != (#[trigger] names[j])@,
{
    crate::str_map::lemma_increasing_distinct(texts(names));
    assert(texts(names).len() == names.len());
    assert(node.children.dom().contains(name) <==> texts(names).contains(name)) by {
        assert(texts(names).to_set().contains(name) <==> texts(names).contains(name));
    }
    if texts(names).contains(name) {
        let i = choose|i: int| 0 <= i < texts(names).len() && texts(names)[i] == name;
        assert(names[i]@ == name);
    }
    if exists|i: int| 0 <= i < names.len() && (#[trigger] names[i])@ == name {
        let i = choose|i: int| 0 <= i < names.len() && (#[trigger] names[i])@ == name;
        assert(texts(names)[i] == name);
    }
    assert forall|i: int, j: int| 0 <= i < j < names.len() implies (#[trigger] names[i])@ != (#[trigger] names[j])@ by {
        assert(texts(names)[i] != texts(names)[j]);
    }
}

/// What a package has placed below it lies in its `node_modules`, each under its name.
pub proof fn law_nested_packages_lie_in_node_modules(plan: PlanView, i: int, name: Seq<char>)
    requires
        plan.wf(),
        0 <= i < plan.nodes.len(),
    ensures
        plan.nodes[i].pkg_dir matches Some(d) ==> plan.nodes[i].nm_dir == path_joined(d, "node_modules"@),
        plan.nodes[i].children.contains_key(name) ==> {
            let child = plan.nodes[plan.nodes[i].children[name]];
            child.parent == Some(i) && child.pkg_dir == Some(path_joined(plan.nodes[i].nm_dir, name))
        },
{
    assert(plan.node_wf(i));
}

/// Of the places of a package the one is taken that lies highest, and of those that
/// lie as high the first.
pub proof fn law_highest_place_is_taken(dirs: Seq<Seq<Seq<char>>>, i: int, j: int)
    requires
        0 <= i < dirs.len(),
        0 <= j < dirs.len(),
        is_shallowest(dirs, i),
    ensures
        dirs[i].len() <= dirs[j].len(),
        dirs[i].len() == dirs[j].len() ==> i <= j,
{
    assert(dirs[i].len() <= dirs[j].len());
}

/// A version that the whole document does not hold is named as missing.
pub proof fn law_missing_version_is_named(version: Seq<char>)
    ensures
        missing_version(version) == "version "@ + version + " is missing from the full packument"@,
{
}

/// Refreshing a state records the new size and time of the lockfile where there are
/// any, and the new metadata of the directories that moved; all else stays.
pub proof fn law_refreshing_changes_what_moved(
    s: FreshnessState,
    meta: Option<FileMeta>,
    moved: Map<Seq<char>, Seq<char>>,
    t: FreshnessState,
    i: int,
)
    requires
        state_refreshed(s, meta, moved, t),
    ensures
        t.lockfile_hash == s.lockfile_hash,
        t.package_json_hashes == s.package_json_hashes,
        t.package_json_meta == s.package_json_meta,
        t.member_lockfile_hashes == s.member_lockfile_hashes,
        t.settings_hash == s.settings_hash,
        t.section_filtered == s.section_filtered,
        t.layout == s.layout,
        meta is Some ==> t.lockfile_meta == meta,
        meta is None ==> t.lockfile_meta == s.lockfile_meta,
        t.local_directory_hashes is Some <==> s.local_directory_hashes is Some,
        s.local_directory_hashes matches Some(d) ==> (0 <= i < d.keys().len() ==> {
            let e = t.local_directory_hashes->0;
            &&& e.keys()[i] == d.keys()[i]
            &&& e.values()[i].content_hash@ == d.values()[i].content_hash@
            &&& moved.contains_key(d.keys()[i]) ==> e.values()[i].metadata_hash@ == moved[d.keys()[i]]
            &&& !moved.contains_key(d.keys()[i]) ==> e.values()[i].metadata_hash@ == d.values()[i].metadata_hash@
        }),
{
    if s.local_directory_hashes is Some {
        let e = t.local_directory_hashes->0;
        assert(e.values()[i] == e.values()[i]);
    }
}

/// The packages whose links are recorded are those with an entry that is a link, and
/// that come from a registry or may be shared by every project.
pub proof fn law_shared_packages_are_listed(
    graph: LockfileGraph,
    shareable: Set<Seq<char>>,
    linked: Set<Seq<char>>,
    n: int,
    i: int,
)
    requires
        0 <= n <= graph.packages.keys().len(),
    ensures
        0 <= i < n && linked.contains(graph.packages.keys()[i]) && (graph.packages.values()[i].local_source is None
            || shareable.contains(graph.packages.keys()[i])) ==> shared_packages(graph, shareable, linked, n).contains(
            graph.packages.keys()[i],
        ),
        0 <= i < shared_packages(graph, shareable, linked, n).len() ==> linked.contains(
            shared_packages(graph, shareable, linked, n)[i],
        ),
    decreases n,
{
    if n > 0 {
        let rest = shared_packages(graph, shareable, linked, n - 1);
        let all = shared_packages(graph, shareable, linked, n);
        law_shared_packages_are_listed(graph, shareable, linked, n - 1, i);
        if 0 <= i < n - 1 && rest.contains(graph.packages.keys()[i]) {
            let j = choose|j: int| 0 <= j < rest.len() && rest[j] == graph.packages.keys()[i];
            assert(all[j] == graph.packages.keys()[i]);
        }
        if i == n - 1 && all.len() > rest.len() {
            assert(all[rest.len() as int] == graph.packages.keys()[i]);
        }
        if 0 <= i < rest.len() {
            assert(all[i] == rest[i]);
        }
    }
}

} // verus!
