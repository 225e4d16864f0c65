//! What is left of a graph once it is narrowed to what is installed.
use crate::graph::{DepType, DirectDep, Importer, LockedPackage, LockfileGraph};
use crate::install::selection::{
    is_narrowed, is_needed, is_pruned, is_root, is_way, kept_deps, law_kept_dependencies_are_there,
        law_kept_packages_are_complete,
    leads_to, needs, DepSelection,
};
use vstd::prelude::*;

verus! {

/// Filtering the longer list adds what its last element adds.
proof fn lemma_filter_push(all: Seq<DirectDep>, n: int, keep: spec_fn(DirectDep) -> bool)
    requires
        0 < n <= all.len(),
    ensures
        all.take(n).filter(keep) == if keep(all[n - 1]) {
            all.take(n - 1).filter(keep).push(all[n - 1])
        } else {
            all.take(n - 1).filter(keep)
        },
{
    reveal(Seq::filter);
    assert(all.take(n).drop_last() =~= all.take(n - 1));
    assert(all.take(n).last() == all[n - 1]);
}

proof fn lemma_kept_is_filter(all: Seq<DirectDep>, selection: DepSelection, n: int, keep: spec_fn(DirectDep) -> bool)
    requires
        0 <= n <= all.len(),
        forall|d: DirectDep| #[trigger] keep(d) == selection.keeps_spec(d.dep_type),
    ensures
        kept_deps(all, selection, n) == all.take(n).filter(keep),
    decreases n,
{
    if n > 0 {
        lemma_kept_is_filter(all, selection, n - 1, keep);
        lemma_filter_push(all, n, keep);
    } else {
        reveal(Seq::filter);
        assert(all.take(0).len() == 0);
    }
}

/// Of an importer's direct dependencies those stay that are asked for, in the
/// order they were in. With the optional ones left out no optional one stays,
/// whatever else is asked for; with production alone none for development; with
/// development alone none but those. All others stay.
pub proof fn law_direct_dependencies_asked_for_stay(importer: Importer, selection: DepSelection, r: Importer)
    requires
        if selection.filters() {
            is_narrowed(importer, selection, r)
        } else {
            r == importer
        },
    ensures
        selection.skip_optional ==> forall|i: int|
            0 <= i < r.dependencies@.len() ==> (#[trigger] r.dependencies@[i]).dep_type != DepType::Optional,
        selection.prod_only ==> forall|i: int|
            0 <= i < r.dependencies@.len() ==> (#[trigger] r.dependencies@[i]).dep_type != DepType::Dev,
        selection.dev_only ==> forall|i: int|
            0 <= i < r.dependencies@.len() ==> (#[trigger] r.dependencies@[i]).dep_type == DepType::Dev,
        r.dependencies@ == importer.dependencies@.filter(
            |d: DirectDep|
                match d.dep_type {
                    DepType::Production => !selection.dev_only,
                    DepType::Dev => !selection.prod_only,
                    DepType::Optional => !selection.dev_only && !selection.skip_optional,
                },
        ),
        r.physical == importer.physical,
{
    let all = importer.dependencies@;
    let keep = |d: DirectDep|
        match d.dep_type {
            DepType::Production => !selection.dev_only,
            DepType::Dev => !selection.prod_only,
            DepType::Optional => !selection.dev_only && !selection.skip_optional,
        };
    lemma_kept_is_filter(all, selection, all.len() as int, keep);
    assert(all.take(all.len() as int) =~= all);
    if !selection.filters() {
        lemma_keep_all(all, selection, all.len() as int);
    }
    assert forall|i: int| 0 <= i < r.dependencies@.len() implies keep(#[trigger] r.dependencies@[i]) by {
        broadcast use vstd::seq_lib::group_filter_ensures;

        assert(all.filter(keep).contains(r.dependencies@[i]));
    }
}

proof fn lemma_keep_all(all: Seq<DirectDep>, selection: DepSelection, n: int)
    requires
        0 <= n <= all.len(),
        !selection.filters(),
    ensures
        kept_deps(all, selection, n) == all.take(n),
    decreases n,
{
    if n > 0 {
        lemma_keep_all(all, selection, n - 1);
        assert(all.take(n) =~= all.take(n - 1).push(all[n - 1]));
    } else {
        assert(all.take(0) =~= Seq::<DirectDep>::empty());
    }
}

/// The package declares the dependency `name`, which stands for `target`.
pub open spec fn declared_by(pkg: LockedPackage, name: Seq<char>, target: Seq<char>) -> bool {
    pkg.dependencies@.contains_key(name) && target == (match pkg.dependencies@[name].shared_dep_path {
        Some(shared) => shared@,
        None => name + seq!['@'] + pkg.dependencies@[name].tail@,
    })
}

/// The package is a direct dependency of an importer.
pub open spec fn is_direct(r: LockfileGraph, importer: Seq<char>, i: int, k: Seq<char>) -> bool {
    r.importers@.contains_key(importer) && 0 <= i < r.importers@[importer].dependencies@.len()
        && r.importers@[importer].dependencies@[i].dep_path@ == k
}

/// Nothing is kept without need: a package that is kept is a direct dependency
/// of an importer, or another that is kept declares it.
pub proof fn law_kept_packages_are_needed(
    packages: Map<Seq<char>, LockedPackage>,
    r: LockfileGraph,
    k: Seq<char>,
)
    requires
        is_pruned(packages, r),
        r.packages@.contains_key(k),
    ensures
        packages.contains_key(k) && r.packages@[k] == packages[k],
        (exists|importer: Seq<char>, i: int| #[trigger] is_direct(r, importer, i, k)) || (exists|
            a: Seq<char>,
            name: Seq<char>,
        | r.packages@.contains_key(a) && #[trigger] declared_by(r.packages@[a], name, k)),
{
    let roots = Set::new(|x: Seq<char>| is_root(r.importers@, x));
    assert(is_needed(packages, r.importers@, k));
    let way = choose|way: Seq<Seq<char>>| #[trigger] leads_to(packages, roots, way, k);
    if way.len() == 1 {
        assert(is_root(r.importers@, k));
        let (importer, i) = choose|name: Seq<char>, i: int|
            r.importers@.contains_key(name) && 0 <= i < r.importers@[name].dependencies@.len() && (
            #[trigger] r.importers@[name].dependencies@[i]).dep_path@ == k;
        assert(is_direct(r, importer, i, k));
    } else {
        let a = way[way.len() - 2];
        let part = way.drop_last();
        assert(needs(packages, way[way.len() - 2], way[way.len() - 2 + 1]));
        assert forall|i: int| 0 <= i < part.len() implies packages.contains_key(#[trigger] part[i]) by {
            assert(packages.contains_key(way[i]));
        }
        assert forall|i: int| 0 <= i < part.len() - 1 implies needs(packages, #[trigger] part[i], part[i + 1]) by {
            assert(needs(packages, way[i], way[i + 1]));
        }
        assert(is_way(packages, part));
        assert(leads_to(packages, roots, part, a));
        assert(is_needed(packages, r.importers@, a));
        assert(packages.contains_key(part[part.len() - 1]));
        assert(r.packages@.contains_key(a));
        let name = choose|name: Seq<char>| #[trigger]
            packages[a].dependencies@.contains_key(name) && crate::graph::edge_dep_path(
                name,
                packages[a].dependencies@[name],
            ) == k;
        assert(declared_by(r.packages@[a], name, k));
    }
}

/// What an importer that stays depends on is kept.
pub proof fn law_direct_dependencies_are_kept(
    packages: Map<Seq<char>, LockedPackage>,
    r: LockfileGraph,
    importer: Seq<char>,
    i: int,
)
    requires
        is_pruned(packages, r),
        r.importers@.contains_key(importer),
        0 <= i < r.importers@[importer].dependencies@.len(),
        packages.contains_key(r.importers@[importer].dependencies@[i].dep_path@),
    ensures
        r.packages@.contains_key(r.importers@[importer].dependencies@[i].dep_path@),
{
    law_kept_dependencies_are_there(packages, r, r.importers@[importer].dependencies@[i].dep_path@);
}

/// Whatever a package that is kept declares is kept with it.
pub proof fn law_declared_packages_are_kept(
    packages: Map<Seq<char>, LockedPackage>,
    r: LockfileGraph,
    a: Seq<char>,
    name: Seq<char>,
    target: Seq<char>,
)
    requires
        is_pruned(packages, r),
        packages.contains_key(target),
        r.packages@.contains_key(a),
        declared_by(r.packages@[a], name, target),
    ensures
        r.packages@.contains_key(target),
        r.packages@[target] == packages[target],
{
    assert(r.packages@[a] == packages[a]);
    assert(packages[a].dependencies@.contains_key(name));
    assert(needs(packages, a, target));
    law_kept_packages_are_complete(packages, r, a, target);
}

} // verus!
