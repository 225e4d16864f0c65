//! What becomes of the packages of an install.
use crate::graph::{LockedPackage, LockfileGraph};
use crate::install::concurrency::{chosen_concurrency, greater};
use crate::install::packages::{canonical, is_missing, with_integrity, with_tarball_url};
use crate::install::phases::{span, Phase};
use crate::install::selection::keeps_importer;
use crate::install::stages::{rank, Facts, InstallOptions, LockfileFound, Stage};
use crate::install::stream::{
    after_fetch, after_package, can_stream, comes_of, step_for, ResolvedPackage, StreamResult, StreamStep, StreamView,
};
use crate::str_map::StrMap;
use crate::text_laws::law_head_ends_at_the_mark;
use vstd::prelude::*;

verus! {

/// The key without peers is how the key begins, up to the first parenthesis; a
/// key without one is its own.
pub proof fn law_peers_are_taken_off(dep_path: Seq<char>)
    ensures
        canonical(dep_path).is_prefix_of(dep_path),
        !canonical(dep_path).contains('('),
        canonical(dep_path) == dep_path || (canonical(dep_path).len() < dep_path.len() && dep_path[canonical(
            dep_path,
        ).len() as int] == '('),
        !dep_path.contains('(') ==> canonical(dep_path) == dep_path,
        canonical(canonical(dep_path)) == canonical(dep_path),
{
    law_head_ends_at_the_mark(dep_path, '(');
    let head = canonical(dep_path);
    law_head_ends_at_the_mark(head, '(');
    if canonical(head) != head {
        assert(head.contains(head[canonical(head).len() as int]));
    }
    if head != dep_path {
        assert(dep_path.contains(dep_path[head.len() as int]));
    }
}

/// A package of a registry that has no integrity gets the one that was computed
/// for its key without peers. Any other package stays as it is, and nothing else
/// of a package changes.
pub proof fn law_integrity_goes_where_none_is(pkg: LockedPackage, computed: StrMap<String>, key: Seq<char>)
    requires
        key == canonical(pkg.dep_path@),
    ensures
        pkg.integrity is None && pkg.local_source is None && computed@.contains_key(key) ==> with_integrity(
            pkg,
            computed,
        ) == (LockedPackage { integrity: Some(computed@[key]), ..pkg }),
        pkg.integrity is Some ==> with_integrity(pkg, computed) == pkg,
        pkg.local_source is Some ==> with_integrity(pkg, computed) == pkg,
        !computed@.contains_key(key) ==> with_integrity(pkg, computed) == pkg,
{
}

/// A package of a registry without a recorded place for its tarball gets the one
/// given; any other stays as it is.
pub proof fn law_tarball_place_goes_where_none_is(pkg: LockedPackage, url: String)
    ensures
        pkg.local_source is None && pkg.tarball_url is None ==> with_tarball_url(pkg, url) == (LockedPackage {
            tarball_url: Some(url),
            ..pkg
        }),
        pkg.tarball_url is Some ==> with_tarball_url(pkg, url) == pkg,
        pkg.local_source is Some ==> with_tarball_url(pkg, url) == pkg,
{
}

/// What is missing are packages of the graph that come from a registry and whose
/// files are not there: none from disk, none that is there, none from elsewhere.
pub proof fn law_missing_packages_are_of_the_registry(graph: LockfileGraph, indices: Set<Seq<char>>, k: Seq<char>)
    ensures
        indices.contains(k) ==> !is_missing(graph, indices, k),
        !graph.packages@.contains_key(k) ==> !is_missing(graph, indices, k),
        graph.packages@.contains_key(k) && graph.packages@[k].local_source is Some ==> !is_missing(graph, indices, k),
        graph.packages@.contains_key(k) && graph.packages@[k].local_source is None && !indices.contains(k)
            ==> is_missing(graph, indices, k),
{
}

/// What comes from disk is taken from there, whatever the platform; what does not
/// is looked up where it runs here, and put off where it does not.
pub proof fn law_packages_are_put_off_by_platform(pkg: ResolvedPackage, result: StreamResult)
    ensures
        pkg.local ==> step_for(pkg) == StreamStep::ImportLocal,
        !pkg.local && pkg.supported ==> step_for(pkg) == StreamStep::LookUp,
        !pkg.local && !pkg.supported ==> step_for(pkg) == StreamStep::Defer,
        comes_of(step_for(pkg), result) && result == StreamResult::Deferred ==> !pkg.local && !pkg.supported,
        comes_of(step_for(pkg), result) && (result == StreamResult::Cached || result == StreamResult::Fetching)
            ==> !pkg.local && pkg.supported,
        comes_of(step_for(pkg), result) && (result == StreamResult::Linked || result == StreamResult::Imported)
            ==> pkg.local,
        exists|r: StreamResult| #[trigger] comes_of(step_for(pkg), r),
{
    let r = if pkg.local {
        StreamResult::Linked
    } else if pkg.supported {
        StreamResult::Cached
    } else {
        StreamResult::Deferred
    };
    assert(comes_of(step_for(pkg), r));
}

/// Each package is counted once. Its files are known to be there where it was
/// found in the store or taken into it; where it is being fetched, that comes with
/// the fetch. A deprecated one is noted, whatever came of it.
pub proof fn law_packages_are_counted_once(v: StreamView, pkg: ResolvedPackage, result: StreamResult, other: Seq<char>)
    ensures
        ({
            let w = after_package(v, pkg, result);
            let stored = result is Imported || result is Cached;
            &&& w.received == v.received + 1
            &&& w.deferred + w.reused + w.fetching == v.deferred + v.reused + v.fetching + 1
            &&& result is Deferred <==> w.deferred == v.deferred + 1
            &&& result is Fetching <==> w.fetching == v.fetching + 1
            &&& w.cached == v.cached + if stored {
                1int
            } else {
                0
            }
            &&& stored ==> w.indices.contains(pkg.dep_path@)
            &&& !stored || other != pkg.dep_path@ ==> w.indices.contains(other) == v.indices.contains(other)
            &&& w.computed == v.computed
            &&& pkg.deprecated is None ==> w.deprecated == v.deprecated
            &&& pkg.deprecated is Some ==> {
                &&& w.deprecated.drop_last() == v.deprecated
                &&& w.deprecated.last().name == pkg.name@
                &&& w.deprecated.last().version == pkg.version@
                &&& w.deprecated.last().dep_path == pkg.dep_path@
                &&& w.deprecated.last().message == pkg.deprecated->0@
            }
        }),
{
    let w = after_package(v, pkg, result);
    if pkg.deprecated is Some {
        assert(w.deprecated.drop_last() =~= v.deprecated);
    }
}

/// A fetch that ended makes the package's files known, and the integrity that it
/// computed is kept under the key without peers; nothing else changes.
pub proof fn law_fetch_makes_files_known(
    v: StreamView,
    dep_path: Seq<char>,
    integrity: Option<Seq<char>>,
    other: Seq<char>,
)
    ensures
        ({
            let w = after_fetch(v, dep_path, integrity);
            &&& w.indices.contains(dep_path)
            &&& other != dep_path ==> w.indices.contains(other) == v.indices.contains(other)
            &&& integrity is None ==> w.computed == v.computed
            &&& integrity is Some ==> w.computed.contains_key(canonical(dep_path)) && w.computed[canonical(dep_path)]
                == integrity->0
            &&& other != canonical(dep_path) ==> w.computed.contains_key(other) == v.computed.contains_key(other)
            &&& other != canonical(dep_path) && v.computed.contains_key(other) ==> w.computed[other]
                == v.computed[other]
            &&& w.received == v.received && w.deferred == v.deferred && w.reused == v.reused
            &&& w.cached == v.cached && w.fetching == v.fetching && w.deprecated == v.deprecated
        }),
{
}

/// A tarball is unpacked while it is read only where that is switched on, and
/// where its digest is computed on the way or none is known.
pub proof fn law_streaming_needs_a_digest_it_computes(integrity: Option<Seq<char>>)
    ensures
        !can_stream(false, integrity),
        can_stream(true, None),
        integrity is Some ==> can_stream(true, integrity) == "sha512-"@.is_prefix_of(integrity->0),
{
}

/// The environment is asked first, then the setting; the default stands in for
/// both.
pub proof fn law_environment_goes_first(env: Option<usize>, setting: Option<usize>, default: usize)
    ensures
        env is Some ==> chosen_concurrency(env, setting, default) == env->0,
        env is None && setting is Some ==> chosen_concurrency(env, setting, default) == setting->0,
        env is None && setting is None ==> chosen_concurrency(env, setting, default) == default,
{
}

/// The greater of two numbers is one of them, and neither is greater.
pub proof fn law_greater_is_an_upper_bound(a: int, b: int)
    ensures
        greater(a, b) == a || greater(a, b) == b,
        a <= greater(a, b),
        b <= greater(a, b),
{
}

/// Importers that were asked for by name stay, and no others; without names all
/// stay, or the root alone.
pub proof fn law_importers_asked_for_stay(names: Set<Seq<char>>, root_only: bool, name: Seq<char>)
    ensures
        keeps_importer(Some(names), root_only, name) == names.contains(name),
        keeps_importer(None, false, name),
        keeps_importer(None, true, name) == (name == "."@),
{
}

/// The stage lies in the phase.
pub open spec fn lies_in(o: InstallOptions, f: Facts, phase: Phase, stage: Stage) -> bool {
    span(o, f, phase) matches Some((first, last)) && rank(first) <= rank(stage) <= rank(last)
}

/// An install is timed from opening the store: choosing the lockfile, resolving
/// and the hooks around it count as resolution, up to the last point at which it
/// can be cancelled before packages are fetched; fetching follows. Where packages
/// come from a lockfile, filling the virtual store counts as fetching; else it is
/// timed on its own, and what was put off after it.
pub proof fn law_phases_follow_one_another(o: InstallOptions, f: Facts)
    requires
        !f.up_to_date,
        !f.layout.lockfile_only,
        !o.dry_run,
        f.lockfile == LockfileFound::Current || (f.lockfile == LockfileFound::Absent && !o.strict_no_lockfile),
    ensures
        lies_in(o, f, Phase::Resolve, Stage::OpenStore),
        lies_in(o, f, Phase::Resolve, Stage::LockStore),
        lies_in(o, f, Phase::Resolve, Stage::SelectLockfile),
        lies_in(o, f, Phase::Resolve, Stage::CancelPointGraph),
        !lies_in(o, f, Phase::Resolve, Stage::ResetOnModeChange),
        !lies_in(o, f, Phase::Resolve, Stage::PlanVirtualStore),
        lies_in(o, f, Phase::Fetch, Stage::Fetch),
        !lies_in(o, f, Phase::Fetch, Stage::ApplyIntegrities),
        f.lockfile == LockfileFound::Current ==> {
            &&& lies_in(o, f, Phase::Fetch, Stage::PlanVirtualStore)
            &&& lies_in(o, f, Phase::Fetch, Stage::JoinPrewarm)
            &&& !lies_in(o, f, Phase::Resolve, Stage::RouteAdvisories)
            &&& span(o, f, Phase::PrewarmGvs) is None
            &&& span(o, f, Phase::CatchupFetch) is None
        },
        f.lockfile == LockfileFound::Absent ==> {
            &&& lies_in(o, f, Phase::Resolve, Stage::Resolve)
            &&& lies_in(o, f, Phase::Resolve, Stage::RouteAdvisories)
            &&& lies_in(o, f, Phase::Resolve, Stage::CancelPointFetch)
            &&& !lies_in(o, f, Phase::Fetch, Stage::StartPrewarm)
            &&& !lies_in(o, f, Phase::Fetch, Stage::JoinPrewarm)
            &&& lies_in(o, f, Phase::PrewarmGvs, Stage::PlanVirtualStore)
            &&& lies_in(o, f, Phase::PrewarmGvs, Stage::JoinPrewarm)
            &&& !lies_in(o, f, Phase::PrewarmGvs, Stage::CancelPointFetch)
            &&& !lies_in(o, f, Phase::PrewarmGvs, Stage::ApplyIntegrities)
            &&& span(o, f, Phase::CatchupFetch) is Some <==> f.missing_packages
            &&& f.missing_packages ==> lies_in(o, f, Phase::CatchupFetch, Stage::CatchUpFetch)
            &&& !lies_in(o, f, Phase::CatchupFetch, Stage::TrimGraph)
            &&& !lies_in(o, f, Phase::CatchupFetch, Stage::CleanUpCatalogs)
            &&& lies_in(o, f, Phase::CatchupFetch, Stage::RewriteLockfile) <==> f.missing_packages
                && f.new_integrities && f.layout.lockfile_enabled
        },
        span(o, f, Phase::RootPreinstall) is Some <==> !o.skip_root_lifecycle && !o.ignore_scripts,
        !o.skip_root_lifecycle && !o.ignore_scripts ==> span(o, f, Phase::RootPreinstall) == Some(
            (Stage::RootPreinstall, Stage::RootPreinstall),
        ),
{
}

} // verus!
