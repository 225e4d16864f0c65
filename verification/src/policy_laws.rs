//! What the minimum age of locked packages comes to.
use crate::graph::{LockedPackage, LockfileGraph};
use crate::lockfile_policy::{
    held, listed, lists_missing, package_key, report_line, report_lines, seen_before, time_missing, too_young,
    version_key, violations_of, MinimumReleaseAge, ViolationView,
};
use crate::str_map::{lemma_entry, lemma_key_index, StrMap, StrSet};
use crate::text::{before, decimal_text, occurs, occurs_at};
use vstd::prelude::*;

verus! {

/// The name that the registry knows the package by: the target of an alias.
pub open spec fn known_as(pkg: LockedPackage) -> Seq<char> {
    match pkg.alias_of {
        Some(target) => target@,
        None => pkg.name@,
    }
}

/// The policy speaks of the package: it comes from the registry, and neither its
/// own name nor the one that the registry knows it by is excluded.
pub open spec fn spoken_of(mra: MinimumReleaseAge, pkg: LockedPackage) -> bool {
    pkg.local_source is None && !mra.exclude@.contains(pkg.name@) && !mra.exclude@.contains(known_as(pkg))
}

/// The package is known to have been published at `time`.
pub open spec fn published_at(times: StrMap<String>, pkg: LockedPackage, time: Seq<char>) -> bool {
    times@.contains_key(known_as(pkg) + seq!['@'] + pkg.version@) && times@[known_as(pkg) + seq!['@'] + pkg.version@]@
        == time
}

/// Entry `v` of the list is for that version of the package.
pub open spec fn reports(list: Seq<ViolationView>, v: int, pkg: LockedPackage, time: Seq<char>) -> bool {
    &&& 0 <= v < list.len()
    &&& list[v].name + seq!['@'] + list[v].version == known_as(pkg) + seq!['@'] + pkg.version@
    &&& list[v].published_at == time
}

proof fn lemma_same_words(mra: MinimumReleaseAge, pkg: LockedPackage)
    ensures
        held(mra, pkg) == spoken_of(mra, pkg),
        package_key(pkg) == known_as(pkg) + seq!['@'] + pkg.version@,
        pkg.registry_name_spec() == known_as(pkg),
{
    reveal_strlit("@");
    assert("@"@ =~= seq!['@']);
}

proof fn lemma_violation_found(
    graph: LockfileGraph,
    mra: MinimumReleaseAge,
    cutoff: Seq<char>,
    times: StrMap<String>,
    n: int,
    i: int,
) -> (v: int)
    requires
        0 <= i < n,
        held(mra, graph.packages.values()[i]),
        too_young(graph.packages.values()[i], cutoff, times),
    ensures
        0 <= v < violations_of(graph, mra, cutoff, times, n).len(),
        ({
            let it = violations_of(graph, mra, cutoff, times, n)[v];
            version_key(it.name, it.version) == package_key(graph.packages.values()[i]) && it.published_at
                == times@[package_key(graph.packages.values()[i])]@
        }),
    decreases n,
{
    let pkg = graph.packages.values()[i];
    let key = package_key(pkg);
    let rest = violations_of(graph, mra, cutoff, times, n - 1);
    let last = graph.packages.values()[n - 1];
    if i < n - 1 {
        let v = lemma_violation_found(graph, mra, cutoff, times, n - 1, i);
        assert(violations_of(graph, mra, cutoff, times, n)[v] == rest[v]);
        v
    } else if seen_before(graph, mra, key, n - 1) {
        let j = choose|j: int|
            0 <= j < n - 1 && held(mra, #[trigger] graph.packages.values()[j]) && package_key(
                graph.packages.values()[j],
            ) == key;
        let v = lemma_violation_found(graph, mra, cutoff, times, n - 1, j);
        assert(violations_of(graph, mra, cutoff, times, n)[v] == rest[v]);
        v
    } else {
        rest.len() as int
    }
}

/// A package that the policy speaks of and that was published after the cutoff
/// is reported, with its version and the time, and so the lockfile fails.
pub proof fn law_young_packages_are_reported(
    graph: LockfileGraph,
    mra: MinimumReleaseAge,
    cutoff: Seq<char>,
    times: StrMap<String>,
    k: Seq<char>,
    time: Seq<char>,
)
    requires
        graph.packages.wf(),
        graph.packages@.contains_key(k),
        spoken_of(mra, graph.packages@[k]),
        published_at(times, graph.packages@[k], time),
        before(cutoff, time),
    ensures
        exists|v: int| #[trigger]
            reports(
                violations_of(graph, mra, cutoff, times, graph.packages.keys().len() as int),
                v,
                graph.packages@[k],
                time,
            ),
{
    let i = lemma_key_index(graph.packages, k);
    let pkg = graph.packages@[k];
    lemma_same_words(mra, pkg);
    let v = lemma_violation_found(graph, mra, cutoff, times, graph.packages.keys().len() as int, i);
    let list = violations_of(graph, mra, cutoff, times, graph.packages.keys().len() as int);
    reveal_strlit("@");
    assert("@"@ =~= seq!['@']);
    assert(list[v].name + seq!['@'] + list[v].version == version_key(list[v].name, list[v].version));
    assert(reports(list, v, pkg, time));
}

/// Whatever is reported is a package of the lockfile that the policy speaks of,
/// and was published after the cutoff.
pub proof fn law_reported_packages_are_locked(
    graph: LockfileGraph,
    mra: MinimumReleaseAge,
    cutoff: Seq<char>,
    times: StrMap<String>,
    v: int,
)
    requires
        graph.packages.wf(),
        0 <= v < violations_of(graph, mra, cutoff, times, graph.packages.keys().len() as int).len(),
    ensures
        exists|k: Seq<char>|
            {
                let it = violations_of(graph, mra, cutoff, times, graph.packages.keys().len() as int)[v];
                &&& #[trigger] graph.packages@.contains_key(k)
                &&& spoken_of(mra, graph.packages@[k])
                &&& published_at(times, graph.packages@[k], it.published_at)
                &&& before(cutoff, it.published_at)
                &&& it.name == known_as(graph.packages@[k])
                &&& it.version == graph.packages@[k].version@
            },
{
    let n = graph.packages.keys().len() as int;
    let list = violations_of(graph, mra, cutoff, times, n);
    crate::lockfile_policy::law_reported_packages_are_young(graph, mra, cutoff, times, n, v);
    let i = choose|i: int|
        0 <= i < n && held(mra, #[trigger] graph.packages.values()[i]) && too_young(
            graph.packages.values()[i],
            cutoff,
            times,
        ) && list[v] == (ViolationView {
            name: graph.packages.values()[i].registry_name_spec(),
            version: graph.packages.values()[i].version@,
            published_at: times@[package_key(graph.packages.values()[i])]@,
        });
    lemma_entry(graph.packages, i);
    lemma_same_words(mra, graph.packages.values()[i]);
    assert(graph.packages@.contains_key(graph.packages.keys()[i]));
}

proof fn lemma_reported_was_seen(
    graph: LockfileGraph,
    mra: MinimumReleaseAge,
    cutoff: Seq<char>,
    times: StrMap<String>,
    n: int,
    v: int,
)
    requires
        0 <= v < violations_of(graph, mra, cutoff, times, n).len(),
    ensures
        ({
            let it = violations_of(graph, mra, cutoff, times, n)[v];
            seen_before(graph, mra, version_key(it.name, it.version), n)
        }),
{
    crate::lockfile_policy::law_reported_packages_are_young(graph, mra, cutoff, times, n, v);
}

/// Each version is reported once.
pub proof fn law_versions_are_reported_once(
    graph: LockfileGraph,
    mra: MinimumReleaseAge,
    cutoff: Seq<char>,
    times: StrMap<String>,
    n: int,
    a: int,
    b: int,
)
    requires
        0 <= a < b < violations_of(graph, mra, cutoff, times, n).len(),
    ensures
        ({
            let list = violations_of(graph, mra, cutoff, times, n);
            list[a].name != list[b].name || list[a].version != list[b].version
        }),
    decreases n,
{
    let list = violations_of(graph, mra, cutoff, times, n);
    let rest = violations_of(graph, mra, cutoff, times, n - 1);
    if b < rest.len() {
        law_versions_are_reported_once(graph, mra, cutoff, times, n - 1, a, b);
    } else {
        assert(list[a] == rest[a]);
        lemma_reported_was_seen(graph, mra, cutoff, times, n - 1, a);
    }
}

/// The times that are asked for are those that are not known of the packages that
/// the policy speaks of, each under the name that the registry knows it by.
pub proof fn law_unknown_times_are_asked_for(
    m: Map<Seq<char>, StrSet>,
    graph: LockfileGraph,
    mra: MinimumReleaseAge,
    times: StrMap<String>,
    name: Seq<char>,
    key: Seq<char>,
)
    requires
        graph.packages.wf(),
        lists_missing(m, graph, mra, times, graph.packages.keys().len() as int),
    ensures
        m.contains_key(name) && m[name]@.contains(key) <==> exists|k: Seq<char>|
            {
                &&& #[trigger] graph.packages@.contains_key(k)
                &&& spoken_of(mra, graph.packages@[k])
                &&& name == known_as(graph.packages@[k])
                &&& key == known_as(graph.packages@[k]) + seq!['@'] + graph.packages@[k].version@
                &&& !times@.contains_key(key)
            },
{
    let n = graph.packages.keys().len() as int;
    assert(listed(m, name, key) <==> time_missing(graph, mra, times, name, key, n));
    if time_missing(graph, mra, times, name, key, n) {
        let i = choose|i: int|
            0 <= i < n && held(mra, #[trigger] graph.packages.values()[i])
                && graph.packages.values()[i].registry_name_spec() == name && package_key(
                graph.packages.values()[i],
            ) == key && !times@.contains_key(key);
        lemma_entry(graph.packages, i);
        lemma_same_words(mra, graph.packages.values()[i]);
        assert(graph.packages@.contains_key(graph.packages.keys()[i]));
    }
    if exists|k: Seq<char>|
        {
            &&& #[trigger] graph.packages@.contains_key(k)
            &&& spoken_of(mra, graph.packages@[k])
            &&& name == known_as(graph.packages@[k])
            &&& key == known_as(graph.packages@[k]) + seq!['@'] + graph.packages@[k].version@
            &&& !times@.contains_key(key)
        } {
        let k = choose|k: Seq<char>|
            {
                &&& #[trigger] graph.packages@.contains_key(k)
                &&& spoken_of(mra, graph.packages@[k])
                &&& name == known_as(graph.packages@[k])
                &&& key == known_as(graph.packages@[k]) + seq!['@'] + graph.packages@[k].version@
                &&& !times@.contains_key(key)
            };
        let i = lemma_key_index(graph.packages, k);
        lemma_same_words(mra, graph.packages@[k]);
        assert(held(mra, graph.packages.values()[i]));
    }
}

/// A report has a line for each of the first twelve packages, which names the
/// package, its version, when it was published and the cutoff; where there are
/// more, one more line says how many.
pub proof fn law_report_names_the_first_twelve(list: Seq<ViolationView>, cutoff: Seq<char>, i: int)
    requires
        0 <= i < list.len(),
        i < 12,
    ensures
        report_lines(list, cutoff).len() == if list.len() <= 12 {
            list.len()
        } else {
            13
        },
        occurs(report_lines(list, cutoff)[i], list[i].name + "@"@ + list[i].version),
        occurs(report_lines(list, cutoff)[i], list[i].published_at),
        occurs(report_lines(list, cutoff)[i], cutoff),
        list.len() > 12 ==> occurs(report_lines(list, cutoff)[12], decimal_text((list.len() - 12) as nat)),
{
    let v = list[i];
    let line = report_line(v, cutoff);
    assert(report_lines(list, cutoff)[i] == line);
    let a = "  "@;
    let named = v.name + "@"@ + v.version;
    let said = " was published at "@;
    let within = ", within the minimumReleaseAge cutoff ("@;
    let close = ")"@;
    let n0 = a.len() as int;
    let n1 = n0 + named.len();
    let n2 = n1 + said.len();
    let n3 = n2 + v.published_at.len();
    let n4 = n3 + within.len();
    assert(line.subrange(n0, n0 + named.len()) =~= named);
    assert(occurs_at(line, named, n0));
    assert(line.subrange(n2, n2 + v.published_at.len()) =~= v.published_at);
    assert(occurs_at(line, v.published_at, n2));
    assert(line.subrange(n4, n4 + cutoff.len()) =~= cutoff);
    assert(occurs_at(line, cutoff, n4));
    if list.len() > 12 {
        let more = decimal_text((list.len() - 12) as nat);
        let last = report_lines(list, cutoff)[12];
        assert(last == "  ... and "@ + more + " more"@);
        let at = "  ... and "@.len() as int;
        assert(last.subrange(at, at + more.len()) =~= more);
        assert(occurs_at(last, more, at));
    }
}

} // verus!
