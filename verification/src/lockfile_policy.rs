//! The minimum age of locked packages.
//!
//! A lockfile is trusted only where every package that it locks was published
//! before a cutoff. Packages that do not come from a registry, and those that
//! are excluded by name, are not held to it.
use crate::graph::{LockedPackage, LockfileGraph};
use crate::str_map::{text_map, StrMap, StrSet};
use crate::text::{
    before, concat3, decimal, decimal_text, join, joined_text, lemma_tail_after_last, tail_after_last,
    text_after_last, text_before, texts,
};
use vstd::prelude::*;

verus! {

/// The minimum age that locked packages must have.
#[derive(Debug)]
pub struct MinimumReleaseAge {
    pub minutes: u64,
    /// Names that are not held to it.
    pub exclude: StrSet,
    pub strict: bool,
}

/// A locked package that is too young.
#[derive(Debug, PartialEq, Eq)]
pub struct AgeViolation {
    pub name: String,
    pub version: String,
    pub published_at: String,
}

/// A locked package that is too young.
pub struct ViolationView {
    pub name: Seq<char>,
    pub version: Seq<char>,
    pub published_at: Seq<char>,
}

impl View for AgeViolation {
    type V = ViolationView;

    open spec fn view(&self) -> ViolationView {
        ViolationView { name: self.name@, version: self.version@, published_at: self.published_at@ }
    }
}

/// What the publish time of a version is kept under.
pub open spec fn version_key(name: Seq<char>, version: Seq<char>) -> Seq<char> {
    name + "@"@ + version
}

/// What the publish time of a version is kept under.
pub fn time_key(name: &str, version: &str) -> (r: String)
    ensures
        r@ == version_key(name@, version@),
{
    concat3(name, "@", version)
}

/// The package is excluded by its name, or by the name that the registry knows it by.
pub open spec fn excluded(mra: MinimumReleaseAge, display_name: Seq<char>, registry_name: Seq<char>) -> bool {
    mra.exclude@.contains(display_name) || mra.exclude@.contains(registry_name)
}

/// Whether a package is excluded.
pub fn is_excluded(mra: &MinimumReleaseAge, display_name: &str, registry_name: &str) -> (r: bool)
    ensures
        r == excluded(*mra, display_name@, registry_name@),
{
    mra.exclude.contains(display_name) || mra.exclude.contains(registry_name)
}

/// The package is held to the minimum age.
pub open spec fn held(mra: MinimumReleaseAge, pkg: LockedPackage) -> bool {
    pkg.local_source is None && !excluded(mra, pkg.name@, pkg.registry_name_spec())
}

/// What the publish time of a package is kept under.
pub open spec fn package_key(pkg: LockedPackage) -> Seq<char> {
    version_key(pkg.registry_name_spec(), pkg.version@)
}

fn is_held(mra: &MinimumReleaseAge, pkg: &LockedPackage) -> (r: bool)
    ensures
        r == held(*mra, *pkg),
{
    pkg.local_source.is_none() && !is_excluded(mra, pkg.name.as_str(), pkg.registry_name())
}

/// Among the first `n` packages one is held to the minimum age that the
/// registry knows by `name`, and whose time is to be kept under `key` and is
/// not known.
pub open spec fn time_missing(
    graph: LockfileGraph,
    mra: MinimumReleaseAge,
    times: StrMap<String>,
    name: Seq<char>,
    key: Seq<char>,
    n: int,
) -> bool {
    exists|i: int|
        0 <= i < n && held(mra, #[trigger] graph.packages.values()[i])
            && graph.packages.values()[i].registry_name_spec() == name && package_key(graph.packages.values()[i]) == key
            && !times@.contains_key(key)
}

/// The map holds the key under the name.
pub open spec fn listed(m: Map<Seq<char>, StrSet>, name: Seq<char>, key: Seq<char>) -> bool {
    m.contains_key(name) && m[name]@.contains(key)
}

/// The map holds under each name exactly the keys whose times are missing
/// among the first `n` packages, and no name without a key.
pub open spec fn lists_missing(
    m: Map<Seq<char>, StrSet>,
    graph: LockfileGraph,
    mra: MinimumReleaseAge,
    times: StrMap<String>,
    n: int,
) -> bool {
    &&& forall|name: Seq<char>, key: Seq<char>| #[trigger]
        listed(m, name, key) <==> time_missing(graph, mra, times, name, key, n)
    &&& forall|name: Seq<char>| #[trigger]
        m.contains_key(name) ==> exists|key: Seq<char>| #[trigger] listed(m, name, key)
}

/// One more package can only add its own key.
proof fn lemma_missing_step(
    graph: LockfileGraph,
    mra: MinimumReleaseAge,
    times: StrMap<String>,
    n: int,
)
    requires
        0 <= n,
    ensures
        forall|name: Seq<char>, key: Seq<char>| #[trigger]
            time_missing(graph, mra, times, name, key, n + 1) <==> time_missing(graph, mra, times, name, key, n) || {
                let pkg = graph.packages.values()[n];
                held(mra, pkg) && pkg.registry_name_spec() == name && package_key(pkg) == key && !times@.contains_key(
                    key,
                )
            },
{
    assert forall|name: Seq<char>, key: Seq<char>| #[trigger]
        time_missing(graph, mra, times, name, key, n + 1) <==> time_missing(graph, mra, times, name, key, n) || {
            let pkg = graph.packages.values()[n];
            held(mra, pkg) && pkg.registry_name_spec() == name && package_key(pkg) == key && !times@.contains_key(key)
        } by {
        if time_missing(graph, mra, times, name, key, n) {
            let i = choose|i: int|
                0 <= i < n && held(mra, #[trigger] graph.packages.values()[i])
                    && graph.packages.values()[i].registry_name_spec() == name && package_key(
                    graph.packages.values()[i],
                ) == key && !times@.contains_key(key);
            assert(held(mra, graph.packages.values()[i]));
        }
        let pkg = graph.packages.values()[n];
        if held(mra, pkg) && pkg.registry_name_spec() == name && package_key(pkg) == key && !times@.contains_key(key) {
            assert(held(mra, graph.packages.values()[n]));
        }
    }
}

/// The publish times that are not known: under each package's name in the
/// registry the keys of its versions.
pub fn missing_time_entries(graph: &LockfileGraph, mra: &MinimumReleaseAge, times: &StrMap<String>) -> (r: StrMap<
    StrSet,
>)
    ensures
        lists_missing(r@, *graph, *mra, *times, graph.packages.keys().len() as int),
{
    let mut missing: StrMap<StrSet> = StrMap::new();
    let total = graph.packages.len();
    let mut i: usize = 0;
    while i < total
        invariant
            i <= total,
            total == graph.packages.keys().len(),
            lists_missing(missing@, *graph, *mra, *times, i as int),
        decreases total - i,
    {
        let pkg = graph.packages.value_at(i);
        let ghost was = missing@;
        proof {
            lemma_missing_step(*graph, *mra, *times, i as int);
        }
        if is_held(mra, pkg) {
            let name = pkg.registry_name();
            let key = time_key(name, pkg.version.as_str());
            let ghost k = key@;
            if !times.contains_key(key.as_str()) {
                let mut keys = match missing.remove(name) {
                    Some(s) => s,
                    None => StrSet::new(),
                };
                let ghost prior = keys@;
                proof {
                    assert(was.contains_key(name@) ==> prior == was[name@]@);
                    assert(!was.contains_key(name@) ==> prior == Set::<Seq<char>>::empty());
                }
                keys.insert(key);
                let ghost now = keys;
                missing.insert(name.to_owned(), keys);
                proof {
                    assert(missing@ =~= was.insert(name@, now));
                    assert forall|n: Seq<char>, x: Seq<char>| #[trigger] listed(missing@, n, x) <==> listed(was, n, x)
                        || (n == name@ && x == k) by {}
                    assert forall|n: Seq<char>| #[trigger] missing@.contains_key(n) implies exists|x: Seq<char>|
                        #[trigger] listed(missing@, n, x) by {
                        if n == name@ {
                            assert(listed(missing@, n, k));
                        } else {
                            assert(was.contains_key(n));
                            let x = choose|x: Seq<char>| #[trigger] listed(was, n, x);
                            assert(listed(missing@, n, x));
                        }
                    }
                }
            }
        }
        proof {
            assert forall|n: Seq<char>, x: Seq<char>| #[trigger] listed(missing@, n, x) <==> time_missing(
                *graph,
                *mra,
                *times,
                n,
                x,
                i + 1,
            ) by {
                assert(listed(was, n, x) <==> time_missing(*graph, *mra, *times, n, x, i as int));
            }
            assert(lists_missing(missing@, *graph, *mra, *times, i + 1));
        }
        i += 1;
    }
    missing
}

/// The times with those of the first `n` keys that were fetched.
pub open spec fn times_merged(
    times: Map<Seq<char>, Seq<char>>,
    keys: Seq<Seq<char>>,
    fetched: StrMap<String>,
    n: int,
) -> Map<Seq<char>, Seq<char>>
    decreases n,
{
    if n <= 0 {
        times
    } else {
        let rest = times_merged(times, keys, fetched, n - 1);
        match tail_after_last(keys[n - 1], '@') {
            Some(version) if fetched@.contains_key(version) => rest.insert(keys[n - 1], fetched@[version]@),
            _ => rest,
        }
    }
}

/// Take over the publish times of a package's versions.
pub fn merge_times(times: &mut StrMap<String>, keys: &StrSet, fetched: &StrMap<String>)
    ensures
        text_map(*final(times)) == times_merged(
            text_map(*old(times)),
            keys.items(),
            *fetched,
            keys.items().len() as int,
        ),
{
    let ghost first = text_map(*times);
    let total = keys.len();
    let mut i: usize = 0;
    while i < total
        invariant
            i <= total,
            total == keys.items().len(),
            text_map(*times) == times_merged(first, keys.items(), *fetched, i as int),
        decreases total - i,
    {
        let key = keys.item_at(i);
        let ghost was = text_map(*times);
        if let Some(version) = text_after_last(key, '@') {
            if let Some(published_at) = fetched.get(version.as_str()) {
                times.insert(key.to_owned(), published_at.clone());
                proof {
                    assert(text_map(*times) =~= was.insert(key@, published_at@));
                }
            }
        }
        i += 1;
    }
}

/// Merging gives every listed key whose version was fetched its time, and
/// leaves every other key as it was.
pub proof fn law_merging_touches_only_listed_keys(
    times: Map<Seq<char>, Seq<char>>,
    keys: Seq<Seq<char>>,
    fetched: StrMap<String>,
    n: int,
    key: Seq<char>,
)
    requires
        0 <= n <= keys.len(),
    ensures
        ({
            let merged = times_merged(times, keys, fetched, n);
            let version = tail_after_last(key, '@');
            if keys.take(n).contains(key) && version is Some && fetched@.contains_key(version->0) {
                merged.contains_key(key) && merged[key] == fetched@[version->0]@
            } else {
                merged.contains_key(key) == times.contains_key(key) && (times.contains_key(key) ==> merged[key]
                    == times[key])
            }
        }),
    decreases n,
{
    if n > 0 {
        law_merging_touches_only_listed_keys(times, keys, fetched, n - 1, key);
        let now = keys.take(n);
        let was = keys.take(n - 1);
        assert(now =~= was.push(keys[n - 1]));
        if was.contains(key) {
            let i = choose|i: int| 0 <= i < was.len() && was[i] == key;
            assert(now[i] == key);
        }
        if now.contains(key) && !was.contains(key) {
            let i = choose|i: int| 0 <= i < now.len() && now[i] == key;
            assert(i == n - 1) by {
                if i < n - 1 {
                    assert(was[i] == key);
                }
            }
        }
        if keys[n - 1] == key {
            assert(now[n - 1] == key);
        }
    } else {
        assert(keys.take(n) =~= Seq::<Seq<char>>::empty());
    }
}

/// A version that was fetched is found under its key.
pub proof fn law_key_tells_the_version(name: Seq<char>, version: Seq<char>)
    requires
        !version.contains('@'),
    ensures
        tail_after_last(version_key(name, version), '@') == Some(version),
{
    reveal_strlit("@");
    assert(version_key(name, version) =~= name.push('@') + version);
    lemma_tail_after_last(version_key(name, version), '@', name, version);
}

/// An earlier package among the first `n` is held to the minimum age under the same key.
pub open spec fn seen_before(graph: LockfileGraph, mra: MinimumReleaseAge, key: Seq<char>, n: int) -> bool {
    exists|i: int|
        0 <= i < n && held(mra, #[trigger] graph.packages.values()[i]) && package_key(graph.packages.values()[i]) == key
}

/// The package was published after the cutoff.
pub open spec fn too_young(pkg: LockedPackage, cutoff: Seq<char>, times: StrMap<String>) -> bool {
    times@.contains_key(package_key(pkg)) && before(cutoff, times@[package_key(pkg)]@)
}

/// Those of the first `n` packages that are too young, each version once.
pub open spec fn violations_of(
    graph: LockfileGraph,
    mra: MinimumReleaseAge,
    cutoff: Seq<char>,
    times: StrMap<String>,
    n: int,
) -> Seq<ViolationView>
    decreases n,
{
    if n <= 0 {
        Seq::empty()
    } else {
        let rest = violations_of(graph, mra, cutoff, times, n - 1);
        let pkg = graph.packages.values()[n - 1];
        let key = package_key(pkg);
        if held(mra, pkg) && !seen_before(graph, mra, key, n - 1) && too_young(pkg, cutoff, times) {
            rest.push(
                ViolationView {
                    name: pkg.registry_name_spec(),
                    version: pkg.version@,
                    published_at: times@[key]@,
                },
            )
        } else {
            rest
        }
    }
}

/// The violations of a list.
pub open spec fn violation_views(list: Seq<AgeViolation>) -> Seq<ViolationView> {
    list.map_values(|v: AgeViolation| v@)
}

/// The locked packages that are too young, in the order of their keys.
pub fn minimum_release_age_violations(
    graph: &LockfileGraph,
    mra: &MinimumReleaseAge,
    cutoff: &str,
    times: &StrMap<String>,
) -> (r: Vec<AgeViolation>)
    ensures
        violation_views(r@) == violations_of(*graph, *mra, cutoff@, *times, graph.packages.keys().len() as int),
{
    let mut seen = StrSet::new();
    let mut out: Vec<AgeViolation> = Vec::new();
    let total = graph.packages.len();
    let mut i: usize = 0;
    proof {
        assert(violation_views(out@) =~= Seq::<ViolationView>::empty());
    }
    while i < total
        invariant
            i <= total,
            total == graph.packages.keys().len(),
            forall|k: Seq<char>| #[trigger] seen@.contains(k) <==> seen_before(*graph, *mra, k, i as int),
            violation_views(out@) == violations_of(*graph, *mra, cutoff@, *times, i as int),
        decreases total - i,
    {
        let pkg = graph.packages.value_at(i);
        let ghost was = out@;
        let ghost prior = seen@;
        let held_here = is_held(mra, pkg);
        let key = time_key(pkg.registry_name(), pkg.version.as_str());
        let ghost k = key@;
        proof {
            assert forall|x: Seq<char>| #[trigger] seen_before(*graph, *mra, x, i + 1) <==> seen_before(
                *graph,
                *mra,
                x,
                i as int,
            ) || (held_here && x == k) by {
                if seen_before(*graph, *mra, x, i as int) {
                    let j = choose|j: int|
                        0 <= j < i && held(*mra, #[trigger] graph.packages.values()[j]) && package_key(
                            graph.packages.values()[j],
                        ) == x;
                    assert(held(*mra, graph.packages.values()[j]));
                }
                if held_here && x == k {
                    assert(held(*mra, graph.packages.values()[i as int]));
                }
            }
        }
        if held_here {
            let first = seen.insert(key.clone());
            if first {
                if let Some(published_at) = times.get(key.as_str()) {
                    if text_before(cutoff, published_at.as_str()) {
                        let v = AgeViolation {
                            name: pkg.registry_name().to_owned(),
                            version: pkg.version.clone(),
                            published_at: published_at.clone(),
                        };
                        let ghost view = v@;
                        out.push(v);
                        proof {
                            assert(violation_views(out@) =~= violation_views(was).push(view));
                        }
                    }
                }
            }
        }
        i += 1;
    }
    out
}

/// No package is reported exactly when none that is held to the minimum age is
/// known to be too young.
pub proof fn law_lockfile_passes_when_nothing_is_young(
    graph: LockfileGraph,
    mra: MinimumReleaseAge,
    cutoff: Seq<char>,
    times: StrMap<String>,
    n: int,
)
    ensures
        violations_of(graph, mra, cutoff, times, n).len() == 0 <==> forall|i: int|
            0 <= i < n && held(mra, #[trigger] graph.packages.values()[i]) ==> !too_young(
                graph.packages.values()[i],
                cutoff,
                times,
            ),
    decreases n,
{
    if n > 0 {
        law_lockfile_passes_when_nothing_is_young(graph, mra, cutoff, times, n - 1);
        let pkg = graph.packages.values()[n - 1];
        let key = package_key(pkg);
        if held(mra, pkg) && too_young(pkg, cutoff, times) && seen_before(graph, mra, key, n - 1) {
            let j = choose|j: int|
                0 <= j < n - 1 && held(mra, #[trigger] graph.packages.values()[j]) && package_key(
                    graph.packages.values()[j],
                ) == key;
            assert(too_young(graph.packages.values()[j], cutoff, times));
        }
    }
}

/// Every package that is reported is held to the minimum age, has a known
/// publish time, and that time is after the cutoff.
pub proof fn law_reported_packages_are_young(
    graph: LockfileGraph,
    mra: MinimumReleaseAge,
    cutoff: Seq<char>,
    times: StrMap<String>,
    n: int,
    v: int,
)
    requires
        0 <= v < violations_of(graph, mra, cutoff, times, n).len(),
    ensures
        exists|i: int|
            0 <= i < n && held(mra, #[trigger] graph.packages.values()[i]) && too_young(
                graph.packages.values()[i],
                cutoff,
                times,
            ) && violations_of(graph, mra, cutoff, times, n)[v] == (ViolationView {
                name: graph.packages.values()[i].registry_name_spec(),
                version: graph.packages.values()[i].version@,
                published_at: times@[package_key(graph.packages.values()[i])]@,
            }),
    decreases n,
{
    let rest = violations_of(graph, mra, cutoff, times, n - 1);
    if v < rest.len() {
        law_reported_packages_are_young(graph, mra, cutoff, times, n - 1, v);
        let i = choose|i: int|
            0 <= i < n - 1 && held(mra, #[trigger] graph.packages.values()[i]) && too_young(
                graph.packages.values()[i],
                cutoff,
                times,
            ) && rest[v] == (ViolationView {
                name: graph.packages.values()[i].registry_name_spec(),
                version: graph.packages.values()[i].version@,
                published_at: times@[package_key(graph.packages.values()[i])]@,
            });
        assert(held(mra, graph.packages.values()[i]));
    } else {
        assert(held(mra, graph.packages.values()[n - 1]));
    }
}

/// The line of the report for one package.
pub open spec fn report_line(v: ViolationView, cutoff: Seq<char>) -> Seq<char> {
    "  "@ + v.name + "@"@ + v.version + " was published at "@ + v.published_at
        + ", within the minimumReleaseAge cutoff ("@ + cutoff + ")"@
}

/// How many packages a report names.
pub open spec fn named_count(n: int) -> int {
    if n < 12 {
        n
    } else {
        12
    }
}

/// The lines of the report: the first twelve packages, and how many more there are.
pub open spec fn report_lines(list: Seq<ViolationView>, cutoff: Seq<char>) -> Seq<Seq<char>> {
    let shown = named_count(list.len() as int);
    let lines = Seq::new(shown as nat, |i: int| report_line(list[i], cutoff));
    if list.len() > shown {
        lines.push("  ... and "@ + decimal_text((list.len() - shown) as nat) + " more"@)
    } else {
        lines
    }
}

/// What is said of a lockfile that fails.
pub open spec fn report(list: Seq<ViolationView>, cutoff: Seq<char>) -> Seq<char> {
    "lockfile failed supply-chain policy check ("@ + decimal_text(list.len()) + " entr"@ + (if list.len() == 1 {
        "y"@
    } else {
        "ies"@
    }) + "):\n"@ + joined_text(report_lines(list, cutoff), "\n"@)
}

fn line_for(v: &AgeViolation, cutoff: &str) -> (r: String)
    ensures
        r@ == report_line(v@, cutoff@),
{
    let mut out = "  ".to_owned();
    out.append(v.name.as_str());
    out.append("@");
    out.append(v.version.as_str());
    out.append(" was published at ");
    out.append(v.published_at.as_str());
    out.append(", within the minimumReleaseAge cutoff (");
    out.append(cutoff);
    out.append(")");
    out
}

/// What is said of a lockfile that fails.
pub fn policy_report(violations: &Vec<AgeViolation>, cutoff: &str) -> (r: String)
    ensures
        r@ == report(violation_views(violations@), cutoff@),
{
    let ghost list = violation_views(violations@);
    let total = violations.len();
    let shown: usize = if total < 12 {
        total
    } else {
        12
    };
    let mut lines: Vec<String> = Vec::new();
    let mut i: usize = 0;
    while i < shown
        invariant
            i <= shown,
            shown == named_count(total as int),
            total == violations@.len(),
            list == violation_views(violations@),
            lines@.len() == i,
            forall|j: int| 0 <= j < i ==> (#[trigger] lines@[j])@ == report_line(list[j], cutoff@),
        decreases shown - i,
    {
        lines.push(line_for(&violations[i], cutoff));
        i += 1;
    }
    if total > shown {
        let more = decimal(total - shown);
        lines.push(concat3("  ... and ", more.as_str(), " more"));
    }
    proof {
        assert(texts(lines@) =~= report_lines(list, cutoff@));
    }
    let body = join(&lines, "\n");
    let count = decimal(total);
    let mut out = "lockfile failed supply-chain policy check (".to_owned();
    out.append(count.as_str());
    out.append(" entr");
    out.append(
        if total == 1 {
            "y"
        } else {
            "ies"
        },
    );
    out.append("):\n");
    out.append(body.as_str());
    out
}

/// How the policy check of a frozen lockfile goes on.
#[derive(Debug)]
pub enum PolicyStep {
    /// There is no policy.
    Pass,
    /// These publish times have to be fetched first; none where all are known.
    Fetch(StrMap<StrSet>),
}

/// Start the policy check of a frozen lockfile. Without a minimum age, or
/// without a cutoff, there is nothing to check.
pub fn start_policy_check(
    mra: Option<&MinimumReleaseAge>,
    has_cutoff: bool,
    graph: &LockfileGraph,
) -> (r: PolicyStep)
    ensures
        match r {
            PolicyStep::Pass => mra is None || !has_cutoff,
            PolicyStep::Fetch(m) => mra is Some && has_cutoff && lists_missing(
                m@,
                *graph,
                *mra->0,
                graph.times,
                graph.packages.keys().len() as int,
            ),
        },
{
    match mra {
        None => PolicyStep::Pass,
        Some(m) => if has_cutoff {
            PolicyStep::Fetch(missing_time_entries(graph, m, &graph.times))
        } else {
            PolicyStep::Pass
        },
    }
}

/// Check a frozen lockfile against the minimum age. The error is the report.
pub fn verify_frozen_lockfile_policy(
    graph: &LockfileGraph,
    mra: &MinimumReleaseAge,
    cutoff: &str,
    times: &StrMap<String>,
) -> (r: Result<(), String>)
    ensures
        ({
            let list = violations_of(*graph, *mra, cutoff@, *times, graph.packages.keys().len() as int);
            match r {
                Ok(_) => list.len() == 0,
                Err(text) => list.len() > 0 && text@ == report(list, cutoff@),
            }
        }),
{
    let violations = minimum_release_age_violations(graph, mra, cutoff, times);
    proof {
        assert(violation_views(violations@).len() == violations@.len());
    }
    if violations.len() == 0 {
        Ok(())
    } else {
        Err(policy_report(&violations, cutoff))
    }
}

/// The code of the error for a lockfile that is too young.
pub fn policy_error_code() -> (r: &'static str)
    ensures
        r@ == "ERR_AUBE_LOCKFILE_POLICY"@,
{
    "ERR_AUBE_LOCKFILE_POLICY"
}

/// What a user is advised about a lockfile that is too young.
pub fn policy_help() -> (r: &'static str)
    ensures
        r@
            == "inspect recent lockfile changes before trusting them; if expected, regenerate the lockfile from a fresh resolution or relax minimumReleaseAge"@,
{
    "inspect recent lockfile changes before trusting them; if expected, regenerate the lockfile from a fresh resolution or relax minimumReleaseAge"
}

} // verus!
