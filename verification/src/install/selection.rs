//! Which packages of the graph are linked.
use crate::graph::{child_dep_path, edge_dep_path, DepType, DirectDep, Importer, LockedPackage, LockfileGraph};
use crate::install::packages::keys_of;
use crate::str_map::{
    lemma_all_keys, lemma_entry, lemma_first_keys, lemma_increasing_distinct, lemma_key_count, lemma_key_index, StrMap,
    StrSet,
};
use crate::text::texts;
use vstd::prelude::*;

verus! {

/// Which direct dependencies are installed.
#[derive(Debug, Clone, Copy, PartialEq, Eq, Structural)]
pub struct DepSelection {
    /// Leave out those for development.
    pub prod_only: bool,
    /// Leave out all but those for development.
    pub dev_only: bool,
    /// Leave out the optional ones.
    pub skip_optional: bool,
}

impl DepSelection {
    /// Something is left out.
    pub open spec fn filters(self) -> bool {
        self.prod_only || self.dev_only || self.skip_optional
    }

    /// A direct dependency of this kind is installed.
    pub open spec fn keeps_spec(self, dep_type: DepType) -> bool {
        &&& !(self.prod_only && dep_type == DepType::Dev)
        &&& !(self.dev_only && dep_type != DepType::Dev)
        &&& !(self.skip_optional && dep_type == DepType::Optional)
    }

    /// Whether something is left out.
    pub fn is_filtered(&self) -> (r: bool)
        ensures
            r == self.filters(),
    {
        self.prod_only || self.dev_only || self.skip_optional
    }

    /// Whether a direct dependency of this kind is installed.
    pub fn keeps(&self, dep_type: DepType) -> (r: bool)
        ensures
            r == self.keeps_spec(dep_type),
    {
        if self.prod_only && dep_type == DepType::Dev {
            return false;
        }
        if self.dev_only && dep_type != DepType::Dev {
            return false;
        }
        if self.skip_optional && dep_type == DepType::Optional {
            return false;
        }
        true
    }
}

/// The package under `a` needs the one under `b`.
pub open spec fn needs(packages: Map<Seq<char>, LockedPackage>, a: Seq<char>, b: Seq<char>) -> bool {
    exists|name: Seq<char>| #[trigger]
        packages[a].dependencies@.contains_key(name) && edge_dep_path(name, packages[a].dependencies@[name]) == b
}

/// A way through the packages, along what they need.
pub open spec fn is_way(packages: Map<Seq<char>, LockedPackage>, way: Seq<Seq<char>>) -> bool {
    &&& way.len() > 0
    &&& forall|i: int| 0 <= i < way.len() ==> packages.contains_key(#[trigger] way[i])
    &&& forall|i: int| 0 <= i < way.len() - 1 ==> needs(packages, #[trigger] way[i], way[i + 1])
}

/// A way leads from one of `roots` to `k`.
pub open spec fn leads_to(
    packages: Map<Seq<char>, LockedPackage>,
    roots: Set<Seq<char>>,
    way: Seq<Seq<char>>,
    k: Seq<char>,
) -> bool {
    is_way(packages, way) && roots.contains(way[0]) && way.last() == k
}

/// The package is needed by one of `roots`, or is one.
pub open spec fn reachable(packages: Map<Seq<char>, LockedPackage>, roots: Set<Seq<char>>, k: Seq<char>) -> bool {
    exists|way: Seq<Seq<char>>| #[trigger] leads_to(packages, roots, way, k)
}

/// What a reachable package needs is reachable.
proof fn lemma_step_further(
    packages: Map<Seq<char>, LockedPackage>,
    roots: Set<Seq<char>>,
    a: Seq<char>,
    b: Seq<char>,
)
    requires
        reachable(packages, roots, a),
        needs(packages, a, b),
        packages.contains_key(b),
    ensures
        reachable(packages, roots, b),
{
    let way = choose|way: Seq<Seq<char>>| #[trigger] leads_to(packages, roots, way, a);
    let longer = way.push(b);
    assert forall|i: int| 0 <= i < longer.len() - 1 implies needs(packages, #[trigger] longer[i], longer[i + 1]) by {
        if i < way.len() - 1 {
            assert(needs(packages, way[i], way[i + 1]));
        }
    }
    assert forall|i: int| 0 <= i < longer.len() implies packages.contains_key(#[trigger] longer[i]) by {
        if i < way.len() {
            assert(packages.contains_key(way[i]));
        }
    }
    assert(leads_to(packages, roots, longer, b));
}

/// A set that holds the roots and what its members need holds every reachable
/// package.
proof fn lemma_closed_holds_all(
    packages: Map<Seq<char>, LockedPackage>,
    roots: Set<Seq<char>>,
    held: Set<Seq<char>>,
    way: Seq<Seq<char>>,
)
    requires
        is_way(packages, way),
        roots.contains(way[0]),
        forall|r: Seq<char>| #[trigger] roots.contains(r) && packages.contains_key(r) ==> held.contains(r),
        forall|a: Seq<char>, b: Seq<char>| #[trigger]
            held.contains(a) && #[trigger] needs(packages, a, b) && packages.contains_key(b) ==> held.contains(b),
    ensures
        held.contains(way.last()),
    decreases way.len(),
{
    assert(packages.contains_key(way[way.len() - 1]));
    if way.len() > 1 {
        let shorter = way.drop_last();
        assert forall|i: int| 0 <= i < shorter.len() - 1 implies needs(
            packages,
            #[trigger] shorter[i],
            shorter[i + 1],
        ) by {
            assert(needs(packages, way[i], way[i + 1]));
        }
        assert forall|i: int| 0 <= i < shorter.len() implies packages.contains_key(#[trigger] shorter[i]) by {
            assert(packages.contains_key(way[i]));
        }
        lemma_closed_holds_all(packages, roots, held, shorter);
        let i = way.len() - 2;
        assert(needs(packages, way[i], way[i + 1]));
        assert(shorter.last() == way[i]);
    }
}

/// Put the keys of what a package needs on a list.
fn push_needs(pkg: &LockedPackage, todo: &mut Vec<String>)
    ensures
        forall|k: Seq<char>|
            #[trigger] texts(final(todo)@).contains(k) <==> texts(old(todo)@).contains(k) || exists|name: Seq<char>|
                #[trigger] pkg.dependencies@.contains_key(name) && edge_dep_path(name, pkg.dependencies@[name]) == k,
{
    let ghost first = texts(todo@);
    let total = pkg.dependencies.len();
    let mut i: usize = 0;
    proof {
        lemma_all_keys(pkg.dependencies);
    }
    while i < total
        invariant
            i <= total,
            total == pkg.dependencies.keys().len(),
            pkg.dependencies.wf(),
            forall|k: Seq<char>|
                #[trigger] texts(todo@).contains(k) <==> first.contains(k) || exists|name: Seq<char>|
                    #[trigger] pkg.dependencies.keys().take(i as int).contains(name) && edge_dep_path(
                        name,
                        pkg.dependencies@[name],
                    ) == k,
        decreases total - i,
    {
        let name = pkg.dependencies.key_at(i);
        let edge = pkg.dependencies.value_at(i);
        let child = child_dep_path(name, edge);
        let ghost was = texts(todo@);
        let ghost c = child@;
        proof {
            lemma_entry(pkg.dependencies, i as int);
            lemma_first_keys(pkg.dependencies.keys(), i as int);
        }
        todo.push(child);
        proof {
            let (a, b) = (pkg.dependencies.keys().take(i as int), pkg.dependencies.keys().take(i + 1));
            let now = texts(todo@);
            assert(now =~= was.push(c));
            assert forall|k: Seq<char>|
                #[trigger] now.contains(k) <==> first.contains(k) || exists|n: Seq<char>|
                    #[trigger] b.contains(n) && edge_dep_path(n, pkg.dependencies@[n]) == k by {
                if was.contains(k) {
                    let j = choose|j: int| 0 <= j < was.len() && was[j] == k;
                    assert(now[j] == k);
                }
                if k == c {
                    assert(now[now.len() - 1] == k);
                    assert(b.contains(name@));
                }
                if now.contains(k) && k != c {
                    let j = choose|j: int| 0 <= j < now.len() && now[j] == k;
                    assert(was[j] == k);
                }
                if exists|n: Seq<char>| #[trigger] a.contains(n) && edge_dep_path(n, pkg.dependencies@[n]) == k {
                    let n = choose|n: Seq<char>| #[trigger] a.contains(n) && edge_dep_path(n, pkg.dependencies@[n])
                        == k;
                    assert(b.contains(n));
                }
                if exists|n: Seq<char>| #[trigger] b.contains(n) && edge_dep_path(n, pkg.dependencies@[n]) == k {
                    let n = choose|n: Seq<char>| #[trigger] b.contains(n) && edge_dep_path(n, pkg.dependencies@[n])
                        == k;
                    assert(a.contains(n) || n == name@);
                }
            }
        }
        i += 1;
    }
    proof {
        lemma_all_keys(pkg.dependencies);
        let all = pkg.dependencies.keys().take(i as int);
        let now = texts(todo@);
        assert forall|k: Seq<char>|
            #[trigger] now.contains(k) <==> first.contains(k) || exists|name: Seq<char>|
                #[trigger] pkg.dependencies@.contains_key(name) && edge_dep_path(name, pkg.dependencies@[name]) == k by {
            assert(now.contains(k) <==> first.contains(k) || exists|name: Seq<char>| #[trigger]
                all.contains(name) && edge_dep_path(name, pkg.dependencies@[name]) == k);
            if exists|name: Seq<char>| #[trigger] pkg.dependencies@.contains_key(name) && edge_dep_path(
                name,
                pkg.dependencies@[name],
            ) == k {
                let n = choose|name: Seq<char>| #[trigger] pkg.dependencies@.contains_key(name) && edge_dep_path(
                    name,
                    pkg.dependencies@[name],
                ) == k;
                assert(all.contains(n));
                assert(now.contains(k));
            }
            if exists|name: Seq<char>| #[trigger] all.contains(name) && edge_dep_path(name, pkg.dependencies@[name])
                == k {
                let n = choose|name: Seq<char>| #[trigger] all.contains(name) && edge_dep_path(
                    name,
                    pkg.dependencies@[name],
                ) == k;
                assert(pkg.dependencies@.contains_key(n));
            }
        }
    }
}

/// The packages that are needed by one of `roots`, or are one.
pub fn reachable_packages(packages: &StrMap<LockedPackage>, roots: &Vec<String>) -> (r: StrSet)
    ensures
        forall|k: Seq<char>| #[trigger] r@.contains(k) <==> reachable(packages@, texts(roots@).to_set(), k),
{
    let mut todo: Vec<String> = crate::text::copy_texts(roots);
    let mut seen = StrSet::new();
    let ghost p = packages@;
    let ghost start = texts(roots@).to_set();
    let total = packages.len();
    proof {
        lemma_key_count(*packages);
        assert forall|k: Seq<char>| texts(todo@).contains(k) && p.contains_key(k) implies reachable(p, start, k) by {
            let way = seq![k];
            assert(leads_to(p, start, way, k));
        }
    }
    while todo.len() > 0
        invariant
            p == packages@,
            start == texts(roots@).to_set(),
            p.dom().finite(),
            seen@.finite(),
            seen@.subset_of(p.dom()),
            forall|k: Seq<char>| #[trigger] seen@.contains(k) ==> reachable(p, start, k),
            forall|k: Seq<char>|
                #[trigger] texts(todo@).contains(k) && p.contains_key(k) ==> reachable(p, start, k),
            forall|k: Seq<char>|
                start.contains(k) && p.contains_key(k) ==> seen@.contains(k) || #[trigger] texts(todo@).contains(k),
            forall|a: Seq<char>, b: Seq<char>|
                #[trigger] seen@.contains(a) && #[trigger] needs(p, a, b) && p.contains_key(b) ==> seen@.contains(b)
                    || texts(todo@).contains(b),
        decreases p.dom().len() - seen@.len(), todo@.len(),
    {
        let ghost was = texts(todo@);
        let ghost held = seen@;
        let key = match todo.pop() {
            Some(k) => k,
            None => String::new(),
        };
        let ghost k = key@;
        let ghost rest = texts(todo@);
        proof {
            assert(rest =~= was.drop_last());
            assert(was.last() == k);
            assert(was.contains(k)) by {
                assert(was[was.len() - 1] == k);
            }
            assert forall|x: Seq<char>| was.contains(x) <==> rest.contains(x) || x == k by {
                if rest.contains(x) {
                    let j = choose|j: int| 0 <= j < rest.len() && rest[j] == x;
                    assert(was[j] == x);
                }
                if was.contains(x) && x != k {
                    let j = choose|j: int| 0 <= j < was.len() && was[j] == x;
                    assert(rest[j] == x);
                }
            }
            vstd::set_lib::lemma_len_subset(held, p.dom());
        }
        if let Some(pkg) = packages.get(key.as_str()) {
            if !seen.contains(key.as_str()) {
                proof {
                    assert(reachable(p, start, k));
                }
                push_needs(pkg, &mut todo);
                seen.insert(key);
                proof {
                    let now = texts(todo@);
                    assert(seen@ =~= held.insert(k));
                    vstd::set_lib::lemma_len_subset(seen@, p.dom());
                    assert forall|x: Seq<char>| now.contains(x) <==> rest.contains(x) || needs(p, k, x) by {}
                    assert forall|x: Seq<char>| #[trigger] now.contains(x) && p.contains_key(x) implies reachable(
                        p,
                        start,
                        x,
                    ) by {
                        if needs(p, k, x) {
                            lemma_step_further(p, start, k, x);
                        } else {
                            assert(was.contains(x));
                        }
                    }
                    assert forall|x: Seq<char>| start.contains(x) && p.contains_key(x) implies seen@.contains(x)
                        || #[trigger] now.contains(x) by {
                        assert(held.contains(x) || was.contains(x));
                    }
                    assert forall|a: Seq<char>, b: Seq<char>| #[trigger]
                        seen@.contains(a) && #[trigger] needs(p, a, b) && p.contains_key(b) implies seen@.contains(b)
                        || now.contains(b) by {
                        if a != k {
                            assert(held.contains(a));
                            assert(held.contains(b) || was.contains(b));
                        }
                    }
                }
            } else {
                proof {
                    assert forall|x: Seq<char>| #[trigger] rest.contains(x) && p.contains_key(x) implies reachable(
                        p,
                        start,
                        x,
                    ) by {
                        assert(was.contains(x));
                    }
                    assert forall|x: Seq<char>| start.contains(x) && p.contains_key(x) implies seen@.contains(x)
                        || #[trigger] rest.contains(x) by {
                        assert(held.contains(x) || was.contains(x));
                    }
                }
            }
        } else {
            proof {
                assert forall|x: Seq<char>| #[trigger] rest.contains(x) && p.contains_key(x) implies reachable(
                    p,
                    start,
                    x,
                ) by {
                    assert(was.contains(x));
                }
                assert forall|x: Seq<char>| start.contains(x) && p.contains_key(x) implies seen@.contains(x)
                    || #[trigger] rest.contains(x) by {
                    assert(held.contains(x) || was.contains(x));
                }
            }
        }
    }
    proof {
        assert(forall|k: Seq<char>| !texts(todo@).contains(k));
        assert forall|r: Seq<char>| #[trigger] start.contains(r) && p.contains_key(r) implies seen@.contains(r) by {
            assert(seen@.contains(r) || texts(todo@).contains(r));
        }
        assert forall|a: Seq<char>, b: Seq<char>| #[trigger]
            seen@.contains(a) && #[trigger] needs(p, a, b) && p.contains_key(b) implies seen@.contains(b) by {
            assert(seen@.contains(b) || texts(todo@).contains(b));
        }
        assert forall|k: Seq<char>| reachable(p, start, k) implies #[trigger] seen@.contains(k) by {
            let way = choose|way: Seq<Seq<char>>| #[trigger] leads_to(p, start, way, k);
            lemma_closed_holds_all(p, start, seen@, way);
        }
    }
    seen
}

/// Those of the first `n` direct dependencies that are installed.
pub open spec fn kept_deps(deps: Seq<DirectDep>, selection: DepSelection, n: int) -> Seq<DirectDep>
    decreases n,
{
    if n <= 0 {
        Seq::empty()
    } else {
        let rest = kept_deps(deps, selection, n - 1);
        if selection.keeps_spec(deps[n - 1].dep_type) {
            rest.push(deps[n - 1])
        } else {
            rest
        }
    }
}

/// The importer without the direct dependencies that are left out.
pub open spec fn is_narrowed(importer: Importer, selection: DepSelection, r: Importer) -> bool {
    r.physical == importer.physical && r.dependencies@ == kept_deps(
        importer.dependencies@,
        selection,
        importer.dependencies@.len() as int,
    )
}

fn narrow_importer(importer: Importer, selection: &DepSelection) -> (r: Importer)
    ensures
        is_narrowed(importer, *selection, r),
{
    let Importer { physical, dependencies } = importer;
    let ghost all = dependencies@;
    let mut rest = dependencies;
    let mut kept: Vec<DirectDep> = Vec::new();
    let total = rest.len();
    let mut i: usize = 0;
    while i < total
        invariant
            i <= total,
            total == all.len(),
            rest@ == all.skip(i as int),
            kept@ == kept_deps(all, *selection, i as int),
        decreases total - i,
    {
        let dep = rest.remove(0);
        proof {
            assert(dep == all[i as int]);
            assert(rest@ =~= all.skip(i + 1));
        }
        if selection.keeps(dep.dep_type) {
            kept.push(dep);
        }
        i += 1;
    }
    Importer { physical, dependencies: kept }
}

/// The keys of the direct dependencies of the importers in `names`.
pub open spec fn is_root(importers: Map<Seq<char>, Importer>, k: Seq<char>) -> bool {
    exists|name: Seq<char>, i: int|
        importers.contains_key(name) && 0 <= i < importers[name].dependencies@.len() && (
        #[trigger] importers[name].dependencies@[i]).dep_path@ == k
}

/// The keys of all direct dependencies.
fn root_keys(importers: &StrMap<Importer>) -> (r: Vec<String>)
    ensures
        forall|k: Seq<char>| #[trigger] texts(r@).contains(k) <==> is_root(importers@, k),
{
    let mut out: Vec<String> = Vec::new();
    let total = importers.len();
    let mut n: usize = 0;
    proof {
        assert(texts(out@) =~= Seq::<Seq<char>>::empty());
    }
    while n < total
        invariant
            n <= total,
            total == importers.keys().len(),
            importers.wf(),
            forall|k: Seq<char>| #[trigger]
                texts(out@).contains(k) <==> exists|a: int, i: int|
                    0 <= a < n && 0 <= i < importers.values()[a].dependencies@.len() && (
                    #[trigger] importers.values()[a].dependencies@[i]).dep_path@ == k,
        decreases total - n,
    {
        let importer = importers.value_at(n);
        let count = importer.dependencies.len();
        let mut i: usize = 0;
        while i < count
            invariant
                n < total,
                total == importers.keys().len(),
                importers.wf(),
                *importer == importers.values()[n as int],
                i <= count,
                count == importer.dependencies@.len(),
                forall|k: Seq<char>| #[trigger]
                    texts(out@).contains(k) <==> exists|a: int, j: int|
                        (0 <= a < n || (a == n && j < i)) && 0 <= j < importers.values()[a].dependencies@.len() && (
                        #[trigger] importers.values()[a].dependencies@[j]).dep_path@ == k,
            decreases count - i,
        {
            let ghost was = texts(out@);
            let key = importer.dependencies[i].dep_path.clone();
            let ghost c = key@;
            out.push(key);
            proof {
                let now = texts(out@);
                assert(now =~= was.push(c));
                assert forall|k: Seq<char>| #[trigger] now.contains(k) <==> exists|a: int, j: int|
                    (0 <= a < n || (a == n && j < i + 1)) && 0 <= j < importers.values()[a].dependencies@.len() && (
                    #[trigger] importers.values()[a].dependencies@[j]).dep_path@ == k by {
                    if k == c {
                        assert(now[now.len() - 1] == k);
                        assert(importers.values()[n as int].dependencies@[i as int].dep_path@ == k);
                    }
                    if was.contains(k) {
                        let x = choose|x: int| 0 <= x < was.len() && was[x] == k;
                        assert(now[x] == k);
                        let (a, j) = choose|a: int, j: int|
                            (0 <= a < n || (a == n && j < i)) && 0 <= j < importers.values()[a].dependencies@.len() && (
                            #[trigger] importers.values()[a].dependencies@[j]).dep_path@ == k;
                        assert(importers.values()[a].dependencies@[j].dep_path@ == k);
                    }
                    if now.contains(k) && k != c {
                        let x = choose|x: int| 0 <= x < now.len() && now[x] == k;
                        assert(was[x] == k);
                    }
                    if exists|a: int, j: int|
                        (0 <= a < n || (a == n && j < i + 1)) && 0 <= j < importers.values()[a].dependencies@.len() && (
                        #[trigger] importers.values()[a].dependencies@[j]).dep_path@ == k {
                        let (a, j) = choose|a: int, j: int|
                            (0 <= a < n || (a == n && j < i + 1)) && 0 <= j < importers.values()[a].dependencies@.len()
                                && (#[trigger] importers.values()[a].dependencies@[j]).dep_path@ == k;
                        if k != c {
                            assert(!(a == n && j == i));
                            assert(importers.values()[a].dependencies@[j].dep_path@ == k);
                            assert(was.contains(k));
                        }
                    }
                }
            }
            i += 1;
        }
        n += 1;
    }
    proof {
        assert forall|k: Seq<char>| #[trigger] texts(out@).contains(k) <==> is_root(importers@, k) by {
            if texts(out@).contains(k) {
                let (a, i) = choose|a: int, i: int|
                    0 <= a < n && 0 <= i < importers.values()[a].dependencies@.len() && (
                    #[trigger] importers.values()[a].dependencies@[i]).dep_path@ == k;
                lemma_entry(*importers, a);
                assert(importers@[importers.keys()[a]].dependencies@[i].dep_path@ == k);
            }
            if is_root(importers@, k) {
                let (name, i) = choose|name: Seq<char>, i: int|
                    importers@.contains_key(name) && 0 <= i < importers@[name].dependencies@.len() && (
                    #[trigger] importers@[name].dependencies@[i]).dep_path@ == k;
                let a = lemma_key_index(*importers, name);
                assert(importers.values()[a].dependencies@[i].dep_path@ == k);
            }
        }
    }
    out
}

/// The package is a direct dependency of an importer, or one needs it.
pub open spec fn is_needed(
    packages: Map<Seq<char>, LockedPackage>,
    importers: Map<Seq<char>, Importer>,
    k: Seq<char>,
) -> bool {
    reachable(packages, Set::new(|r: Seq<char>| is_root(importers, r)), k)
}

/// The graph holds exactly the packages of `packages` that its importers need.
pub open spec fn is_pruned(packages: Map<Seq<char>, LockedPackage>, r: LockfileGraph) -> bool {
    &&& forall|k: Seq<char>| #[trigger]
        r.packages@.contains_key(k) <==> packages.contains_key(k) && is_needed(packages, r.importers@, k)
    &&& forall|k: Seq<char>| #[trigger] r.packages@.contains_key(k) ==> r.packages@[k] == packages[k]
}

/// Drop the packages that no importer needs.
fn prune(graph: LockfileGraph) -> (r: LockfileGraph)
    ensures
        r.importers == graph.importers,
        r.times == graph.times,
        r.include_tarball_url == graph.include_tarball_url,
        is_pruned(graph.packages@, r),
{
    let roots = root_keys(&graph.importers);
    let kept = reachable_packages(&graph.packages, &roots);
    let ghost first = graph.packages;
    let ghost p = graph.packages@;
    proof {
        assert(texts(roots@).to_set() =~= Set::new(|r: Seq<char>| is_root(graph.importers@, r)));
        assert forall|k: Seq<char>| #[trigger] kept@.contains(k) <==> is_needed(p, graph.importers@, k) by {}
    }
    let keys = keys_of(&graph.packages);
    let LockfileGraph { importers, packages, times, include_tarball_url } = graph;
    let mut left = packages;
    let total = keys.len();
    let mut i: usize = 0;
    proof {
        lemma_all_keys(first);
        assert(texts(keys@).len() == keys@.len());
    }
    while i < total
        invariant
            i <= total,
            total == keys@.len(),
            texts(keys@) == first.keys(),
            p == first@,
            forall|k: Seq<char>| #[trigger]
                left@.contains_key(k) <==> p.contains_key(k) && (kept@.contains(k) || !first.keys().take(
                    i as int,
                ).contains(k)),
            forall|k: Seq<char>| #[trigger] left@.contains_key(k) ==> left@[k] == p[k],
        decreases total - i,
    {
        let key = keys[i].as_str();
        proof {
            assert(texts(keys@)[i as int] == key@);
            lemma_first_keys(first.keys(), i as int);
        }
        if !kept.contains(key) {
            left.remove(key);
        }
        i += 1;
    }
    proof {
        lemma_all_keys(first);
    }
    LockfileGraph { importers, packages: left, times, include_tarball_url }
}

/// Drop the direct dependencies that are not selected, and the packages that
/// were needed for them alone.
pub fn filter_deps(graph: LockfileGraph, selection: &DepSelection) -> (r: LockfileGraph)
    ensures
        r.importers@.dom() == graph.importers@.dom(),
        forall|name: Seq<char>| #[trigger]
            r.importers@.contains_key(name) ==> is_narrowed(graph.importers@[name], *selection, r.importers@[name]),
        r.times == graph.times,
        r.include_tarball_url == graph.include_tarball_url,
        is_pruned(graph.packages@, r),
{
    let keys = keys_of(&graph.importers);
    let ghost first = graph.importers;
    let LockfileGraph { importers, packages, times, include_tarball_url } = graph;
    let mut left = importers;
    let total = keys.len();
    let mut i: usize = 0;
    proof {
        lemma_all_keys(first);
        lemma_increasing_distinct(first.keys());
        assert(texts(keys@).len() == keys@.len());
    }
    while i < total
        invariant
            i <= total,
            total == keys@.len(),
            first.wf(),
            texts(keys@) == first.keys(),
            first.keys().no_duplicates(),
            left@.dom() =~= first@.dom(),
            forall|k: Seq<char>| #[trigger]
                left@.contains_key(k) ==> if first.keys().take(i as int).contains(k) {
                    is_narrowed(first@[k], *selection, left@[k])
                } else {
                    left@[k] == first@[k]
                },
        decreases total - i,
    {
        let key = keys[i].clone();
        let ghost k = key@;
        let ghost was = left@;
        proof {
            assert(texts(keys@)[i as int] == k);
            lemma_entry(first, i as int);
            lemma_first_keys(first.keys(), i as int);
            if first.keys().take(i as int).contains(k) {
                let j = choose|j: int| 0 <= j < i && first.keys().take(i as int)[j] == k;
                assert(first.keys()[j] == first.keys()[i as int]);
            }
        }
        if let Some(importer) = left.remove(key.as_str()) {
            left.insert(key, narrow_importer(importer, selection));
            proof {
                assert(left@.dom() =~= first@.dom());
            }
        }
        i += 1;
    }
    prune(LockfileGraph { importers: left, packages, times, include_tarball_url })
}

/// Keep the importers in `names`, and the packages that they need.
pub fn filter_graph_to_importers(graph: LockfileGraph, names: &StrSet) -> (r: LockfileGraph)
    ensures
        r.importers@ == graph.importers@.restrict(names@),
        r.times == graph.times,
        r.include_tarball_url == graph.include_tarball_url,
        is_pruned(graph.packages@, r),
{
    let keys = keys_of(&graph.importers);
    let ghost first = graph.importers;
    let LockfileGraph { importers, packages, times, include_tarball_url } = graph;
    let mut left = importers;
    let total = keys.len();
    let mut i: usize = 0;
    proof {
        lemma_all_keys(first);
        assert(texts(keys@).len() == keys@.len());
    }
    while i < total
        invariant
            i <= total,
            total == keys@.len(),
            texts(keys@) == first.keys(),
            forall|k: Seq<char>| #[trigger]
                left@.contains_key(k) <==> first@.contains_key(k) && (names@.contains(k) || !first.keys().take(
                    i as int,
                ).contains(k)),
            forall|k: Seq<char>| #[trigger] left@.contains_key(k) ==> left@[k] == first@[k],
        decreases total - i,
    {
        let key = keys[i].as_str();
        proof {
            assert(texts(keys@)[i as int] == key@);
            lemma_first_keys(first.keys(), i as int);
        }
        if !names.contains(key) {
            left.remove(key);
        }
        i += 1;
    }
    proof {
        lemma_all_keys(first);
        assert(left@ =~= first@.restrict(names@));
    }
    prune(LockfileGraph { importers: left, packages, times, include_tarball_url })
}

/// A way through some of the packages is a way through all of them, and a way
/// from a root through all of them stays among those that the roots need.
proof fn lemma_way_in_pruned(
    p: Map<Seq<char>, LockedPackage>,
    q: Map<Seq<char>, LockedPackage>,
    wide: Set<Seq<char>>,
    roots: Set<Seq<char>>,
    way: Seq<Seq<char>>,
)
    requires
        forall|k: Seq<char>| #[trigger] q.contains_key(k) <==> p.contains_key(k) && reachable(p, wide, k),
        forall|k: Seq<char>| #[trigger] q.contains_key(k) ==> q[k] == p[k],
        roots.subset_of(wide),
        way.len() > 0,
        roots.contains(way[0]),
    ensures
        is_way(p, way) <==> is_way(q, way),
    decreases way.len(),
{
    if is_way(q, way) {
        assert forall|i: int| 0 <= i < way.len() implies p.contains_key(#[trigger] way[i]) by {
            assert(q.contains_key(way[i]));
        }
        assert forall|i: int| 0 <= i < way.len() - 1 implies needs(p, #[trigger] way[i], way[i + 1]) by {
            assert(q.contains_key(way[i]));
            assert(needs(q, way[i], way[i + 1]));
        }
    }
    if is_way(p, way) {
        assert forall|i: int| 0 <= i < way.len() implies q.contains_key(#[trigger] way[i]) by {
            let part = way.take(i + 1);
            assert forall|j: int| 0 <= j < part.len() - 1 implies needs(p, #[trigger] part[j], part[j + 1]) by {
                assert(needs(p, way[j], way[j + 1]));
            }
            assert forall|j: int| 0 <= j < part.len() implies p.contains_key(#[trigger] part[j]) by {
                assert(p.contains_key(way[j]));
            }
            assert(part[0] == way[0]);
            assert(leads_to(p, wide, part, way[i]));
        }
        assert forall|i: int| 0 <= i < way.len() - 1 implies needs(q, #[trigger] way[i], way[i + 1]) by {
            assert(q.contains_key(way[i]));
            assert(needs(p, way[i], way[i + 1]));
        }
    }
}

/// Pruning what was pruned for more roots is pruning.
proof fn lemma_pruned_twice(p: Map<Seq<char>, LockedPackage>, mid: LockfileGraph, r: LockfileGraph)
    requires
        is_pruned(p, mid),
        is_pruned(mid.packages@, r),
        forall|k: Seq<char>| is_root(r.importers@, k) ==> #[trigger] is_root(mid.importers@, k),
    ensures
        is_pruned(p, r),
{
    let q = mid.packages@;
    let wide = Set::new(|k: Seq<char>| is_root(mid.importers@, k));
    let roots = Set::new(|k: Seq<char>| is_root(r.importers@, k));
    assert(roots.subset_of(wide));
    assert forall|k: Seq<char>| q.contains_key(k) <==> p.contains_key(k) && reachable(p, wide, k) by {
        assert(q.contains_key(k) <==> p.contains_key(k) && is_needed(p, mid.importers@, k));
    }
    assert forall|k: Seq<char>| #[trigger] r.packages@.contains_key(k) <==> p.contains_key(k) && is_needed(
        p,
        r.importers@,
        k,
    ) by {
        if reachable(q, roots, k) {
            let way = choose|way: Seq<Seq<char>>| #[trigger] leads_to(q, roots, way, k);
            lemma_way_in_pruned(p, q, wide, roots, way);
            assert(leads_to(p, roots, way, k));
        }
        if reachable(p, roots, k) {
            let way = choose|way: Seq<Seq<char>>| #[trigger] leads_to(p, roots, way, k);
            lemma_way_in_pruned(p, q, wide, roots, way);
            assert(leads_to(q, roots, way, k));
            assert(q.contains_key(way[way.len() - 1]));
        }
        assert(is_needed(q, r.importers@, k) == reachable(q, roots, k));
        assert(is_needed(p, r.importers@, k) == reachable(p, roots, k));
    }
    assert forall|k: Seq<char>| #[trigger] r.packages@.contains_key(k) implies r.packages@[k] == p[k] by {
        assert(q.contains_key(k));
    }
}

/// What an install is narrowed to.
pub open spec fn keeps_importer(workspace: Option<Set<Seq<char>>>, root_only: bool, name: Seq<char>) -> bool {
    match workspace {
        Some(names) => names.contains(name),
        None => root_only ==> name == "."@,
    }
}

/// The set of names, where there is one.
pub open spec fn opt_names(names: Option<&StrSet>) -> Option<Set<Seq<char>>> {
    match names {
        Some(s) => Some(s@),
        None => None,
    }
}

/// The part of the graph that is linked.
///
/// Direct dependencies that are not selected are dropped; then the importers
/// that are not in `workspace` are, where importers were selected, and all but
/// the root where `root_only` holds. Packages that are needed for nothing else
/// go with them. Where nothing is dropped the graph stays as it is.
pub fn filter_graph_for_install(
    graph: LockfileGraph,
    selection: &DepSelection,
    workspace: Option<&StrSet>,
    root_only: bool,
) -> (r: LockfileGraph)
    ensures
        forall|name: Seq<char>| #[trigger]
            r.importers@.contains_key(name) <==> graph.importers@.contains_key(name) && keeps_importer(
                opt_names(workspace),
                root_only,
                name,
            ),
        forall|name: Seq<char>| #[trigger]
            r.importers@.contains_key(name) ==> if selection.filters() {
                is_narrowed(graph.importers@[name], *selection, r.importers@[name])
            } else {
                r.importers@[name] == graph.importers@[name]
            },
        r.times == graph.times,
        r.include_tarball_url == graph.include_tarball_url,
        if selection.filters() || workspace is Some || root_only {
            is_pruned(graph.packages@, r)
        } else {
            r == graph
        },
{
    let ghost g = graph;
    let filtered = selection.is_filtered();
    let mid = if filtered {
        filter_deps(graph, selection)
    } else {
        graph
    };
    let ghost m = mid;
    let r = match workspace {
        Some(names) => filter_graph_to_importers(mid, names),
        None => if root_only {
            let mut names = StrSet::new();
            names.insert(".".to_owned());
            filter_graph_to_importers(mid, &names)
        } else {
            mid
        },
    };
    proof {
        if filtered && (workspace is Some || root_only) {
            assert forall|k: Seq<char>| is_root(r.importers@, k) implies #[trigger] is_root(m.importers@, k) by {
                let (name, i) = choose|name: Seq<char>, i: int|
                    r.importers@.contains_key(name) && 0 <= i < r.importers@[name].dependencies@.len() && (
                    #[trigger] r.importers@[name].dependencies@[i]).dep_path@ == k;
                assert(m.importers@.contains_key(name));
                assert(m.importers@[name].dependencies@[i].dep_path@ == k);
            }
            lemma_pruned_twice(g.packages@, m, r);
        }
    }
    r
}

/// Every direct dependency that is kept is of a kind that is selected, and
/// every one of such a kind is kept.
pub proof fn law_kept_dependencies_are_selected(deps: Seq<DirectDep>, selection: DepSelection, n: int, d: DirectDep)
    requires
        0 <= n <= deps.len(),
    ensures
        kept_deps(deps, selection, n).contains(d) <==> deps.take(n).contains(d) && selection.keeps_spec(d.dep_type),
    decreases n,
{
    if n > 0 {
        law_kept_dependencies_are_selected(deps, selection, n - 1, d);
        let rest = kept_deps(deps, selection, n - 1);
        let now = kept_deps(deps, selection, n);
        let (a, b) = (deps.take(n - 1), deps.take(n));
        assert(b =~= a.push(deps[n - 1]));
        if a.contains(d) {
            let i = choose|i: int| 0 <= i < a.len() && a[i] == d;
            assert(b[i] == d);
        }
        if rest.contains(d) {
            let i = choose|i: int| 0 <= i < rest.len() && rest[i] == d;
            assert(now[i] == d);
        }
        if d == deps[n - 1] {
            assert(b[n - 1] == d);
            if selection.keeps_spec(d.dep_type) {
                assert(now[now.len() - 1] == d);
            }
        } else {
            if b.contains(d) {
                let i = choose|i: int| 0 <= i < b.len() && b[i] == d;
                assert(a[i] == d);
            }
            if now.contains(d) {
                let i = choose|i: int| 0 <= i < now.len() && now[i] == d;
                assert(rest[i] == d);
            }
        }
    }
}

/// A package that is kept has with it everything that it needs.
pub proof fn law_kept_packages_are_complete(
    packages: Map<Seq<char>, LockedPackage>,
    r: LockfileGraph,
    a: Seq<char>,
    b: Seq<char>,
)
    requires
        is_pruned(packages, r),
        r.packages@.contains_key(a),
        needs(packages, a, b),
        packages.contains_key(b),
    ensures
        r.packages@.contains_key(b),
{
    lemma_step_further(packages, Set::new(|k: Seq<char>| is_root(r.importers@, k)), a, b);
    assert(is_needed(packages, r.importers@, b));
}

/// The direct dependencies that are kept have their packages kept.
pub proof fn law_kept_dependencies_are_there(packages: Map<Seq<char>, LockedPackage>, r: LockfileGraph, k: Seq<char>)
    requires
        is_pruned(packages, r),
        is_root(r.importers@, k),
        packages.contains_key(k),
    ensures
        r.packages@.contains_key(k),
{
    let roots = Set::new(|x: Seq<char>| is_root(r.importers@, x));
    assert(leads_to(packages, roots, seq![k], k));
    assert(is_needed(packages, r.importers@, k));
}

} // verus!
