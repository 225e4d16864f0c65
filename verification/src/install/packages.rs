//! What fetching teaches about the packages of the graph.
use crate::graph::{LockedPackage, LockfileGraph};
use crate::str_map::{lemma_all_keys, lemma_entry, lemma_first_keys, lemma_increasing_distinct, StrMap, StrSet};
use crate::text::{head_until, text_until, texts};
use vstd::prelude::*;

verus! {

/// The key of a package without the peers that it was resolved with.
pub open spec fn canonical(dep_path: Seq<char>) -> Seq<char> {
    head_until(dep_path, '(')
}

/// The key of a package without the peers that it was resolved with.
pub fn strip_peer_context_suffix(dep_path: &str) -> (r: String)
    ensures
        r@ == canonical(dep_path@),
{
    text_until(dep_path, '(')
}

/// The keys of a map, in order.
pub(crate) fn keys_of<V>(map: &StrMap<V>) -> (r: Vec<String>)
    ensures
        texts(r@) == map.keys(),
        map.wf(),
{
    let mut out: Vec<String> = Vec::new();
    let total = map.len();
    let mut i: usize = 0;
    while i < total
        invariant
            i <= total,
            total == map.keys().len(),
            texts(out@) =~= map.keys().take(i as int),
        decreases total - i,
    {
        let ghost was = out@;
        let key = map.key_at(i);
        out.push(key.to_owned());
        proof {
            assert(texts(out@) =~= texts(was).push(key@));
            assert(map.keys().take(i + 1) =~= map.keys().take(i as int).push(key@));
        }
        i += 1;
    }
    proof {
        assert(map.keys().take(i as int) =~= map.keys());
    }
    out
}

/// A computed integrity belongs to the package.
pub open spec fn gets_integrity(pkg: LockedPackage, computed: StrMap<String>) -> bool {
    pkg.integrity is None && pkg.local_source is None && computed@.contains_key(canonical(pkg.dep_path@))
}

/// The package with the integrity that was computed for it.
pub open spec fn with_integrity(pkg: LockedPackage, computed: StrMap<String>) -> LockedPackage {
    if gets_integrity(pkg, computed) {
        LockedPackage { integrity: Some(computed@[canonical(pkg.dep_path@)]), ..pkg }
    } else {
        pkg
    }
}

fn stamp_integrity(pkg: LockedPackage, computed: &StrMap<String>) -> (r: LockedPackage)
    ensures
        r == with_integrity(pkg, *computed),
{
    if pkg.integrity.is_some() || pkg.local_source.is_some() {
        return pkg;
    }
    let key = strip_peer_context_suffix(pkg.dep_path.as_str());
    match computed.get(key.as_str()) {
        Some(integrity) => {
            let mut out = pkg;
            out.integrity = Some(integrity.clone());
            out
        },
        None => pkg,
    }
}

/// Record the integrities that fetching computed, by the keys of the packages
/// without their peers. A package that has one keeps it, and so does one that
/// does not come from a registry.
pub fn apply_computed_integrities(graph: &mut LockfileGraph, computed: &StrMap<String>)
    ensures
        final(graph).importers == old(graph).importers,
        final(graph).times == old(graph).times,
        final(graph).include_tarball_url == old(graph).include_tarball_url,
        final(graph).packages@ == old(graph).packages@.map_values(|p: LockedPackage| with_integrity(p, *computed)),
{
    let mut packages: StrMap<LockedPackage> = StrMap::new();
    std::mem::swap(&mut packages, &mut graph.packages);
    let ghost first = packages;
    let keys = keys_of(&packages);
    let total = keys.len();
    let mut i: usize = 0;
    proof {
        lemma_all_keys(first);
        lemma_increasing_distinct(first.keys());
        assert(texts(keys@).len() == keys@.len());
    }
    while i < total
        invariant
            i <= total,
            total == keys@.len(),
            first.wf(),
            texts(keys@) == first.keys(),
            first.keys().no_duplicates(),
            packages@.dom() =~= first@.dom(),
            forall|k: Seq<char>| #[trigger]
                packages@.contains_key(k) ==> packages@[k] == if first.keys().take(i as int).contains(k) {
                    with_integrity(first@[k], *computed)
                } else {
                    first@[k]
                },
        decreases total - i,
    {
        let ghost was = packages@;
        let key = keys[i].clone();
        let ghost k = key@;
        proof {
            assert(texts(keys@)[i as int] == k);
            lemma_entry(first, i as int);
            lemma_first_keys(first.keys(), i as int);
            if first.keys().take(i as int).contains(k) {
                let j = choose|j: int| 0 <= j < i && first.keys().take(i as int)[j] == k;
                assert(first.keys()[j] == first.keys()[i as int]);
            }
        }
        if let Some(pkg) = packages.remove(key.as_str()) {
            packages.insert(key, stamp_integrity(pkg, computed));
            proof {
                assert(packages@.dom() =~= first@.dom());
            }
        }
        i += 1;
    }
    proof {
        assert(packages@ =~= first@.map_values(|p: LockedPackage| with_integrity(p, *computed)));
    }
    graph.packages = packages;
}

/// An integrity that is there is kept, and a package that does not come from a
/// registry gets none.
pub proof fn law_recorded_integrity_is_kept(pkg: LockedPackage, computed: StrMap<String>)
    requires
        pkg.integrity is Some || pkg.local_source is Some,
    ensures
        with_integrity(pkg, computed) == pkg,
{
}

/// The variants of a package that differ by their peers alone get the same
/// integrity.
pub proof fn law_peer_variants_share_an_integrity(a: LockedPackage, b: LockedPackage, computed: StrMap<String>)
    requires
        canonical(a.dep_path@) == canonical(b.dep_path@),
        gets_integrity(a, computed),
        b.integrity is None,
        b.local_source is None,
    ensures
        with_integrity(a, computed).integrity == with_integrity(b, computed).integrity,
        with_integrity(a, computed).integrity is Some,
{
}

/// Recording integrities twice is recording them once.
pub proof fn law_recording_again_changes_nothing(pkg: LockedPackage, computed: StrMap<String>)
    ensures
        with_integrity(with_integrity(pkg, computed), computed) == with_integrity(pkg, computed),
{
}

/// The package with the place of its tarball.
pub open spec fn with_tarball_url(pkg: LockedPackage, url: String) -> LockedPackage {
    if pkg.local_source is None && pkg.tarball_url is None {
        LockedPackage { tarball_url: Some(url), ..pkg }
    } else {
        pkg
    }
}

/// Record where the tarball of every package of a registry is; a place that is
/// recorded is kept. `urls` holds one place for each package, in order.
pub fn fill_tarball_urls(graph: &mut LockfileGraph, urls: &Vec<String>)
    requires
        urls@.len() == old(graph).packages.keys().len(),
    ensures
        final(graph).importers == old(graph).importers,
        final(graph).times == old(graph).times,
        final(graph).include_tarball_url,
        final(graph).packages@.dom() == old(graph).packages@.dom(),
        forall|i: int|
            0 <= i < urls@.len() ==> #[trigger] final(graph).packages@[old(graph).packages.keys()[i]]
                == with_tarball_url(old(graph).packages.values()[i], urls@[i]),
{
    let mut packages: StrMap<LockedPackage> = StrMap::new();
    std::mem::swap(&mut packages, &mut graph.packages);
    let ghost first = packages;
    let keys = keys_of(&packages);
    let total = keys.len();
    let mut i: usize = 0;
    proof {
        lemma_increasing_distinct(first.keys());
        assert(texts(keys@).len() == keys@.len());
    }
    while i < total
        invariant
            i <= total,
            total == keys@.len(),
            total == urls@.len(),
            first.wf(),
            texts(keys@) == first.keys(),
            first.keys().no_duplicates(),
            packages@.dom() =~= first@.dom(),
            forall|j: int|
                0 <= j < total ==> #[trigger] packages@[first.keys()[j]] == if j < i {
                    with_tarball_url(first.values()[j], urls@[j])
                } else {
                    first.values()[j]
                },
        decreases total - i,
    {
        let ghost was = packages@;
        let key = keys[i].clone();
        let ghost k = key@;
        proof {
            assert(texts(keys@)[i as int] == k);
            assert(packages@[first.keys()[i as int]] == first.values()[i as int]);
            lemma_entry(first, i as int);
        }
        if let Some(pkg) = packages.remove(key.as_str()) {
            let mut next = pkg;
            if next.local_source.is_none() && next.tarball_url.is_none() {
                next.tarball_url = Some(urls[i].clone());
            }
            proof {
                assert(next == with_tarball_url(first.values()[i as int], urls@[i as int]));
            }
            packages.insert(key, next);
            proof {
                assert(packages@.dom() =~= first@.dom());
                assert forall|j: int| 0 <= j < total implies #[trigger] packages@[first.keys()[j]] == if j < i + 1 {
                    with_tarball_url(first.values()[j], urls@[j])
                } else {
                    first.values()[j]
                } by {
                    if j != i {
                        assert(first.keys()[j] != first.keys()[i as int]);
                        assert(packages@[first.keys()[j]] == was[first.keys()[j]]);
                    }
                }
            }
        }
        i += 1;
    }
    graph.packages = packages;
    graph.include_tarball_url = true;
}

/// The package comes from a registry, and its files are not there.
pub open spec fn is_missing(graph: LockfileGraph, indices: Set<Seq<char>>, dep_path: Seq<char>) -> bool {
    graph.packages@.contains_key(dep_path) && !indices.contains(dep_path)
        && graph.packages@[dep_path].local_source is None
}

/// The packages of the graph whose files are there, given the keys of those that
/// were fetched without their peers: every variant of a package has its files.
pub fn contextualized_indices(graph: &LockfileGraph, indices: &StrSet) -> (r: StrSet)
    ensures
        forall|k: Seq<char>| #[trigger]
            r@.contains(k) <==> graph.packages@.contains_key(k) && indices@.contains(canonical(k)),
{
    let mut out = StrSet::new();
    let total = graph.packages.len();
    let mut i: usize = 0;
    proof {
        lemma_all_keys(graph.packages);
    }
    while i < total
        invariant
            i <= total,
            total == graph.packages.keys().len(),
            forall|k: Seq<char>| #[trigger]
                out@.contains(k) <==> graph.packages.keys().take(i as int).contains(k) && indices@.contains(
                    canonical(k),
                ),
        decreases total - i,
    {
        let key = graph.packages.key_at(i);
        let plain = strip_peer_context_suffix(key);
        if indices.contains(plain.as_str()) {
            out.insert(key.to_owned());
        }
        proof {
            lemma_first_keys(graph.packages.keys(), i as int);
        }
        i += 1;
    }
    proof {
        lemma_all_keys(graph.packages);
    }
    out
}

/// No variant of a package that was fetched is missing.
pub proof fn law_fetched_variants_are_not_missing(
    graph: LockfileGraph,
    fetched: Set<Seq<char>>,
    indices: Set<Seq<char>>,
    dep_path: Seq<char>,
)
    requires
        forall|k: Seq<char>| #[trigger]
            indices.contains(k) <==> graph.packages@.contains_key(k) && fetched.contains(canonical(k)),
        fetched.contains(canonical(dep_path)),
    ensures
        !is_missing(graph, indices, dep_path),
{
}

/// The packages of a registry whose files are not there.
pub fn missing_packages(graph: &LockfileGraph, indices: &StrSet) -> (r: StrSet)
    ensures
        forall|k: Seq<char>| #[trigger] r@.contains(k) <==> is_missing(*graph, indices@, k),
{
    let mut out = StrSet::new();
    let total = graph.packages.len();
    let mut i: usize = 0;
    proof {
        lemma_all_keys(graph.packages);
    }
    while i < total
        invariant
            i <= total,
            total == graph.packages.keys().len(),
            graph.packages.wf(),
            forall|k: Seq<char>| #[trigger]
                out@.contains(k) <==> graph.packages.keys().take(i as int).contains(k) && is_missing(
                    *graph,
                    indices@,
                    k,
                ),
        decreases total - i,
    {
        let key = graph.packages.key_at(i);
        let pkg = graph.packages.value_at(i);
        proof {
            lemma_entry(graph.packages, i as int);
            lemma_first_keys(graph.packages.keys(), i as int);
        }
        if !indices.contains(key) && pkg.local_source.is_none() {
            out.insert(key.to_owned());
        }
        i += 1;
    }
    proof {
        lemma_all_keys(graph.packages);
    }
    out
}

/// Once the missing packages were fetched, the files of every package of a
/// registry are there.
pub proof fn law_catch_up_completes(graph: LockfileGraph, indices: Set<Seq<char>>, fetched: Set<Seq<char>>, k: Seq<char>)
    requires
        forall|m: Seq<char>| #[trigger] is_missing(graph, indices, m) ==> fetched.contains(m),
        graph.packages@.contains_key(k),
        graph.packages@[k].local_source is None,
    ensures
        indices.union(fetched).contains(k),
{
    assert(is_missing(graph, indices, k) || indices.contains(k));
}

} // verus!
