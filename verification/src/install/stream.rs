//! Fetching packages as the resolver finds them.
use crate::install::packages::{canonical, strip_peer_context_suffix};
use crate::str_map::{text_map, StrMap, StrSet};
use crate::text::{opt_text, starts_with};
use vstd::prelude::*;

verus! {

/// What the resolver says of a package.
#[derive(Debug)]
pub struct ResolvedPackage {
    pub name: String,
    pub version: String,
    pub dep_path: String,
    /// The package that its name is an alias of.
    pub alias_of: Option<String>,
    /// It comes from disk.
    pub local: bool,
    /// It runs on this platform.
    pub supported: bool,
    pub integrity: Option<String>,
    pub tarball_url: Option<String>,
    pub deprecated: Option<String>,
    /// How many packages the resolver has before it.
    pub pending: usize,
}

impl ResolvedPackage {
    /// The name that the registry and the store know the package by: the target
    /// of an alias, the package's own name otherwise.
    pub fn registry_name(&self) -> (r: &str)
        ensures
            r@ == (match self.alias_of {
                Some(s) => s@,
                None => self.name@,
            }),
    {
        match &self.alias_of {
            Some(s) => s.as_str(),
            None => self.name.as_str(),
        }
    }
}

/// What is done about a package.
#[derive(Debug, Clone, Copy, PartialEq, Eq, Structural)]
pub enum StreamStep {
    /// Put it off: most likely it is not needed on this platform.
    Defer,
    /// Take it from disk.
    ImportLocal,
    /// Look for its files in the store, and fetch it where they are not there.
    LookUp,
}

/// What is done about a package.
pub open spec fn step_for(pkg: ResolvedPackage) -> StreamStep {
    if !pkg.local && !pkg.supported {
        StreamStep::Defer
    } else if pkg.local {
        StreamStep::ImportLocal
    } else {
        StreamStep::LookUp
    }
}

/// What is done about a package.
pub fn stream_step(pkg: &ResolvedPackage) -> (r: StreamStep)
    ensures
        r == step_for(*pkg),
{
    if !pkg.local && !pkg.supported {
        return StreamStep::Defer;
    }
    if pkg.local {
        StreamStep::ImportLocal
    } else {
        StreamStep::LookUp
    }
}

/// What came of a package.
#[derive(Debug, Clone, Copy, PartialEq, Eq, Structural)]
pub enum StreamResult {
    /// It was put off.
    Deferred,
    /// It is linked from where it is.
    Linked,
    /// It was taken from disk into the store.
    Imported,
    /// Its files were in the store.
    Cached,
    /// It is being fetched.
    Fetching,
}

/// The result can come of the step.
pub open spec fn comes_of(step: StreamStep, result: StreamResult) -> bool {
    match step {
        StreamStep::Defer => result == StreamResult::Deferred,
        StreamStep::ImportLocal => result == StreamResult::Linked || result == StreamResult::Imported,
        StreamStep::LookUp => result == StreamResult::Cached || result == StreamResult::Fetching,
    }
}

/// A package that its publisher has deprecated.
#[derive(Debug)]
pub struct DeprecationRecord {
    pub name: String,
    pub version: String,
    pub dep_path: String,
    pub message: String,
}

/// What is said of a deprecated package.
#[verifier::ext_equal]
pub struct DeprecationView {
    pub name: Seq<char>,
    pub version: Seq<char>,
    pub dep_path: Seq<char>,
    pub message: Seq<char>,
}

impl View for DeprecationRecord {
    type V = DeprecationView;

    open spec fn view(&self) -> DeprecationView {
        DeprecationView {
            name: self.name@,
            version: self.version@,
            dep_path: self.dep_path@,
            message: self.message@,
        }
    }
}

/// The packages that have been found, and what came of them.
#[derive(Debug)]
pub struct StreamFetch {
    received: usize,
    deferred: usize,
    reused: usize,
    cached: usize,
    fetching: usize,
    indices: StrSet,
    computed: StrMap<String>,
    deprecations: Vec<DeprecationRecord>,
}

/// The packages that have been found, and what came of them.
#[verifier::ext_equal]
pub struct StreamView {
    /// How many were found.
    pub received: nat,
    /// How many were put off.
    pub deferred: nat,
    /// How many need no fetch.
    pub reused: nat,
    /// How many of these have files in the store.
    pub cached: nat,
    /// How many fetches were started.
    pub fetching: nat,
    /// The packages whose files are in the store.
    pub indices: Set<Seq<char>>,
    /// The integrities that were computed, by the packages' keys without their
    /// peers.
    pub computed: Map<Seq<char>, Seq<char>>,
    /// What is said of the deprecated ones, in order.
    pub deprecated: Seq<DeprecationView>,
}

/// What is said of deprecated packages.
pub open spec fn deprecation_views(list: Seq<DeprecationRecord>) -> Seq<DeprecationView> {
    list.map_values(|d: DeprecationRecord| d@)
}

impl View for StreamFetch {
    type V = StreamView;

    closed spec fn view(&self) -> StreamView {
        StreamView {
            received: self.received as nat,
            deferred: self.deferred as nat,
            reused: self.reused as nat,
            cached: self.cached as nat,
            fetching: self.fetching as nat,
            indices: self.indices@,
            computed: text_map(self.computed),
            deprecated: deprecation_views(self.deprecations@),
        }
    }
}

/// One more, where `yes` holds.
pub open spec fn one_if(yes: bool) -> nat {
    if yes {
        1
    } else {
        0
    }
}

/// After a package was dealt with.
pub open spec fn after_package(v: StreamView, pkg: ResolvedPackage, result: StreamResult) -> StreamView {
    let kept = result == StreamResult::Imported || result == StreamResult::Cached;
    StreamView {
        received: v.received + 1,
        deferred: v.deferred + one_if(result == StreamResult::Deferred),
        reused: v.reused + one_if(kept || result == StreamResult::Linked),
        cached: v.cached + one_if(kept),
        fetching: v.fetching + one_if(result == StreamResult::Fetching),
        indices: if kept {
            v.indices.insert(pkg.dep_path@)
        } else {
            v.indices
        },
        computed: v.computed,
        deprecated: match pkg.deprecated {
            Some(message) => v.deprecated.push(
                (DeprecationView {
                    name: pkg.name@,
                    version: pkg.version@,
                    dep_path: pkg.dep_path@,
                    message: message@,
                }),
            ),
            None => v.deprecated,
        },
    }
}

/// After a fetch came to its end.
pub open spec fn after_fetch(v: StreamView, dep_path: Seq<char>, integrity: Option<Seq<char>>) -> StreamView {
    StreamView {
        indices: v.indices.insert(dep_path),
        computed: match integrity {
            Some(i) => v.computed.insert(canonical(dep_path), i),
            None => v.computed,
        },
        ..v
    }
}

/// Every package that was found was put off, needs no fetch, or is being
/// fetched, and no package is counted twice.
pub open spec fn balanced(v: StreamView) -> bool {
    &&& v.received == v.deferred + v.reused + v.fetching
    &&& v.cached <= v.reused
}

/// Dealing with a package keeps the counts balanced, so the packages that were
/// reused and fetched never outnumber those that were found.
pub proof fn law_counts_stay_balanced(v: StreamView, pkg: ResolvedPackage, result: StreamResult)
    requires
        balanced(v),
    ensures
        balanced(after_package(v, pkg, result)),
        after_package(v, pkg, result).reused + after_package(v, pkg, result).fetching <= after_package(
            v,
            pkg,
            result,
        ).received,
{
}

/// A package that runs on this platform is never put off, and one from disk
/// neither.
pub proof fn law_needed_packages_are_not_put_off(pkg: ResolvedPackage, result: StreamResult)
    requires
        comes_of(step_for(pkg), result),
        pkg.local || pkg.supported,
    ensures
        result != StreamResult::Deferred,
{
}

impl StreamFetch {
    #[verifier::type_invariant]
    spec fn holds(self) -> bool {
        balanced(self@)
    }

    /// Nothing was found yet.
    pub fn new() -> (r: StreamFetch)
        ensures
            balanced(r@),
            r@ == (StreamView {
                received: 0,
                deferred: 0,
                reused: 0,
                cached: 0,
                fetching: 0,
                indices: Set::empty(),
                computed: Map::empty(),
                deprecated: Seq::empty(),
            }),
    {
        let computed: StrMap<String> = StrMap::new();
        let deprecations: Vec<DeprecationRecord> = Vec::new();
        proof {
            assert(text_map(computed) =~= Map::<Seq<char>, Seq<char>>::empty());
            assert(deprecation_views(deprecations@) =~= Seq::<DeprecationView>::empty());
        }
        StreamFetch {
            received: 0,
            deferred: 0,
            reused: 0,
            cached: 0,
            fetching: 0,
            indices: StrSet::new(),
            computed,
            deprecations,
        }
    }

    /// Take note of a package and what came of it.
    pub fn settle(&mut self, pkg: &ResolvedPackage, result: StreamResult)
        requires
            old(self)@.received < usize::MAX,
            comes_of(step_for(*pkg), result),
        ensures
            final(self)@ == after_package(old(self)@, *pkg, result),
            balanced(final(self)@),
    {
        proof {
            use_type_invariant(&*self);
            law_counts_stay_balanced(self@, *pkg, result);
        }
        let ghost was = self@;
        let mut indices = StrSet::new();
        let mut computed: StrMap<String> = StrMap::new();
        let mut deprecations: Vec<DeprecationRecord> = Vec::new();
        std::mem::swap(&mut indices, &mut self.indices);
        std::mem::swap(&mut computed, &mut self.computed);
        std::mem::swap(&mut deprecations, &mut self.deprecations);
        let ghost listed = deprecation_views(deprecations@);
        if let Some(message) = &pkg.deprecated {
            let record = DeprecationRecord {
                name: pkg.name.clone(),
                version: pkg.version.clone(),
                dep_path: pkg.dep_path.clone(),
                message: message.clone(),
            };
            let ghost said = record@;
            deprecations.push(record);
            proof {
                assert(deprecation_views(deprecations@) =~= listed.push(said));
            }
        }
        let mut deferred = self.deferred;
        let mut reused = self.reused;
        let mut cached = self.cached;
        let mut fetching = self.fetching;
        match result {
            StreamResult::Deferred => {
                deferred = deferred + 1;
            },
            StreamResult::Linked => {
                reused = reused + 1;
            },
            StreamResult::Imported | StreamResult::Cached => {
                indices.insert(pkg.dep_path.clone());
                reused = reused + 1;
                cached = cached + 1;
            },
            StreamResult::Fetching => {
                fetching = fetching + 1;
            },
        }
        *self = StreamFetch {
            received: self.received + 1,
            deferred,
            reused,
            cached,
            fetching,
            indices,
            computed,
            deprecations,
        };
        proof {
            assert(self@ =~= after_package(was, *pkg, result));
        }
    }

    /// Take note that a fetch came to its end, and of the integrity that it
    /// computed.
    pub fn fetched(&mut self, dep_path: &str, integrity: Option<String>)
        ensures
            final(self)@ == after_fetch(old(self)@, dep_path@, opt_text(integrity)),
            balanced(final(self)@),
    {
        proof {
            use_type_invariant(&*self);
        }
        let ghost was = self@;
        let mut indices = StrSet::new();
        let mut computed: StrMap<String> = StrMap::new();
        std::mem::swap(&mut indices, &mut self.indices);
        std::mem::swap(&mut computed, &mut self.computed);
        indices.insert(dep_path.to_owned());
        let ghost c = text_map(computed);
        if let Some(i) = integrity {
            let ghost text = i@;
            let key = strip_peer_context_suffix(dep_path);
            computed.insert(key, i);
            proof {
                assert(text_map(computed) =~= c.insert(canonical(dep_path@), text));
            }
        }
        self.indices = indices;
        self.computed = computed;
        proof {
            assert(self@ =~= after_fetch(was, dep_path@, opt_text(integrity)));
        }
    }

    /// How many packages there will be at least, as far as the resolver can
    /// tell.
    pub fn total_floor(&self, pending: usize) -> (r: usize)
        requires
            self@.received + pending <= usize::MAX,
        ensures
            r == self@.received + pending,
    {
        self.received + pending
    }

    /// How many packages have files in the store that were not fetched.
    pub fn cached_count(&self) -> (r: usize)
        ensures
            r == self@.cached,
    {
        self.cached
    }

    /// How many fetches were started.
    pub fn fetch_count(&self) -> (r: usize)
        ensures
            r == self@.fetching,
    {
        self.fetching
    }

    /// The packages whose files are in the store.
    pub fn indices(&self) -> (r: &StrSet)
        ensures
            r@ == self@.indices,
    {
        &self.indices
    }

    /// The integrities that were computed.
    pub fn computed_integrities(&self) -> (r: &StrMap<String>)
        ensures
            text_map(*r) == self@.computed,
    {
        &self.computed
    }

    /// The deprecated packages, in order.
    pub fn deprecations(&self) -> (r: &Vec<DeprecationRecord>)
        ensures
            deprecation_views(r@) == self@.deprecated,
    {
        &self.deprecations
    }
}

/// A tarball can be checked while it is read: nothing is known of it, or its
/// digest is of the kind that is computed on the way.
pub open spec fn can_stream(enabled: bool, integrity: Option<Seq<char>>) -> bool {
    enabled && (integrity is None || "sha512-"@.is_prefix_of(integrity->0))
}

/// How a tarball is fetched.
#[derive(Debug)]
pub struct TarballPlan {
    pub url: String,
    /// Unpack it while it is read.
    pub streaming: bool,
    /// Compute its integrity, because none is known.
    pub compute_integrity: bool,
}

/// How a tarball is fetched: from the place that is recorded, else from
/// `registry_url`.
pub fn tarball_plan(pkg: &ResolvedPackage, registry_url: &str, streaming_enabled: bool) -> (r: TarballPlan)
    ensures
        r.url@ == (match pkg.tarball_url {
            Some(u) => u@,
            None => registry_url@,
        }),
        r.streaming == can_stream(streaming_enabled, opt_text(pkg.integrity)),
        r.compute_integrity == pkg.integrity is None,
{
    let url = match &pkg.tarball_url {
        Some(u) => u.clone(),
        None => registry_url.to_owned(),
    };
    let streaming = streaming_enabled && match &pkg.integrity {
        Some(i) => starts_with(i.as_str(), "sha512-"),
        None => true,
    };
    TarballPlan { url, streaming, compute_integrity: pkg.integrity.is_none() }
}

/// What is said of a tarball that could not be fetched.
pub fn tarball_error(name: &str, version: &str, cause: &str, chain: &str) -> (r: String)
    ensures
        r@ == "failed to fetch "@ + name@ + "@"@ + version@ + ": "@ + cause@ + chain@,
{
    let mut out = "failed to fetch ".to_owned();
    out.append(name);
    out.append("@");
    out.append(version);
    out.append(": ");
    out.append(cause);
    out.append(chain);
    out
}

} // verus!
