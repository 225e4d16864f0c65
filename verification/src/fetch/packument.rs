//! How one metadata fetch is answered: from disk, from the documents that come
//! with the program, or from the registry.
use crate::fetch::scheduler::{FetchInputs, InputsView};
use crate::str_map::{lemma_entry, lemma_increasing_distinct, lemma_increasing_unique, StrMap};
use crate::text::{concat, opt_text};
use vstd::prelude::*;

verus! {

/// Where metadata came from.
#[derive(Debug, Clone, Copy, PartialEq, Eq, Structural)]
pub enum FetchSource {
    /// The cache on disk.
    Disk,
    /// The documents that come with the program.
    Primer,
    /// The registry.
    Network,
    /// The registry, for one version alone.
    Exact,
}

/// The metadata of one version. What else it holds, of type `M`, is passed
/// through.
#[derive(Debug)]
pub struct VersionMetadata<M> {
    pub name: String,
    pub version: String,
    /// Where its tarball is, for a version that is distributed.
    pub tarball: Option<String>,
    pub rest: M,
}

/// The metadata of one version.
pub struct VersionView<M> {
    pub name: Seq<char>,
    pub version: Seq<char>,
    pub tarball: Option<Seq<char>>,
    pub rest: M,
}

impl<M> View for VersionMetadata<M> {
    type V = VersionView<M>;

    open spec fn view(&self) -> VersionView<M> {
        VersionView { name: self.name@, version: self.version@, tarball: opt_text(self.tarball), rest: self.rest }
    }
}

/// The metadata of a package.
#[derive(Debug)]
pub struct Packument<M> {
    pub name: String,
    pub modified: Option<String>,
    pub versions: StrMap<VersionMetadata<M>>,
    pub dist_tags: StrMap<String>,
    /// When each version was published.
    pub time: StrMap<String>,
}

/// What a fetch gives.
#[derive(Debug)]
pub struct Fetched<M, H> {
    pub name: String,
    pub packument: Packument<M>,
    pub source: FetchSource,
    /// What is known of the versions that the document leaves out.
    pub history: Option<StrMap<H>>,
}

/// Why a fetch failed.
#[derive(Debug, PartialEq, Eq)]
pub struct FetchError {
    pub name: String,
    pub message: String,
}

/// How many cache lookups may run at once.
pub open spec fn lookup_limit(parallelism: Option<usize>) -> usize {
    match parallelism {
        None => 4,
        Some(n) => if n < 4 {
            4
        } else if n > 32 {
            32
        } else {
            n
        },
    }
}

/// How many cache lookups may run at once: as many as the machine has threads,
/// between four and thirty-two.
pub fn cache_lookup_limit(parallelism: Option<usize>) -> (r: usize)
    ensures
        r == lookup_limit(parallelism),
{
    match parallelism {
        None => 4,
        Some(n) => if n < 4 {
            4
        } else if n > 32 {
            32
        } else {
            n
        },
    }
}

/// A lookup in the cache on disk.
#[derive(Debug)]
pub struct CacheLookup {
    pub dir: String,
    /// Look for the full document.
    pub full: bool,
    /// Drop the full document first.
    pub invalidate: bool,
}

/// The cache that a fetch goes by.
pub open spec fn own_cache(inputs: InputsView) -> Option<Seq<char>> {
    if inputs.needs_time {
        inputs.full_cache_dir
    } else {
        inputs.cache_dir
    }
}

/// The lookup that a fetch begins with; none without a cache.
pub fn cache_lookup(inputs: &FetchInputs) -> (r: Option<CacheLookup>)
    ensures
        match r {
            None => own_cache(inputs@) is None,
            Some(l) => own_cache(inputs@) == Some(l.dir@) && l.full == inputs.needs_time && l.invalidate == (
            inputs.force_refresh && inputs.needs_time),
        },
{
    let dir = if inputs.needs_time {
        &inputs.full_cache_dir
    } else {
        &inputs.cache_dir
    };
    match dir {
        None => None,
        Some(d) => Some(
            CacheLookup {
                dir: d.clone(),
                full: inputs.needs_time,
                invalidate: inputs.force_refresh && inputs.needs_time,
            },
        ),
    }
}

/// What a cache lookup found.
#[derive(Debug, Clone, Copy, PartialEq, Eq, Structural)]
pub struct Looked {
    /// A document that can be used.
    pub hit: bool,
    /// A document that has to be revalidated.
    pub stale: bool,
}

/// Where a document is kept.
#[derive(Debug)]
pub struct CacheSlot {
    pub dir: String,
    pub full: bool,
}

/// What is asked of the registry.
#[derive(Debug)]
pub enum NetworkRequest {
    /// The full document, kept in this directory.
    FullCached(String),
    /// The abbreviated document, kept in this directory.
    Cached(String),
    /// The abbreviated document.
    Plain,
}

/// How a fetch is answered.
#[derive(Debug)]
pub enum Answer {
    /// With the document that the lookup found.
    Disk,
    /// With the document that comes with the program.
    Primer {
        /// Point the tarballs at the registry in use.
        rewrite_tarballs: bool,
        /// Keep the document here.
        keep_in: Option<CacheSlot>,
    },
    /// With what the registry says.
    Network(NetworkRequest),
}

/// A document on disk answers.
pub open spec fn answers_from_disk(looked: Option<Looked>) -> bool {
    looked is Some && looked->0.hit
}

/// The document that comes with the program may answer.
pub open spec fn may_use_primer(inputs: InputsView, looked: Option<Looked>, default_registry: bool) -> bool {
    &&& !inputs.force_refresh
    &&& inputs.force_metadata_primer || default_registry
    &&& inputs.primer_covers_cutoff
    &&& !(looked is Some && looked->0.stale)
}

/// How a fetch is answered.
pub enum AnswerView {
    Disk,
    Primer { rewrite_tarballs: bool, keep_in: Option<(Seq<char>, bool)> },
    FullCached(Seq<char>),
    Cached(Seq<char>),
    Plain,
}

impl View for Answer {
    type V = AnswerView;

    open spec fn view(&self) -> AnswerView {
        match self {
            Answer::Disk => AnswerView::Disk,
            Answer::Primer { rewrite_tarballs, keep_in } => AnswerView::Primer {
                rewrite_tarballs: *rewrite_tarballs,
                keep_in: match keep_in {
                    Some(slot) => Some((slot.dir@, slot.full)),
                    None => None,
                },
            },
            Answer::Network(NetworkRequest::FullCached(dir)) => AnswerView::FullCached(dir@),
            Answer::Network(NetworkRequest::Cached(dir)) => AnswerView::Cached(dir@),
            Answer::Network(NetworkRequest::Plain) => AnswerView::Plain,
        }
    }
}

/// How a fetch is answered.
pub open spec fn answer_for(
    inputs: InputsView,
    looked: Option<Looked>,
    default_registry: bool,
    in_primer: bool,
) -> AnswerView {
    if answers_from_disk(looked) {
        AnswerView::Disk
    } else if may_use_primer(inputs, looked, default_registry) && in_primer {
        AnswerView::Primer {
            rewrite_tarballs: inputs.force_metadata_primer,
            keep_in: match own_cache(inputs) {
                Some(dir) => Some((dir, inputs.needs_time)),
                None => None,
            },
        }
    } else {
        match own_cache(inputs) {
            Some(dir) => if inputs.needs_time {
                AnswerView::FullCached(dir)
            } else {
                AnswerView::Cached(dir)
            },
            None => AnswerView::Plain,
        }
    }
}

/// How a fetch is answered.
///
/// `looked` is what the lookup found, where there was one; `default_registry`
/// says whether the package comes from the registry that the documents that
/// come with the program were made from, `in_primer` whether one of them is
/// about this package.
pub fn fetch_one_packument(
    inputs: &FetchInputs,
    looked: Option<Looked>,
    default_registry: bool,
    in_primer: bool,
) -> (r: Answer)
    ensures
        r@ == answer_for(inputs@, looked, default_registry, in_primer),
{
    let (hit, stale) = match looked {
        Some(l) => (l.hit, l.stale),
        None => (false, false),
    };
    if hit {
        return Answer::Disk;
    }
    let dir = if inputs.needs_time {
        &inputs.full_cache_dir
    } else {
        &inputs.cache_dir
    };
    let use_metadata_primer = !inputs.force_refresh && (inputs.force_metadata_primer || default_registry)
        && inputs.primer_covers_cutoff;
    if use_metadata_primer && !stale && in_primer {
        let keep_in = match dir {
            Some(d) => Some(CacheSlot { dir: d.clone(), full: inputs.needs_time }),
            None => None,
        };
        return Answer::Primer { rewrite_tarballs: inputs.force_metadata_primer, keep_in };
    }
    match dir {
        Some(d) => if inputs.needs_time {
            Answer::Network(NetworkRequest::FullCached(d.clone()))
        } else {
            Answer::Network(NetworkRequest::Cached(d.clone()))
        },
        None => Answer::Network(NetworkRequest::Plain),
    }
}

impl Answer {
    /// Whether the fetch has to wait for the registry's capacity.
    pub fn needs_permit(&self) -> (r: bool)
        ensures
            r == takes_permit(self@),
    {
        match self {
            Answer::Network(_) => true,
            _ => false,
        }
    }

    /// Where the answer comes from.
    pub fn source(&self) -> (r: FetchSource)
        ensures
            r == source_of(self@),
    {
        match self {
            Answer::Disk => FetchSource::Disk,
            Answer::Primer { .. } => FetchSource::Primer,
            Answer::Network(_) => FetchSource::Network,
        }
    }
}

/// The answer takes some of the registry's capacity.
pub open spec fn takes_permit(answer: AnswerView) -> bool {
    !(answer is Disk) && !(answer is Primer)
}

/// Where an answer comes from.
pub open spec fn source_of(answer: AnswerView) -> FetchSource {
    match answer {
        AnswerView::Disk => FetchSource::Disk,
        AnswerView::Primer { .. } => FetchSource::Primer,
        _ => FetchSource::Network,
    }
}

/// A document that is at hand never waits for the registry.
pub proof fn law_local_metadata_takes_no_permit(
    inputs: InputsView,
    looked: Option<Looked>,
    default_registry: bool,
    in_primer: bool,
)
    requires
        answers_from_disk(looked) || (may_use_primer(inputs, looked, default_registry) && in_primer),
    ensures
        !takes_permit(answer_for(inputs, looked, default_registry, in_primer)),
{
}

/// A forced refresh is answered by a document that is still on disk after the
/// lookup, or by the registry.
pub proof fn law_forced_refresh_passes_the_primer(
    inputs: InputsView,
    looked: Option<Looked>,
    default_registry: bool,
    in_primer: bool,
)
    requires
        inputs.force_refresh,
    ensures
        !(answer_for(inputs, looked, default_registry, in_primer) is Primer),
        !answers_from_disk(looked) ==> takes_permit(answer_for(inputs, looked, default_registry, in_primer)),
{
}

/// What a permit is given back with.
#[derive(Debug, Clone, Copy, PartialEq, Eq, Structural)]
pub enum PermitRecord {
    Success,
    Throttle,
    Cancelled,
}

/// How a permit is given back: `throttled` says of a fetch that failed whether
/// the registry asked for fewer requests.
pub fn permit_record(throttled: Option<bool>) -> (r: PermitRecord)
    ensures
        r == (match throttled {
            None => PermitRecord::Success,
            Some(true) => PermitRecord::Throttle,
            Some(false) => PermitRecord::Cancelled,
        }),
{
    match throttled {
        None => PermitRecord::Success,
        Some(true) => PermitRecord::Throttle,
        Some(false) => PermitRecord::Cancelled,
    }
}

/// Why the registry did not answer.
#[derive(Debug)]
pub struct NetworkFailure {
    /// It asked for fewer requests.
    pub throttled: bool,
    pub message: String,
}

/// What a request to the registry comes to: how the permit is given back, and
/// the error where there is one.
pub fn settle_network(inputs: &FetchInputs, failure: Option<NetworkFailure>) -> (r: (PermitRecord, Option<FetchError>))
    ensures
        match failure {
            None => r.0 == PermitRecord::Success && r.1 is None,
            Some(f) => r.0 == (if f.throttled {
                PermitRecord::Throttle
            } else {
                PermitRecord::Cancelled
            }) && r.1 is Some && r.1->0.name@ == inputs.name@ && r.1->0.message@ == f.message@,
        },
{
    match failure {
        None => (permit_record(None), None),
        Some(f) => {
            (permit_record(Some(f.throttled)), Some(FetchError { name: inputs.name.clone(), message: f.message }))
        },
    }
}

/// The error of a lookup that did not run to its end.
pub fn lookup_error(inputs: &FetchInputs, cause: &str) -> (r: FetchError)
    ensures
        r.name@ == inputs.name@,
        r.message@ == "packument cache lookup: "@ + cause@,
{
    FetchError { name: inputs.name.clone(), message: concat("packument cache lookup: ", cause) }
}

/// What a fetch of the whole document gives: the document under the name that it
/// was fetched by, where it came from, and no history of its own.
pub fn fetched_document<M, H>(inputs: &FetchInputs, answer: &Answer, packument: Packument<M>) -> (r: Fetched<M, H>)
    ensures
        r.name@ == inputs.name@,
        r.packument == packument,
        r.source == source_of(answer@),
        r.history is None,
{
    Fetched { name: inputs.name.clone(), packument, source: answer.source(), history: None }
}

/// A version whose tarball, where it has one, is at `url`.
pub open spec fn with_tarball<M>(v: VersionView<M>, url: Seq<char>) -> VersionView<M> {
    VersionView {
        tarball: match v.tarball {
            Some(_) => Some(url),
            None => None,
        },
        ..v
    }
}

/// Point the tarball of every version that is distributed at its place in the
/// registry in use: `urls` holds one place for each version, in order. Nothing
/// else changes.
pub fn rewrite_tarballs<M>(versions: StrMap<VersionMetadata<M>>, urls: &Vec<String>) -> (r: StrMap<VersionMetadata<M>>)
    requires
        urls@.len() == versions.keys().len(),
    ensures
        r@.dom() == versions@.dom(),
        forall|i: int|
            0 <= i < versions.keys().len() ==> (#[trigger] r@[versions.keys()[i]])@ == with_tarball(
                versions.values()[i]@,
                urls@[i]@,
            ),
{
    let ghost first = versions;
    let mut out = versions;
    let total = out.len();
    let mut i: usize = 0;
    proof {
        assert forall|j: int| 0 <= j < total implies #[trigger] out@[first.keys()[j]] == first.values()[j] by {
            lemma_entry(first, j);
        }
    }
    while i < total
        invariant
            i <= total,
            first == versions,
            first.wf(),
            out.wf(),
            total == first.keys().len(),
            urls@.len() == total,
            out.keys() == first.keys(),
            out@.dom() == first@.dom(),
            forall|j: int|
                0 <= j < i ==> (#[trigger] out@[first.keys()[j]])@ == with_tarball(first.values()[j]@, urls@[j]@),
            forall|j: int| i <= j < total ==> #[trigger] out@[first.keys()[j]] == first.values()[j],
        decreases total - i,
    {
        let key = out.key_at(i).to_owned();
        let ghost was = out@;
        proof {
            lemma_entry(first, i as int);
            lemma_increasing_distinct(first.keys());
        }
        let old_value = out.remove(key.as_str());
        if let Some(v) = old_value {
            let tarball = match v.tarball {
                Some(_) => Some(urls[i].clone()),
                None => None,
            };
            let next = VersionMetadata { name: v.name, version: v.version, tarball, rest: v.rest };
            let ghost view = next@;
            let ghost k = key@;
            out.insert(key, next);
            proof {
                assert(view == with_tarball(first.values()[i as int]@, urls@[i as int]@));
                assert(out@ =~= was.insert(k, out@[k]));
                assert(out@.dom() =~= first@.dom());
                lemma_same_keys(out, first);
                assert forall|j: int| 0 <= j < total && j != i implies out@[#[trigger] first.keys()[j]]
                    == was[first.keys()[j]] by {
                    assert(first.keys()[j] != first.keys()[i as int]);
                }
            }
        }
        i += 1;
    }
    out
}

/// Maps with the same keys have them in the same order.
proof fn lemma_same_keys<M>(a: StrMap<VersionMetadata<M>>, b: StrMap<VersionMetadata<M>>)
    requires
        a.wf(),
        b.wf(),
        a@.dom() == b@.dom(),
    ensures
        a.keys() == b.keys(),
{
    assert forall|k: Seq<char>| a.keys().contains(k) <==> b.keys().contains(k) by {
        assert(a@.dom().contains(k) == b@.dom().contains(k));
        assert(a@.contains_key(k) == a.keys().contains(k));
        assert(b@.contains_key(k) == b.keys().contains(k));
    }
    lemma_increasing_unique(a.keys(), b.keys());
}

} // verus!
