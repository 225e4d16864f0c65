//! Fetching one version of an optional dependency.
//!
//! The registry is asked for that version alone. Where that fails, the whole
//! document is fetched; where that does not hold the version and did not come
//! from the registry, it is fetched once more, with a forced refresh: past the
//! documents that come with the program, and, where publish times are needed,
//! past the cache as well.
use crate::fetch::packument::{FetchError, FetchSource, Fetched, Packument, PermitRecord, VersionMetadata};
use crate::fetch::scheduler::{FetchInputs, InputsView};
use crate::str_map::StrMap;
use crate::text::concat3;
use vstd::prelude::*;

verus! {

/// What the registry says of one version.
#[derive(Debug)]
pub struct ExactDocument<M, H> {
    pub metadata: VersionMetadata<M>,
    /// When each version was published.
    pub time: StrMap<String>,
    /// What is known of the other versions.
    pub history: StrMap<H>,
}

/// Take the registry's answer to the question for one version. The permit is
/// given back either way; without an answer the whole document is to be fetched.
pub fn fetch_exact_optional_packument<M, H>(name: &str, version: &str, reply: Option<ExactDocument<M, H>>) -> (r: (
    PermitRecord,
    Option<Fetched<M, H>>,
))
    ensures
        match reply {
            None => r.0 == PermitRecord::Cancelled && r.1 is None,
            Some(doc) => r.0 == PermitRecord::Success && r.1 is Some && ({
                let f = r.1->0;
                &&& f.name@ == name@
                &&& f.packument.name@ == name@
                &&& f.packument.modified is None
                &&& f.packument.versions@ == Map::<Seq<char>, VersionMetadata<M>>::empty().insert(version@, doc.metadata)
                &&& f.packument.dist_tags@ == Map::<Seq<char>, String>::empty()
                &&& f.packument.time == doc.time
                &&& f.source == FetchSource::Exact
                &&& f.history == Some(doc.history)
            }),
        },
{
    match reply {
        None => (PermitRecord::Cancelled, None),
        Some(doc) => {
            let mut versions: StrMap<VersionMetadata<M>> = StrMap::new();
            versions.insert(version.to_owned(), doc.metadata);
            let packument = Packument {
                name: name.to_owned(),
                modified: None,
                versions,
                dist_tags: StrMap::new(),
                time: doc.time,
            };
            (
                PermitRecord::Success,
                Some(
                    Fetched {
                        name: name.to_owned(),
                        packument,
                        source: FetchSource::Exact,
                        history: Some(doc.history),
                    },
                ),
            )
        },
    }
}

/// How the fetch of one version goes on after the whole document was fetched.
#[derive(Debug)]
pub enum ExactNext<M, H> {
    /// The document holds the version.
    Done(Fetched<M, H>),
    /// Fetch the whole document again, with these inputs.
    Refresh(FetchInputs),
    /// The version cannot be had.
    Failed(FetchError),
}

/// The inputs with a forced refresh.
pub open spec fn refreshed(inputs: InputsView) -> InputsView {
    InputsView { force_refresh: true, ..inputs }
}

/// What is said of a version that the whole document does not hold.
pub open spec fn missing_version(version: Seq<char>) -> Seq<char> {
    "version "@ + version + " is missing from the full packument"@
}

/// How the fetch of one version goes on, given what the whole document holds.
pub open spec fn goes_on<M, H>(
    inputs: InputsView,
    version: Seq<char>,
    refreshing: bool,
    reply: Result<Fetched<M, H>, FetchError>,
    next: ExactNext<M, H>,
) -> bool {
    match reply {
        Err(e) => next == ExactNext::<M, H>::Failed(e),
        Ok(f) => if f.packument.versions@.contains_key(version) {
            next == ExactNext::<M, H>::Done(f)
        } else if !refreshing && (f.source == FetchSource::Disk || f.source == FetchSource::Primer) {
            next is Refresh && next->Refresh_0@ == refreshed(inputs)
        } else {
            next is Failed && next->Failed_0.name@ == inputs.name && next->Failed_0.message@ == missing_version(version)
        },
    }
}

/// Take the whole document in place of one version. `refreshing` says whether
/// it was fetched with a forced refresh.
pub fn exact_fallback<M, H>(
    inputs: FetchInputs,
    version: &str,
    refreshing: bool,
    reply: Result<Fetched<M, H>, FetchError>,
) -> (r: ExactNext<M, H>)
    ensures
        goes_on(inputs@, version@, refreshing, reply, r),
{
    match reply {
        Err(e) => ExactNext::Failed(e),
        Ok(f) => {
            if f.packument.versions.contains_key(version) {
                return ExactNext::Done(f);
            }
            let local = match f.source {
                FetchSource::Disk | FetchSource::Primer => true,
                _ => false,
            };
            if !refreshing && local {
                let mut again = inputs;
                again.force_refresh = true;
                return ExactNext::Refresh(again);
            }
            ExactNext::Failed(
                FetchError {
                    name: inputs.name,
                    message: concat3("version ", version, " is missing from the full packument"),
                },
            )
        },
    }
}

/// The whole document is fetched again at most once, and what is given in the
/// end holds the version.
pub proof fn law_one_refresh_at_most<M, H>(
    inputs: InputsView,
    version: Seq<char>,
    first: Result<Fetched<M, H>, FetchError>,
    next: ExactNext<M, H>,
    second: Result<Fetched<M, H>, FetchError>,
    last: ExactNext<M, H>,
)
    requires
        goes_on(inputs, version, false, first, next),
        next is Refresh,
        goes_on(next->Refresh_0@, version, true, second, last),
    ensures
        next->Refresh_0@.force_refresh,
        !(last is Refresh),
        last is Done ==> last->Done_0.packument.versions@.contains_key(version),
{
}

/// A whole document that came from the registry is final: it holds the version
/// or the fetch fails.
pub proof fn law_registry_has_the_last_word<M, H>(
    inputs: InputsView,
    version: Seq<char>,
    refreshing: bool,
    reply: Fetched<M, H>,
    next: ExactNext<M, H>,
)
    requires
        reply.source == FetchSource::Network,
        goes_on(inputs, version, refreshing, Ok(reply), next),
    ensures
        next is Done <==> reply.packument.versions@.contains_key(version),
        next is Failed <==> !reply.packument.versions@.contains_key(version),
{
}

} // verus!
