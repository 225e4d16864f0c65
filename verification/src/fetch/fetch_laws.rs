//! How fetches are answered, whatever asks for them.
use crate::fetch::exact::{goes_on, ExactNext};
use crate::fetch::packument::{
    answer_for, lookup_limit, own_cache, source_of, takes_permit, with_tarball, AnswerView, FetchError, FetchSource,
    Fetched, Looked, VersionView,
};
use crate::fetch::scheduler::{
    after_join, after_request, after_start, inputs_for, FetchSettings, InputsView, KeyView, SchedulerView,
};
use vstd::prelude::*;

verus! {

/// As many lookups run at once as the machine has threads, but no fewer than
/// four and no more than thirty-two; four where that is not known.
pub proof fn law_lookups_are_bounded(a: Option<usize>, b: Option<usize>)
    ensures
        4 <= lookup_limit(a) <= 32,
        a is Some && 4 <= a->0 <= 32 ==> lookup_limit(a) == a->0,
        a is None ==> lookup_limit(a) == 4,
        a is Some && b is Some && a->0 <= b->0 ==> lookup_limit(a) <= lookup_limit(b),
{
}

/// A document that can be used on disk answers, whatever else holds.
pub proof fn law_disk_answers_first(inputs: InputsView, looked: Option<Looked>, default_registry: bool, in_primer: bool)
    ensures
        answer_for(inputs, looked, default_registry, in_primer) is Disk <==> (looked matches Some(l) && l.hit),
{
}

/// The document that comes with the program answers only where none on disk
/// does, none on disk has to be revalidated, no refresh is forced, it is recent
/// enough and has the package, and the registry is the default one or the program's
/// documents are to stand for every registry. Where all that holds, it does.
pub proof fn law_bundled_document_answers_where_it_may(
    inputs: InputsView,
    looked: Option<Looked>,
    default_registry: bool,
    in_primer: bool,
)
    ensures
        ({
            let answer = answer_for(inputs, looked, default_registry, in_primer);
            &&& answer is Primer ==> in_primer && inputs.primer_covers_cutoff && !inputs.force_refresh
            &&& answer is Primer ==> default_registry || inputs.force_metadata_primer
            &&& answer is Primer ==> (looked matches Some(l) ==> !l.hit && !l.stale)
            &&& looked is None && in_primer && inputs.primer_covers_cutoff && !inputs.force_refresh && default_registry
                ==> answer is Primer
            &&& looked is None && in_primer && inputs.primer_covers_cutoff && !inputs.force_refresh
                && inputs.force_metadata_primer ==> answer is Primer
            &&& looked == Some(Looked { hit: false, stale: false }) ==> answer == answer_for(
                inputs,
                None,
                default_registry,
                in_primer,
            )
        }),
{
}

/// A bundled document has its tarballs pointed at the registry in use where the
/// program's documents stand for every registry. It is kept where a document of
/// its sort is looked for: with the full ones where publish times are needed.
pub proof fn law_bundled_document_is_kept(
    inputs: InputsView,
    looked: Option<Looked>,
    default_registry: bool,
    in_primer: bool,
)
    requires
        answer_for(inputs, looked, default_registry, in_primer) is Primer,
    ensures
        ({
            let answer = answer_for(inputs, looked, default_registry, in_primer);
            &&& answer->rewrite_tarballs == inputs.force_metadata_primer
            &&& inputs.needs_time ==> answer->keep_in == (match inputs.full_cache_dir {
                Some(dir) => Some((dir, true)),
                None => None,
            })
            &&& !inputs.needs_time ==> answer->keep_in == (match inputs.cache_dir {
                Some(dir) => Some((dir, false)),
                None => None,
            })
        }),
{
}

/// Where nothing at hand answers, the registry is asked: for the full document
/// where publish times are needed and it can be kept, else for the abbreviated one.
pub proof fn law_registry_is_asked_for_what_is_needed(
    inputs: InputsView,
    looked: Option<Looked>,
    default_registry: bool,
    in_primer: bool,
    dir: Seq<char>,
)
    ensures
        ({
            let answer = answer_for(inputs, looked, default_registry, in_primer);
            &&& answer == AnswerView::FullCached(dir) ==> inputs.needs_time && inputs.full_cache_dir == Some(dir)
            &&& answer == AnswerView::Cached(dir) ==> !inputs.needs_time && inputs.cache_dir == Some(dir)
            &&& answer is Plain ==> if inputs.needs_time {
                inputs.full_cache_dir is None
            } else {
                inputs.cache_dir is None
            }
            &&& takes_permit(answer) <==> source_of(answer) == FetchSource::Network
            &&& takes_permit(answer) <==> answer is FullCached || answer is Cached || answer is Plain
            &&& source_of(answer) == FetchSource::Disk <==> answer is Disk
            &&& source_of(answer) == FetchSource::Primer <==> answer is Primer
        }),
{
}

/// A lookup goes to the full documents where publish times are needed, else to
/// the abbreviated ones, and never to the others.
pub proof fn law_lookup_goes_to_its_own_cache(inputs: InputsView)
    ensures
        inputs.needs_time ==> own_cache(inputs) == inputs.full_cache_dir,
        !inputs.needs_time ==> own_cache(inputs) == inputs.cache_dir,
{
}

/// A fetch goes by the settings, and by nothing of them but what it is given. The
/// bundled document is recent enough for a name that is excluded, where there is
/// no cutoff, and where it is more recent than the cutoff; and in no other case.
pub proof fn law_fetch_goes_by_the_settings(
    settings: FetchSettings,
    name: Seq<char>,
    excluded: bool,
    cutoff: Option<Seq<char>>,
    recent: bool,
    refresh: bool,
)
    ensures
        ({
            let inputs = inputs_for(settings, name, excluded, cutoff, recent, refresh);
            &&& inputs.name == name
            &&& inputs.force_refresh == refresh
            &&& inputs.needs_time == settings.needs_time
            &&& inputs.force_metadata_primer == settings.force_metadata_primer
            &&& excluded ==> inputs.primer_covers_cutoff
            &&& cutoff is None ==> inputs.primer_covers_cutoff
            &&& recent ==> inputs.primer_covers_cutoff
            &&& !excluded && cutoff is Some && !recent ==> !inputs.primer_covers_cutoff
            &&& settings.cache_dir matches Some(d) ==> inputs.cache_dir == Some(d@)
            &&& settings.cache_dir is None ==> inputs.cache_dir is None
            &&& settings.full_cache_dir matches Some(d) ==> inputs.full_cache_dir == Some(d@)
            &&& settings.full_cache_dir is None ==> inputs.full_cache_dir is None
        }),
{
}

/// A version that is distributed gets the new place; one that is not stays
/// without; nothing else of it changes.
pub proof fn law_rewriting_moves_tarballs_alone<M>(v: VersionView<M>, url: Seq<char>)
    ensures
        ({
            let w = with_tarball(v, url);
            &&& w.name == v.name && w.version == v.version && w.rest == v.rest
            &&& v.tarball is Some ==> w.tarball == Some(url)
            &&& v.tarball is None ==> w.tarball is None
        }),
{
}

/// The fetch of one version is done with the very document that holds it, and
/// with no other. A document that was at hand and does not hold it is fetched
/// once more, past what is at hand and otherwise as before.
pub proof fn law_version_is_found_or_looked_for_again<M, H>(
    inputs: InputsView,
    version: Seq<char>,
    refreshing: bool,
    reply: Result<Fetched<M, H>, FetchError>,
    next: ExactNext<M, H>,
)
    requires
        goes_on(inputs, version, refreshing, reply, next),
    ensures
        next is Done <==> (reply matches Ok(f) && f.packument.versions@.contains_key(version)),
        next matches ExactNext::Done(f) ==> reply == Ok::<Fetched<M, H>, FetchError>(f),
        next is Refresh <==> !refreshing && (reply matches Ok(f) && !f.packument.versions@.contains_key(version) && (
        f.source is Disk || f.source is Primer)),
        next matches ExactNext::Refresh(again) ==> {
            &&& again@.force_refresh
            &&& again@.name == inputs.name
            &&& again@.cache_dir == inputs.cache_dir
            &&& again@.full_cache_dir == inputs.full_cache_dir
            &&& again@.needs_time == inputs.needs_time
            &&& again@.primer_covers_cutoff == inputs.primer_covers_cutoff
            &&& again@.force_metadata_primer == inputs.force_metadata_primer
        },
        reply matches Err(e) ==> next == ExactNext::<M, H>::Failed(e),
{
}

/// Asking, starting and joining each touch what they are about, and nothing else.
pub proof fn law_bookkeeping_is_local(s: SchedulerView, id: u64, key: KeyView, other: KeyView, task: u64)
    ensures
        after_request(s, key).active.contains(key),
        other != key ==> after_request(s, key).active.contains(other) == s.active.contains(other),
        after_request(s, key).tasks == s.tasks,
        after_request(s, key).primer_seeded == s.primer_seeded,
        after_start(s, id, key).tasks.contains_key(id) && after_start(s, id, key).tasks[id] == key,
        task != id ==> after_start(s, id, key).tasks.contains_key(task) == s.tasks.contains_key(task),
        task != id && s.tasks.contains_key(task) ==> after_start(s, id, key).tasks[task] == s.tasks[task],
        after_start(s, id, key).active == s.active,
        !after_join(s, id, Some(key)).active.contains(key),
        other != key ==> after_join(s, id, Some(key)).active.contains(other) == s.active.contains(other),
        task != id ==> after_join(s, id, Some(key)).tasks.contains_key(task) == s.tasks.contains_key(task),
        task != id && s.tasks.contains_key(task) ==> after_join(s, id, Some(key)).tasks[task] == s.tasks[task],
        !after_join(s, id, Some(key)).tasks.contains_key(id),
        s.tasks.contains_key(id) ==> after_join(s, id, None) == after_join(s, id, Some(s.tasks[id])),
        !s.tasks.contains_key(id) ==> after_join(s, id, None).active == s.active,
        after_join(s, id, Some(key)).primer_seeded == s.primer_seeded,
{
}

} // verus!
