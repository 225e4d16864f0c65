//! What holds of the freshness check as a whole.
use crate::fs_path::path_joined;
use crate::state::facts::{fact, known, Facts, ProbeView};
use crate::state::freshness::{
    lockfile_check, manifest_check, manifests_check, member_check, members_check, modules_check, removed_check, scan,
    search, CheckInput, CheckView, LockView, SearchView,
};
use crate::state::layout_check::{entry_check, importer_check, layout_check, link_check, package_check};
use crate::state::model::{FileMeta, FreshnessState, InstallLayoutState, LocalDirectoryFingerprint};
use crate::state::verdict::{
    directories_check, directory_check, later_checks, metadata_moved, moved_metadata, new_meta, no_lockfile,
    settings_check, state_refreshed, tree_check, verdict, VerdictView,
};
use crate::str_map::StrMap;
use vstd::prelude::*;

verus! {

/// A run of checks passes exactly when every one of them does.
pub proof fn lemma_scan_pass(f: spec_fn(int) -> CheckView, i: int, n: int)
    ensures
        scan(f, i, n) is Pass <==> forall|k: int| i <= k < n ==> #[trigger] f(k) is Pass,
    decreases n - i,
{
    if i < n {
        lemma_scan_pass(f, i + 1, n);
        if f(i) is Pass {
            assert forall|k: int| i <= k < n && (forall|j: int| i + 1 <= j < n ==> #[trigger] f(j) is Pass) implies
                #[trigger] f(k) is Pass by {}
        }
    }
}

/// A check that fails, or asks, is one of the run.
proof fn lemma_scan_member(f: spec_fn(int) -> CheckView, i: int, n: int) -> (k: int)
    requires
        !(scan(f, i, n) is Pass),
    ensures
        i <= k < n,
        f(k) == scan(f, i, n),
    decreases n - i,
{
    if f(i) is Pass {
        lemma_scan_member(f, i + 1, n)
    } else {
        i
    }
}

/// A result that is not a question stays when more is known.
pub open spec fn settled(a: CheckView, b: CheckView) -> bool {
    a is Ask || a == b
}

proof fn lemma_scan_settled(f: spec_fn(int) -> CheckView, g: spec_fn(int) -> CheckView, i: int, n: int)
    requires
        forall|k: int| i <= k < n ==> settled(#[trigger] f(k), g(k)),
    ensures
        settled(scan(f, i, n), scan(g, i, n)),
    decreases n - i,
{
    if i < n {
        assert(settled(f(i), g(i)));
        lemma_scan_settled(f, g, i + 1, n);
    }
}

/// A question is one that the facts do not answer.
pub open spec fn asks_anew(c: CheckView, facts: Facts) -> bool {
    c matches CheckView::Ask(p) ==> !facts.answers(p)
}

proof fn lemma_scan_asks(f: spec_fn(int) -> CheckView, i: int, n: int, facts: Facts)
    requires
        forall|k: int| i <= k < n ==> asks_anew(#[trigger] f(k), facts),
    ensures
        asks_anew(scan(f, i, n), facts),
{
    if !(scan(f, i, n) is Pass) {
        let k = lemma_scan_member(f, i, n);
        assert(asks_anew(f(k), facts));
    }
}

proof fn lemma_search_settled(facts: Facts, more: Facts, dir: Seq<Seq<char>>, names: Seq<Seq<char>>, i: int)
    requires
        facts.extended_by(more),
        0 <= i,
    ensures
        search(facts, dir, names, i) is Ask || search(facts, dir, names, i) == search(more, dir, names, i),
        search(facts, dir, names, i) matches SearchView::Ask(p) ==> !known(facts.exists, p),
    decreases names.len() - i,
{
    if i < names.len() {
        lemma_search_settled(facts, more, dir, names, i + 1);
    }
}

proof fn lemma_members_settled(input: CheckInput, state: FreshnessState, facts: Facts, more: Facts)
    requires
        facts.extended_by(more),
    ensures
        settled(members_check(input, state, facts), members_check(input, state, more)),
        asks_anew(members_check(input, state, facts), facts),
{
    if facts.members is Some {
        let members = facts.members->0@;
        let n = members.len() as int;
        let total = state.member_lockfile_hashes.keys().len() as int;
        let f = |i: int| member_check(input, state, facts, members, i);
        let g = |i: int| member_check(input, state, more, members, i);
        let h = |i: int| removed_check(input, state, members, i);
        assert forall|k: int| 0 <= k < n implies settled(#[trigger] f(k), g(k)) by {
            lemma_search_settled(
                facts,
                more,
                members[k].dir@,
                crate::state::lockfile::lockfile_names(
                    input.lockfile_basename@,
                    members[k].preferred_lockfile@,
                ),
                0,
            );
        }
        assert forall|k: int| 0 <= k < n implies asks_anew(#[trigger] f(k), facts) by {
            lemma_search_settled(
                facts,
                more,
                members[k].dir@,
                crate::state::lockfile::lockfile_names(
                    input.lockfile_basename@,
                    members[k].preferred_lockfile@,
                ),
                0,
            );
        }
        lemma_scan_settled(f, g, 0, n);
        lemma_scan_asks(f, 0, n, facts);
        lemma_scan_asks(h, 0, total, facts);
    }
}

proof fn lemma_manifests_settled(input: CheckInput, state: FreshnessState, facts: Facts, more: Facts)
    requires
        facts.extended_by(more),
    ensures
        settled(manifests_check(input, state, facts), manifests_check(input, state, more)),
        asks_anew(manifests_check(input, state, facts), facts),
{
    let f = |i: int| manifest_check(input, state, facts, i);
    let g = |i: int| manifest_check(input, state, more, i);
    let n = state.package_json_hashes.keys().len() as int;
    lemma_scan_settled(f, g, 0, n);
    lemma_scan_asks(f, 0, n, facts);
}

proof fn lemma_layout_settled(project: Seq<Seq<char>>, layout: InstallLayoutState, facts: Facts, more: Facts)
    requires
        facts.extended_by(more),
    ensures
        settled(layout_check(project, layout, facts), layout_check(project, layout, more)),
        asks_anew(layout_check(project, layout, facts), facts),
{
    let f = |i: int| importer_check(layout, facts, i);
    let g = |i: int| importer_check(layout, more, i);
    let n = layout.direct_entries.keys().len() as int;
    assert forall|k: int| 0 <= k < n implies settled(#[trigger] f(k), g(k)) && asks_anew(f(k), facts) by {
        let a = |j: int| entry_check(layout, facts, k, j);
        let b = |j: int| entry_check(layout, more, k, j);
        let m = layout.direct_entries.values()[k]@.len() as int;
        lemma_scan_settled(a, b, 0, m);
        lemma_scan_asks(a, 0, m, facts);
    }
    lemma_scan_settled(f, g, 0, n);
    lemma_scan_asks(f, 0, n, facts);
    let c = |i: int| package_check(project, layout, facts, i);
    let d = |i: int| package_check(project, layout, more, i);
    let m = layout.packages.keys().len() as int;
    lemma_scan_settled(c, d, 0, m);
    lemma_scan_asks(c, 0, m, facts);
    if layout.gvs_nested_links is Some {
        let x = |i: int| link_check(layout, facts, i);
        let y = |i: int| link_check(layout, more, i);
        let l = layout.gvs_nested_links->0.keys().len() as int;
        lemma_scan_settled(x, y, 0, l);
        lemma_scan_asks(x, 0, l, facts);
    }
}

proof fn lemma_directories_settled(
    project: Seq<Seq<char>>,
    dirs: Option<StrMap<LocalDirectoryFingerprint>>,
    facts: Facts,
    more: Facts,
)
    requires
        facts.extended_by(more),
    ensures
        settled(directories_check(project, dirs, facts), directories_check(project, dirs, more)),
        asks_anew(directories_check(project, dirs, facts), facts),
        directories_check(project, dirs, facts) is Pass ==> moved_metadata(project, dirs->0, facts)
            == moved_metadata(project, dirs->0, more),
{
    if dirs is Some {
        let d = dirs->0;
        let f = |i: int| directory_check(project, d, facts, i);
        let g = |i: int| directory_check(project, d, more, i);
        let n = d.keys().len() as int;
        lemma_scan_settled(f, g, 0, n);
        lemma_scan_asks(f, 0, n, facts);
        if scan(f, 0, n) is Pass {
            lemma_scan_pass(f, 0, n);
            let a = moved_metadata(project, d, facts);
            let b = moved_metadata(project, d, more);
            assert forall|rel: Seq<char>| a.contains_key(rel) == b.contains_key(rel) by {
                if d@.contains_key(rel) {
                    let i = choose|i: int| 0 <= i < d.keys().len() && d.keys()[i] == rel;
                    let p = path_joined(project, rel);
                    assert(f(i) is Pass);
                    assert(known(facts.dir_metadata, p));
                    assert(known(more.dir_metadata, p));
                    assert(fact(facts.dir_metadata, p) == fact(more.dir_metadata, p));
                }
            }
            assert forall|rel: Seq<char>| a.contains_key(rel) implies #[trigger] a[rel] == b[rel] by {
                let p = path_joined(project, rel);
                assert(known(more.dir_metadata, p));
                assert(fact(facts.dir_metadata, p) == fact(more.dir_metadata, p));
            }
            assert(a =~= b);
        }
    }
}

proof fn lemma_later_settled(
    input: CheckInput,
    state: FreshnessState,
    facts: Facts,
    more: Facts,
    with_settings: bool,
    none: bool,
)
    requires
        facts.extended_by(more),
    ensures
        settled(
            later_checks(input, state, facts, with_settings, none),
            later_checks(input, state, more, with_settings, none),
        ),
        asks_anew(later_checks(input, state, facts, with_settings, none), facts),
{
    lemma_members_settled(input, state, facts, more);
    lemma_manifests_settled(input, state, facts, more);
    if state.layout is Some {
        lemma_layout_settled(input.project_dir@, state.layout->0, facts, more);
    }
    lemma_directories_settled(input.project_dir@, state.local_directory_hashes, facts, more);
}

/// A verdict stands: knowing more does not change it.
pub proof fn law_verdict_stands(
    input: CheckInput,
    state: Option<FreshnessState>,
    facts: Facts,
    more: Facts,
    with_settings: bool,
)
    requires
        facts.extended_by(more),
        !(verdict(input, state, facts, with_settings) is Ask),
    ensures
        verdict(input, state, more, with_settings) == verdict(input, state, facts, with_settings),
{
    if state is Some {
        let s = state->0;
        lemma_search_settled(
            facts,
            more,
            input.project_dir@,
            crate::state::lockfile::lockfile_names(input.lockfile_basename@, input.preferred_lockfile@),
            0,
        );
        let lock = lockfile_check(input, s, facts);
        lemma_later_settled(input, s, facts, more, with_settings, no_lockfile(s, lock));
        lemma_directories_settled(input.project_dir@, s.local_directory_hashes, facts, more);
        if verdict(input, state, facts, with_settings) is Fresh {
            lemma_later_pass(input, s, facts, with_settings, no_lockfile(s, lock));
        }
    }
}

/// What is asked is not known yet, so every answer brings the check further.
pub proof fn law_question_is_new(
    input: CheckInput,
    state: Option<FreshnessState>,
    facts: Facts,
    with_settings: bool,
    probe: ProbeView,
)
    requires
        verdict(input, state, facts, with_settings) == VerdictView::Ask(probe),
    ensures
        !facts.answers(probe),
{
    assert(facts.extended_by(facts));
    let s = state->0;
    lemma_search_settled(
        facts,
        facts,
        input.project_dir@,
        crate::state::lockfile::lockfile_names(input.lockfile_basename@, input.preferred_lockfile@),
        0,
    );
    let lock = lockfile_check(input, s, facts);
    lemma_later_settled(input, s, facts, facts, with_settings, no_lockfile(s, lock));
}

proof fn lemma_later_pass(
    input: CheckInput,
    state: FreshnessState,
    facts: Facts,
    with_settings: bool,
    none: bool,
)
    ensures
        later_checks(input, state, facts, with_settings, none) is Pass <==> {
            &&& state.member_lockfile_hashes.keys().len() > 0 ==> members_check(input, state, facts) is Pass
            &&& manifests_check(input, state, facts) is Pass
            &&& !state.section_filtered
            &&& tree_check(input.project_dir@, state.layout, facts) is Pass
            &&& settings_check(state, facts, with_settings) is Pass
            &&& !none
            &&& directories_check(input.project_dir@, state.local_directory_hashes, facts) is Pass
        },
{
}

proof fn lemma_members_pass(input: CheckInput, state: FreshnessState, facts: Facts)
    ensures
        members_check(input, state, facts) is Pass <==> {
            &&& facts.members is Some
            &&& forall|i: int|
                0 <= i < facts.members->0@.len() ==> #[trigger] member_check(
                    input,
                    state,
                    facts,
                    facts.members->0@,
                    i,
                ) is Pass
            &&& forall|i: int|
                0 <= i < state.member_lockfile_hashes.keys().len() ==> #[trigger] removed_check(
                    input,
                    state,
                    facts.members->0@,
                    i,
                ) is Pass
        },
{
    if facts.members is Some {
        let members = facts.members->0@;
        let f = |i: int| member_check(input, state, facts, members, i);
        let g = |i: int| removed_check(input, state, members, i);
        let n = members.len() as int;
        let m = state.member_lockfile_hashes.keys().len() as int;
        lemma_scan_pass(f, 0, n);
        lemma_scan_pass(g, 0, m);
        assert(forall|k: int| #[trigger] member_check(input, state, facts, members, k) == f(k));
        assert(forall|k: int| #[trigger] removed_check(input, state, members, k) == g(k));
    }
}

proof fn lemma_manifests_pass(input: CheckInput, state: FreshnessState, facts: Facts)
    ensures
        manifests_check(input, state, facts) is Pass <==> forall|i: int|
            0 <= i < state.package_json_hashes.keys().len() ==> #[trigger] manifest_check(
                input,
                state,
                facts,
                i,
            ) is Pass,
{
    let h = |i: int| manifest_check(input, state, facts, i);
    let n = state.package_json_hashes.keys().len() as int;
    lemma_scan_pass(h, 0, n);
    assert(forall|k: int| #[trigger] manifest_check(input, state, facts, k) == h(k));
}

proof fn lemma_directories_pass(
    project: Seq<Seq<char>>,
    dirs: Option<StrMap<LocalDirectoryFingerprint>>,
    facts: Facts,
)
    ensures
        directories_check(project, dirs, facts) is Pass <==> {
            &&& dirs is Some
            &&& forall|i: int|
                0 <= i < dirs->0.keys().len() ==> #[trigger] directory_check(project, dirs->0, facts, i) is Pass
        },
{
    if dirs is Some {
        let d = dirs->0;
        let q = |i: int| directory_check(project, d, facts, i);
        let n = d.keys().len() as int;
        lemma_scan_pass(q, 0, n);
        assert(forall|k: int| #[trigger] directory_check(project, d, facts, k) == q(k));
    }
}

/// No install is needed exactly when every check passes: the modules directory
/// is there, a lockfile is in use and is the recorded one, every member and
/// every manifest is as recorded, no section was left out, the tree and the
/// settings are as recorded, and every local directory is as it was.
pub proof fn law_fresh_means_every_check_passes(
    input: CheckInput,
    state: FreshnessState,
    facts: Facts,
    with_settings: bool,
)
    ensures
        verdict(input, Some(state), facts, with_settings) is Fresh <==> {
            let lock = lockfile_check(input, state, facts);
            &&& modules_check(input, facts) is Pass
            &&& lock is Current || (lock is Absent && state.member_lockfile_hashes.keys().len() > 0)
            &&& state.member_lockfile_hashes.keys().len() > 0 ==> {
                &&& facts.members is Some
                &&& forall|i: int|
                    0 <= i < facts.members->0@.len() ==> #[trigger] member_check(
                        input,
                        state,
                        facts,
                        facts.members->0@,
                        i,
                    ) is Pass
                &&& forall|i: int|
                    0 <= i < state.member_lockfile_hashes.keys().len() ==> #[trigger] removed_check(
                        input,
                        state,
                        facts.members->0@,
                        i,
                    ) is Pass
            }
            &&& forall|i: int|
                0 <= i < state.package_json_hashes.keys().len() ==> #[trigger] manifest_check(
                    input,
                    state,
                    facts,
                    i,
                ) is Pass
            &&& !state.section_filtered
            &&& tree_check(input.project_dir@, state.layout, facts) is Pass
            &&& settings_check(state, facts, with_settings) is Pass
            &&& state.local_directory_hashes is Some
            &&& forall|i: int|
                0 <= i < state.local_directory_hashes->0.keys().len() ==> #[trigger] directory_check(
                    input.project_dir@,
                    state.local_directory_hashes->0,
                    facts,
                    i,
                ) is Pass
        },
{
    let lock = lockfile_check(input, state, facts);
    lemma_later_pass(input, state, facts, with_settings, no_lockfile(state, lock));
    lemma_members_pass(input, state, facts);
    lemma_manifests_pass(input, state, facts);
    lemma_directories_pass(input.project_dir@, state.local_directory_hashes, facts);
}

/// A lockfile whose size and time are the recorded ones is not read.
pub proof fn law_unmoved_lockfile_is_not_read(input: CheckInput, state: FreshnessState, facts: Facts)
    requires
        lockfile_check(input, state, facts) matches LockView::Ask(ProbeView::Content(_)),
    ensures
        ({
            let names = crate::state::lockfile::lockfile_names(
                input.lockfile_basename@,
                input.preferred_lockfile@,
            );
            &&& search(facts, input.project_dir@, names, 0) matches SearchView::Found(i) && ({
                let p = path_joined(input.project_dir@, names[i]);
                known(facts.meta, p) && !(crate::state::facts::fact(facts.meta, p) is Some && crate::state::facts::fact(
                    facts.meta,
                    p,
                ) == state.lockfile_meta)
            })
        }),
{
}

/// Equal checks make equal runs.
pub proof fn lemma_scan_same(f: spec_fn(int) -> CheckView, g: spec_fn(int) -> CheckView, i: int, n: int)
    requires
        forall|k: int| i <= k < n ==> #[trigger] f(k) == g(k),
    ensures
        scan(f, i, n) == scan(g, i, n),
    decreases n - i,
{
    if i < n {
        assert(f(i) == g(i));
        lemma_scan_same(f, g, i + 1, n);
    }
}

/// Members and manifests are checked by what the refreshed state keeps.
proof fn lemma_refreshed_checks(
    input: CheckInput,
    s: FreshnessState,
    s2: FreshnessState,
    facts: Facts,
    meta: Option<FileMeta>,
    moved: Map<Seq<char>, Seq<char>>,
)
    requires
        state_refreshed(s, meta, moved, s2),
    ensures
        members_check(input, s2, facts) == members_check(input, s, facts),
        manifests_check(input, s2, facts) == manifests_check(input, s, facts),
{
    if facts.members is Some {
        let members = facts.members->0@;
        lemma_scan_same(
            |i: int| member_check(input, s2, facts, members, i),
            |i: int| member_check(input, s, facts, members, i),
            0,
            members.len() as int,
        );
        lemma_scan_same(
            |i: int| removed_check(input, s2, members, i),
            |i: int| removed_check(input, s, members, i),
            0,
            s.member_lockfile_hashes.keys().len() as int,
        );
    }
    lemma_scan_same(
        |i: int| manifest_check(input, s2, facts, i),
        |i: int| manifest_check(input, s, facts, i),
        0,
        s.package_json_hashes.keys().len() as int,
    );
}

/// Once what has moved is recorded anew, nothing has to be recorded again: the
/// next check of the same tree is settled by sizes, times and metadata alone.
pub proof fn law_refresh_settles(
    input: CheckInput,
    s: FreshnessState,
    s2: FreshnessState,
    facts: Facts,
    with_settings: bool,
    meta: Option<FileMeta>,
    moved: Map<Seq<char>, Seq<char>>,
)
    requires
        s.local_directory_hashes matches Some(d) ==> d.wf(),
        verdict(input, Some(s), facts, with_settings) == VerdictView::Fresh(meta, moved),
        state_refreshed(s, meta, moved, s2),
    ensures
        verdict(input, Some(s2), facts, with_settings) == VerdictView::Fresh(None, Map::empty()),
{
    let project = input.project_dir@;
    let lock = lockfile_check(input, s, facts);
    let lock2 = lockfile_check(input, s2, facts);
    assert(new_meta(lock) == meta);
    assert(new_meta(lock2) is None);
    assert(no_lockfile(s2, lock2) == no_lockfile(s, lock));
    lemma_refreshed_checks(input, s, s2, facts, meta, moved);
    lemma_later_pass(input, s, facts, with_settings, no_lockfile(s, lock));
    lemma_later_pass(input, s2, facts, with_settings, no_lockfile(s2, lock2));
    lemma_directories_pass(project, s.local_directory_hashes, facts);
    lemma_directories_pass(project, s2.local_directory_hashes, facts);
    let d = s.local_directory_hashes->0;
    let d2 = s2.local_directory_hashes->0;
    assert forall|i: int| 0 <= i < d2.keys().len() implies {
        &&& #[trigger] directory_check(project, d2, facts, i) is Pass
        &&& fact(facts.dir_metadata, path_joined(project, d2.keys()[i]))->0@ == d2.values()[i].metadata_hash@
    } by {
        assert(directory_check(project, d, facts, i) is Pass);
        crate::str_map::lemma_entry(d, i);
        let p = path_joined(project, d.keys()[i]);
        assert(moved.contains_key(d.keys()[i]) == metadata_moved(project, d, facts, d.keys()[i]));
        assert(d2.values()[i].content_hash@ == d.values()[i].content_hash@);
    }
    let again = moved_metadata(project, d2, facts);
    assert forall|rel: Seq<char>| !again.contains_key(rel) by {
        if again.contains_key(rel) {
            let i = crate::str_map::lemma_key_index(d2, rel);
            assert(directory_check(project, d2, facts, i) is Pass);
        }
    }
    assert(again =~= Map::<Seq<char>, Seq<char>>::empty());
}

/// The tree looks as it was recorded exactly when every direct entry is there,
/// every package that is not a live link has its manifest, and every store
/// link leads where it was recorded to.
pub proof fn law_tree_is_as_recorded(project: Seq<Seq<char>>, layout: InstallLayoutState, facts: Facts)
    ensures
        layout_check(project, layout, facts) is Pass <==> {
            &&& forall|i: int|
                0 <= i < layout.direct_entries.keys().len() ==> #[trigger] importer_check(
                    layout,
                    facts,
                    i,
                ) is Pass
            &&& forall|i: int|
                0 <= i < layout.packages.keys().len() ==> #[trigger] package_check(
                    project,
                    layout,
                    facts,
                    i,
                ) is Pass
            &&& layout.gvs_nested_links matches Some(links) ==> forall|i: int|
                0 <= i < links.keys().len() ==> #[trigger] link_check(layout, facts, i) is Pass
        },
{
    let f = |i: int| importer_check(layout, facts, i);
    let g = |i: int| package_check(project, layout, facts, i);
    let h = |i: int| link_check(layout, facts, i);
    lemma_scan_pass(f, 0, layout.direct_entries.keys().len() as int);
    lemma_scan_pass(g, 0, layout.packages.keys().len() as int);
    assert(forall|k: int| #[trigger] importer_check(layout, facts, k) == f(k));
    assert(forall|k: int| #[trigger] package_check(project, layout, facts, k) == g(k));
    if layout.gvs_nested_links is Some {
        lemma_scan_pass(h, 0, layout.gvs_nested_links->0.keys().len() as int);
        assert(forall|k: int| #[trigger] link_check(layout, facts, k) == h(k));
    }
}

} // verus!
