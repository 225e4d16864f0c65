//! What a verdict says of the files on disk and of what was recorded of them.
use crate::digest::{blake3_hex, hex_text};
use crate::fs_path::{parsed, path_joined};
use crate::relative::relative_text;
use crate::state::facts::{fact, known, Facts, ManifestFact, Member};
use crate::state::freshness::{
    and_next, has_member, lockfile_check, manifest_check, member_check, modules_check, removed_check, scan, search,
    CheckInput, CheckView, SearchView,
};
use crate::state::layout_check::{
    empty_digest_text, entry_check, importer_check, layout_check, link_check, links_check, package_check,
};
use crate::state::lockfile::lockfile_names;
use crate::state::model::{FileMeta, FreshnessState, InstallLayoutState, LocalDirectoryFingerprint};
use crate::state::verdict::{directories_check, directory_check, verdict, VerdictView};
use crate::state::verdict_laws::{law_fresh_means_every_check_passes, law_tree_is_as_recorded, lemma_scan_pass};
use crate::str_map::{lemma_entry, lemma_key_index, StrMap};
use vstd::prelude::*;

verus! {

/// The file is known to have that size and that modification time.
pub open spec fn has_meta(facts: Facts, p: Seq<Seq<char>>, meta: FileMeta) -> bool {
    known(facts.meta, p) && (fact(facts.meta, p) matches Some(m) && m.size == meta.size && m.mtime_secs
        == meta.mtime_secs && m.mtime_nanos == meta.mtime_nanos)
}

/// The file's content is known, and has that digest. What cannot be read has
/// the digest of nothing.
pub open spec fn has_digest(facts: Facts, p: Seq<Seq<char>>, digest: Seq<char>) -> bool {
    known(facts.content, p) && digest == "blake3:"@ + blake3_hex(
        match fact(facts.content, p) {
            Some(c) => c@,
            None => Seq::empty(),
        },
    )
}

/// The first of the names that is there is number `i`.
pub open spec fn first_there(facts: Facts, dir: Seq<Seq<char>>, names: Seq<Seq<char>>, i: int) -> bool {
    &&& 0 <= i < names.len()
    &&& known(facts.exists, path_joined(dir, names[i])) && fact(facts.exists, path_joined(dir, names[i]))
    &&& forall|j: int|
        0 <= j < i ==> known(facts.exists, path_joined(dir, #[trigger] names[j])) && !fact(
            facts.exists,
            path_joined(dir, names[j]),
        )
}

/// None of the names is there.
pub open spec fn none_there(facts: Facts, dir: Seq<Seq<char>>, names: Seq<Seq<char>>) -> bool {
    forall|j: int|
        0 <= j < names.len() ==> known(facts.exists, path_joined(dir, #[trigger] names[j])) && !fact(
            facts.exists,
            path_joined(dir, names[j]),
        )
}

/// The modules directory is there.
pub open spec fn modules_there(input: CheckInput, facts: Facts) -> bool {
    known(facts.exists, input.modules_dir@) && fact(facts.exists, input.modules_dir@)
}

/// The lockfile in use is the recorded one: it has the recorded size and time,
/// or else the recorded digest.
pub open spec fn lockfile_as_recorded(input: CheckInput, state: FreshnessState, facts: Facts, i: int) -> bool {
    let names = lockfile_names(input.lockfile_basename@, input.preferred_lockfile@);
    let p = path_joined(input.project_dir@, names[i]);
    &&& first_there(facts, input.project_dir@, names, i)
    &&& (state.lockfile_meta matches Some(m) && has_meta(facts, p, m)) || has_digest(facts, p, state.lockfile_hash@)
}

/// The member's lockfile, number `i` of its names, is the recorded one.
pub open spec fn member_lockfile_as_recorded(
    input: CheckInput,
    state: FreshnessState,
    facts: Facts,
    member: Member,
    key: Seq<char>,
    i: int,
) -> bool {
    let names = lockfile_names(input.lockfile_basename@, member.preferred_lockfile@);
    let p = path_joined(member.dir@, names[i]);
    &&& first_there(facts, member.dir@, names, i)
    &&& (state.member_lockfile_meta@.contains_key(key) && has_meta(facts, p, state.member_lockfile_meta@[key]))
        || has_digest(facts, p, state.member_lockfile_hashes@[key]@)
}

/// The member is recorded, and its lockfile is as it was: the recorded one, or
/// none where none was recorded.
pub open spec fn member_as_recorded(input: CheckInput, state: FreshnessState, facts: Facts, member: Member) -> bool {
    let key = relative_text(member.dir@, input.project_dir@);
    let names = lockfile_names(input.lockfile_basename@, member.preferred_lockfile@);
    &&& state.member_lockfile_hashes@.contains_key(key)
    &&& {
        ||| exists|i: int| member_lockfile_as_recorded(input, state, facts, member, key, i)
        ||| none_there(facts, member.dir@, names) && state.member_lockfile_hashes@[key]@.len() == 0
    }
}

/// The file that a manifest is recorded for.
pub open spec fn manifest_of(input: CheckInput, rel: Seq<char>) -> Seq<Seq<char>> {
    path_joined(
        input.project_dir@,
        if rel == "."@ {
            "package.json"@
        } else {
            rel
        },
    )
}

/// The manifest is there and is the recorded one: it has the recorded size and
/// time, or the recorded digest, or whatever of it decides about an install has
/// the recorded digest.
pub open spec fn manifest_as_recorded(
    input: CheckInput,
    state: FreshnessState,
    facts: Facts,
    rel: Seq<char>,
) -> bool {
    let p = manifest_of(input, rel);
    &&& known(facts.exists, p) && fact(facts.exists, p)
    &&& {
        ||| state.package_json_meta@.contains_key(rel) && has_meta(facts, p, state.package_json_meta@[rel])
        ||| has_digest(facts, p, state.package_json_hashes@[rel]@)
        ||| state.package_json_shape_digests@.contains_key(rel) && known(facts.shape, p) && (fact(
            facts.shape,
            p,
        ) matches Some(d) && hex_text(d@) == state.package_json_shape_digests@[rel]@)
    }
}

/// The local directory is as it was: by its files' metadata, or else by their
/// contents.
pub open spec fn directory_as_recorded(
    project: Seq<Seq<char>>,
    stored: LocalDirectoryFingerprint,
    facts: Facts,
    rel: Seq<char>,
) -> bool {
    let p = path_joined(project, rel);
    &&& known(facts.dir_metadata, p)
    &&& fact(facts.dir_metadata, p) matches Some(m) && (m@ == stored.metadata_hash@ || (known(facts.dir_content, p)
        && (fact(facts.dir_content, p) matches Some(c) && c@ == stored.content_hash@)))
}

/// The installed package is a live link, or has the recorded manifest, or one
/// with the recorded name and version. The digest of nothing tells nothing.
pub open spec fn package_as_recorded(
    project: Seq<Seq<char>>,
    layout: InstallLayoutState,
    facts: Facts,
    key: Seq<char>,
) -> bool {
    let pkg = layout.packages@[key];
    let p = path_joined(project, pkg.package_json_path@);
    ||| pkg.link
    ||| known(facts.content, p) && fact(facts.content, p) is Some && has_digest(facts, p, pkg.package_json_hash@)
        && pkg.package_json_hash@ != empty_digest_text()
    ||| known(facts.manifest, p) && (fact(facts.manifest, p) matches ManifestFact::Found { name, version } && name@
        == pkg.name@ && version@ == pkg.version@)
}

/// The store link leads where it was recorded to.
pub open spec fn link_as_recorded(layout: InstallLayoutState, facts: Facts, rel: Seq<char>) -> bool {
    facts.links matches Some(found) && found@.contains_key(rel) && parsed(found@[rel]@) == parsed(
        layout.gvs_nested_links->0@[rel]@,
    )
}

proof fn lemma_search_finds(facts: Facts, dir: Seq<Seq<char>>, names: Seq<Seq<char>>, i: int)
    requires
        0 <= i <= names.len(),
        forall|j: int|
            0 <= j < i ==> known(facts.exists, path_joined(dir, #[trigger] names[j])) && !fact(
                facts.exists,
                path_joined(dir, names[j]),
            ),
    ensures
        search(facts, dir, names, i) matches SearchView::Found(k) ==> first_there(facts, dir, names, k),
        search(facts, dir, names, i) is Absent ==> none_there(facts, dir, names),
    decreases names.len() - i,
{
    if i < names.len() {
        let p = path_joined(dir, names[i]);
        if known(facts.exists, p) && !fact(facts.exists, p) {
            lemma_search_finds(facts, dir, names, i + 1);
        }
    }
}

proof fn lemma_one_first(facts: Facts, dir: Seq<Seq<char>>, names: Seq<Seq<char>>, i: int, j: int)
    requires
        first_there(facts, dir, names, i),
    ensures
        first_there(facts, dir, names, j) ==> i == j,
        !none_there(facts, dir, names),
{
    if first_there(facts, dir, names, j) {
        if i < j {
            assert(!fact(facts.exists, path_joined(dir, names[i])));
        }
        if j < i {
            assert(!fact(facts.exists, path_joined(dir, names[j])));
        }
    }
}

/// A manifest passes only where it is as recorded, and fails only where it is not.
pub proof fn law_manifest_passes_as_recorded(input: CheckInput, state: FreshnessState, facts: Facts, i: int)
    requires
        state.package_json_hashes.wf(),
        0 <= i < state.package_json_hashes.keys().len(),
    ensures
        ({
            let rel = state.package_json_hashes.keys()[i];
            let check = manifest_check(input, state, facts, i);
            &&& check is Pass ==> manifest_as_recorded(input, state, facts, rel)
            &&& check is Stale ==> !manifest_as_recorded(input, state, facts, rel)
        }),
{
    lemma_entry(state.package_json_hashes, i);
}

/// A member passes only where it is as recorded, and fails only where it is not.
pub proof fn law_member_passes_as_recorded(
    input: CheckInput,
    state: FreshnessState,
    facts: Facts,
    members: Seq<Member>,
    i: int,
)
    requires
        0 <= i < members.len(),
    ensures
        member_check(input, state, facts, members, i) is Pass ==> member_as_recorded(input, state, facts, members[i]),
        member_check(input, state, facts, members, i) is Stale ==> !member_as_recorded(
            input,
            state,
            facts,
            members[i],
        ),
{
    let member = members[i];
    let key = relative_text(member.dir@, input.project_dir@);
    let names = lockfile_names(input.lockfile_basename@, member.preferred_lockfile@);
    lemma_search_finds(facts, member.dir@, names, 0);
    let check = member_check(input, state, facts, members, i);
    match search(facts, member.dir@, names, 0) {
        SearchView::Found(k) => {
            lemma_one_first(facts, member.dir@, names, k, k);
            if check is Pass {
                assert(member_lockfile_as_recorded(input, state, facts, member, key, k));
            }
            if check is Stale && member_as_recorded(input, state, facts, member) {
                let j = choose|j: int| member_lockfile_as_recorded(input, state, facts, member, key, j);
                lemma_one_first(facts, member.dir@, names, k, j);
            }
        },
        SearchView::Absent => {
            if check is Stale && member_as_recorded(input, state, facts, member) {
                let j = choose|j: int| member_lockfile_as_recorded(input, state, facts, member, key, j);
                lemma_one_first(facts, member.dir@, names, j, j);
            }
        },
        SearchView::Ask(_) => {},
    }
}

/// The root lockfile counts as current only where it is as recorded, and as
/// changed only where it is not.
pub proof fn law_lockfile_is_as_recorded(input: CheckInput, state: FreshnessState, facts: Facts)
    ensures
        lockfile_check(input, state, facts) is Current ==> exists|i: int| lockfile_as_recorded(input, state, facts, i),
        lockfile_check(input, state, facts) is Stale ==> !exists|i: int| lockfile_as_recorded(input, state, facts, i),
        lockfile_check(input, state, facts) is Absent ==> none_there(
            facts,
            input.project_dir@,
            lockfile_names(input.lockfile_basename@, input.preferred_lockfile@),
        ),
{
    let names = lockfile_names(input.lockfile_basename@, input.preferred_lockfile@);
    lemma_search_finds(facts, input.project_dir@, names, 0);
    match search(facts, input.project_dir@, names, 0) {
        SearchView::Found(k) => {
            if lockfile_check(input, state, facts) is Current {
                assert(lockfile_as_recorded(input, state, facts, k));
            }
            if exists|i: int| lockfile_as_recorded(input, state, facts, i) {
                let j = choose|j: int| lockfile_as_recorded(input, state, facts, j);
                lemma_one_first(facts, input.project_dir@, names, k, j);
            }
        },
        _ => {},
    }
}

proof fn lemma_directory(project: Seq<Seq<char>>, dirs: StrMap<LocalDirectoryFingerprint>, facts: Facts, i: int)
    requires
        dirs.wf(),
        0 <= i < dirs.keys().len(),
    ensures
        directory_check(project, dirs, facts, i) is Pass ==> directory_as_recorded(
            project,
            dirs@[dirs.keys()[i]],
            facts,
            dirs.keys()[i],
        ),
        directory_check(project, dirs, facts, i) is Stale ==> !directory_as_recorded(
            project,
            dirs@[dirs.keys()[i]],
            facts,
            dirs.keys()[i],
        ),
{
    lemma_entry(dirs, i);
}

proof fn lemma_package(project: Seq<Seq<char>>, layout: InstallLayoutState, facts: Facts, i: int)
    requires
        layout.packages.wf(),
        0 <= i < layout.packages.keys().len(),
    ensures
        package_check(project, layout, facts, i) is Pass ==> package_as_recorded(
            project,
            layout,
            facts,
            layout.packages.keys()[i],
        ),
        package_check(project, layout, facts, i) is Stale ==> !package_as_recorded(
            project,
            layout,
            facts,
            layout.packages.keys()[i],
        ),
{
    lemma_entry(layout.packages, i);
    reveal_strlit("blake3:");
}

/// Every direct entry that was recorded is there.
pub open spec fn entries_there(layout: InstallLayoutState, facts: Facts) -> bool {
    forall|importer: Seq<char>, j: int|
        #![trigger layout.direct_entries@[importer]@[j]]
        layout.direct_entries@.contains_key(importer) && 0 <= j < layout.direct_entries@[importer]@.len() ==> (
        facts.entries matches Some(present) && present@.contains(layout.direct_entries@[importer]@[j]@))
}

/// The maps that were recorded are valid.
pub open spec fn layout_wf(layout: InstallLayoutState) -> bool {
    &&& layout.direct_entries.wf()
    &&& layout.packages.wf()
    &&& layout.gvs_nested_links matches Some(links) ==> links.wf()
}

/// The tree looks as it was recorded: every direct entry is there, every package
/// is as recorded, and so is every store link.
pub open spec fn tree_as_recorded(project: Seq<Seq<char>>, layout: InstallLayoutState, facts: Facts) -> bool {
    &&& entries_there(layout, facts)
    &&& forall|key: Seq<char>| #[trigger]
        layout.packages@.contains_key(key) ==> package_as_recorded(project, layout, facts, key)
    &&& layout.gvs_nested_links matches Some(links) ==> forall|rel: Seq<char>| #[trigger]
        links@.contains_key(rel) ==> link_as_recorded(layout, facts, rel)
}

#[verifier::spinoff_prover]
proof fn lemma_tree_passes(project: Seq<Seq<char>>, layout: InstallLayoutState, facts: Facts)
    requires
        layout_wf(layout),
        layout_check(project, layout, facts) is Pass,
    ensures
        tree_as_recorded(project, layout, facts),
{
    law_tree_is_as_recorded(project, layout, facts);
    assert forall|importer: Seq<char>, j: int|
        #![trigger layout.direct_entries@[importer]@[j]]
        layout.direct_entries@.contains_key(importer) && 0 <= j < layout.direct_entries@[importer]@.len() implies (
    facts.entries matches Some(present) && present@.contains(layout.direct_entries@[importer]@[j]@)) by {
        let i = lemma_key_index(layout.direct_entries, importer);
        let e = |j: int| entry_check(layout, facts, i, j);
        assert(importer_check(layout, facts, i) is Pass);
        lemma_scan_pass(e, 0, layout.direct_entries.values()[i]@.len() as int);
        assert(e(j) is Pass);
    }
    assert forall|key: Seq<char>| #[trigger] layout.packages@.contains_key(key) implies package_as_recorded(
        project,
        layout,
        facts,
        key,
    ) by {
        let i = lemma_key_index(layout.packages, key);
        assert(package_check(project, layout, facts, i) is Pass);
        lemma_package(project, layout, facts, i);
    }
    if layout.gvs_nested_links is Some {
        let links = layout.gvs_nested_links->0;
        assert forall|rel: Seq<char>| #[trigger] links@.contains_key(rel) implies link_as_recorded(
            layout,
            facts,
            rel,
        ) by {
            let i = lemma_key_index(links, rel);
            assert(link_check(layout, facts, i) is Pass);
        }
    }
}

#[verifier::spinoff_prover]
proof fn lemma_tree_fails(project: Seq<Seq<char>>, layout: InstallLayoutState, facts: Facts)
    requires
        layout_wf(layout),
        layout_check(project, layout, facts) is Stale,
    ensures
        !tree_as_recorded(project, layout, facts),
{
    let f = |i: int| importer_check(layout, facts, i);
    let g = |i: int| package_check(project, layout, facts, i);
    let h = |i: int| link_check(layout, facts, i);
    let n = layout.direct_entries.keys().len() as int;
    let m = layout.packages.keys().len() as int;
    assert(layout_check(project, layout, facts) == and_next(
        scan(f, 0, n),
        and_next(scan(g, 0, m), links_check(layout, facts)),
    ));
    if scan(f, 0, n) is Stale {
        let i = lemma_scan_fails(f, 0, n);
        let e = |j: int| entry_check(layout, facts, i, j);
        let j = lemma_scan_fails(e, 0, layout.direct_entries.values()[i]@.len() as int);
        let importer = layout.direct_entries.keys()[i];
        lemma_entry(layout.direct_entries, i);
        let rel = layout.direct_entries@[importer]@[j]@;
        assert(facts.entries is Some && !facts.entries->0@.contains(rel));
    } else if scan(g, 0, m) is Stale {
        let i = lemma_scan_fails(g, 0, m);
        lemma_package(project, layout, facts, i);
        lemma_entry(layout.packages, i);
        assert(layout.packages@.contains_key(layout.packages.keys()[i]));
    } else {
        let links = layout.gvs_nested_links->0;
        let i = lemma_scan_fails(h, 0, links.keys().len() as int);
        lemma_entry(links, i);
        assert(links@.contains_key(links.keys()[i]));
    }
}

/// The tree passes only where it looks as it was recorded, and fails only where
/// it does not.
pub proof fn law_tree_passes_as_recorded(project: Seq<Seq<char>>, layout: InstallLayoutState, facts: Facts)
    requires
        layout_wf(layout),
    ensures
        layout_check(project, layout, facts) is Pass ==> tree_as_recorded(project, layout, facts),
        layout_check(project, layout, facts) is Stale ==> !tree_as_recorded(project, layout, facts),
{
    if layout_check(project, layout, facts) is Pass {
        lemma_tree_passes(project, layout, facts);
    }
    if layout_check(project, layout, facts) is Stale {
        lemma_tree_fails(project, layout, facts);
    }
}

/// A run of checks that fails has one that fails.
proof fn lemma_scan_fails(f: spec_fn(int) -> CheckView, i: int, n: int) -> (k: int)
    requires
        scan(f, i, n) is Stale,
    ensures
        i <= k < n,
        f(k) is Stale,
    decreases n - i,
{
    if f(i) is Pass {
        lemma_scan_fails(f, i + 1, n)
    } else {
        i
    }
}

/// The maps that were recorded are valid.
pub open spec fn state_wf(state: FreshnessState) -> bool {
    &&& state.member_lockfile_hashes.wf()
    &&& state.package_json_hashes.wf()
    &&& state.local_directory_hashes matches Some(dirs) ==> dirs.wf()
    &&& state.layout matches Some(layout) ==> layout_wf(layout)
}

/// No lockfile of a member was recorded.
pub open spec fn no_members(state: FreshnessState) -> bool {
    forall|key: Seq<char>| !state.member_lockfile_hashes@.contains_key(key)
}

/// Every member is as recorded, and every one that was recorded is still there.
pub open spec fn members_as_recorded(input: CheckInput, state: FreshnessState, facts: Facts) -> bool {
    facts.members matches Some(members) && {
        &&& forall|i: int|
            0 <= i < members@.len() ==> member_as_recorded(input, state, facts, #[trigger] members@[i])
        &&& forall|key: Seq<char>| #[trigger]
            state.member_lockfile_hashes@.contains_key(key) ==> exists|i: int|
                0 <= i < members@.len() && relative_text((#[trigger] members@[i]).dir@, input.project_dir@) == key
    }
}

/// Everything that was recorded is as it was.
pub open spec fn all_as_recorded(input: CheckInput, state: FreshnessState, facts: Facts, with_settings: bool) -> bool {
    &&& modules_there(input, facts)
    &&& (exists|i: int| lockfile_as_recorded(input, state, facts, i)) || (!no_members(state) && none_there(
        facts,
        input.project_dir@,
        lockfile_names(input.lockfile_basename@, input.preferred_lockfile@),
    ))
    &&& no_members(state) || members_as_recorded(input, state, facts)
    &&& forall|rel: Seq<char>| #[trigger]
        state.package_json_hashes@.contains_key(rel) ==> manifest_as_recorded(input, state, facts, rel)
    &&& !state.section_filtered
    &&& state.layout matches Some(layout) ==> tree_as_recorded(input.project_dir@, layout, facts)
    &&& with_settings ==> (facts.settings_hash matches Some(h) && h@ == state.settings_hash@)
    &&& state.local_directory_hashes matches Some(dirs) && forall|rel: Seq<char>| #[trigger]
        dirs@.contains_key(rel) ==> directory_as_recorded(input.project_dir@, dirs@[rel], facts, rel)
}

proof fn lemma_members_recorded(state: FreshnessState)
    requires
        state.member_lockfile_hashes.wf(),
    ensures
        no_members(state) <==> state.member_lockfile_hashes.keys().len() == 0,
{
    let m = state.member_lockfile_hashes;
    if m.keys().len() > 0 {
        lemma_entry(m, 0);
    }
    assert forall|key: Seq<char>| m.keys().len() == 0 implies !#[trigger] m@.contains_key(key) by {
        if m@.contains_key(key) {
            let i = lemma_key_index(m, key);
        }
    }
}

/// No install is needed only where everything is as it was recorded: the
/// modules directory is there; the lockfile in use, those of the members and
/// every manifest have the recorded size and time, or the recorded digest; no
/// section was left out; the tree, the settings and the local directories are as
/// they were.
pub proof fn law_fresh_means_as_recorded(
    input: CheckInput,
    state: FreshnessState,
    facts: Facts,
    with_settings: bool,
)
    requires
        state_wf(state),
        verdict(input, Some(state), facts, with_settings) is Fresh,
    ensures
        all_as_recorded(input, state, facts, with_settings),
{
    law_fresh_means_every_check_passes(input, state, facts, with_settings);
    law_lockfile_is_as_recorded(input, state, facts);
    lemma_members_recorded(state);
    if !no_members(state) {
        let members = facts.members->0@;
        assert forall|i: int| 0 <= i < members.len() implies member_as_recorded(
            input,
            state,
            facts,
            #[trigger] members[i],
        ) by {
            assert(member_check(input, state, facts, members, i) is Pass);
            law_member_passes_as_recorded(input, state, facts, members, i);
        }
        assert forall|key: Seq<char>| #[trigger] state.member_lockfile_hashes@.contains_key(key) implies exists|i: int|
            0 <= i < members.len() && relative_text((#[trigger] members[i]).dir@, input.project_dir@) == key by {
            let k = lemma_key_index(state.member_lockfile_hashes, key);
            assert(removed_check(input, state, members, k) is Pass);
            assert(has_member(input, members, key));
        }
    }
    assert forall|rel: Seq<char>| #[trigger] state.package_json_hashes@.contains_key(rel) implies manifest_as_recorded(
        input,
        state,
        facts,
        rel,
    ) by {
        let i = lemma_key_index(state.package_json_hashes, rel);
        assert(manifest_check(input, state, facts, i) is Pass);
        law_manifest_passes_as_recorded(input, state, facts, i);
    }
    if state.layout is Some {
        law_tree_passes_as_recorded(input.project_dir@, state.layout->0, facts);
    }
    let dirs = state.local_directory_hashes->0;
    assert forall|rel: Seq<char>| #[trigger] dirs@.contains_key(rel) implies directory_as_recorded(
        input.project_dir@,
        dirs@[rel],
        facts,
        rel,
    ) by {
        let i = lemma_key_index(dirs, rel);
        assert(directory_check(input.project_dir@, dirs, facts, i) is Pass);
        lemma_directory(input.project_dir@, dirs, facts, i);
    }
}

/// An install is asked for only where something is not as it was recorded.
pub proof fn law_stale_means_something_differs(
    input: CheckInput,
    state: FreshnessState,
    facts: Facts,
    with_settings: bool,
)
    requires
        state_wf(state),
        verdict(input, Some(state), facts, with_settings) is Stale,
    ensures
        !all_as_recorded(input, state, facts, with_settings),
{
    let lock = lockfile_check(input, state, facts);
    let project = input.project_dir@;
    law_lockfile_is_as_recorded(input, state, facts);
    lemma_members_recorded(state);
    if modules_check(input, facts) is Pass && !(lock is Stale) {
        let members_part = if state.member_lockfile_hashes.keys().len() > 0 {
            crate::state::freshness::members_check(input, state, facts)
        } else {
            CheckView::Pass
        };
        let manifests = crate::state::freshness::manifests_check(input, state, facts);
        if members_part is Stale {
            let members = facts.members->0@;
            let f = |i: int| member_check(input, state, facts, members, i);
            let g = |i: int| removed_check(input, state, members, i);
            if scan(f, 0, members.len() as int) is Stale {
                let i = lemma_scan_fails(f, 0, members.len() as int);
                law_member_passes_as_recorded(input, state, facts, members, i);
                assert(!member_as_recorded(input, state, facts, members[i]));
            } else {
                let m = state.member_lockfile_hashes;
                let k = lemma_scan_fails(g, 0, m.keys().len() as int);
                lemma_entry(m, k);
                assert(!has_member(input, members, m.keys()[k]));
                assert(m@.contains_key(m.keys()[k]));
            }
        } else if manifests is Stale {
            let h = |i: int| manifest_check(input, state, facts, i);
            let i = lemma_scan_fails(h, 0, state.package_json_hashes.keys().len() as int);
            law_manifest_passes_as_recorded(input, state, facts, i);
            lemma_entry(state.package_json_hashes, i);
            assert(state.package_json_hashes@.contains_key(state.package_json_hashes.keys()[i]));
        } else if state.layout is Some && layout_check(project, state.layout->0, facts) is Stale {
            law_tree_passes_as_recorded(project, state.layout->0, facts);
        } else if directories_check(project, state.local_directory_hashes, facts) is Stale && !state.section_filtered {
            if state.local_directory_hashes is Some {
                let dirs = state.local_directory_hashes->0;
                let q = |i: int| directory_check(project, dirs, facts, i);
                let i = lemma_scan_fails(q, 0, dirs.keys().len() as int);
                lemma_directory(project, dirs, facts, i);
                lemma_entry(dirs, i);
                assert(dirs@.contains_key(dirs.keys()[i]));
            }
        }
        if lock is Absent {
            let names = lockfile_names(input.lockfile_basename@, input.preferred_lockfile@);
            if exists|i: int| lockfile_as_recorded(input, state, facts, i) {
                let j = choose|j: int| lockfile_as_recorded(input, state, facts, j);
                lemma_one_first(facts, project, names, j, j);
            }
        }
    } else if lock is Stale && modules_check(input, facts) is Pass {
        lemma_stale_lockfile_is_there(input, state, facts);
    }
}

/// A lockfile that has changed is there.
proof fn lemma_stale_lockfile_is_there(input: CheckInput, state: FreshnessState, facts: Facts)
    requires
        lockfile_check(input, state, facts) is Stale,
    ensures
        !none_there(
            facts,
            input.project_dir@,
            lockfile_names(input.lockfile_basename@, input.preferred_lockfile@),
        ),
{
    let names = lockfile_names(input.lockfile_basename@, input.preferred_lockfile@);
    lemma_search_finds(facts, input.project_dir@, names, 0);
    let k = search(facts, input.project_dir@, names, 0)->Found_0;
    lemma_one_first(facts, input.project_dir@, names, k, k);
}

/// A manifest whose content is another is noticed: where it differs from the
/// recorded snapshot in size or in time, its content has another digest than the
/// recorded one, and what decides about an install has none that was recorded,
/// an install is needed or more is asked.
pub proof fn law_changed_manifest_is_not_fresh(
    input: CheckInput,
    state: FreshnessState,
    facts: Facts,
    with_settings: bool,
    rel: Seq<char>,
)
    requires
        state.package_json_hashes.wf(),
        state.package_json_hashes@.contains_key(rel),
        known(facts.meta, manifest_of(input, rel)) && state.package_json_meta@.contains_key(rel) ==> (fact(
            facts.meta,
            manifest_of(input, rel),
        ) matches Some(m) ==> m.size != state.package_json_meta@[rel].size || m.mtime_secs
            != state.package_json_meta@[rel].mtime_secs || m.mtime_nanos != state.package_json_meta@[rel].mtime_nanos),
        known(facts.content, manifest_of(input, rel)) ==> "blake3:"@ + blake3_hex(
            match fact(facts.content, manifest_of(input, rel)) {
                Some(c) => c@,
                None => Seq::empty(),
            },
        ) != state.package_json_hashes@[rel]@,
        known(facts.shape, manifest_of(input, rel)) && state.package_json_shape_digests@.contains_key(rel) ==> (fact(
            facts.shape,
            manifest_of(input, rel),
        ) matches Some(d) ==> hex_text(d@) != state.package_json_shape_digests@[rel]@),
    ensures
        !(verdict(input, Some(state), facts, with_settings) is Fresh),
{
    if verdict(input, Some(state), facts, with_settings) is Fresh {
        law_fresh_means_every_check_passes(input, state, facts, with_settings);
        let i = lemma_key_index(state.package_json_hashes, rel);
        assert(manifest_check(input, state, facts, i) is Pass);
        law_manifest_passes_as_recorded(input, state, facts, i);
    }
}

/// A manifest with the recorded size and time is not read.
pub proof fn law_unmoved_manifest_is_not_read(
    input: CheckInput,
    state: FreshnessState,
    facts: Facts,
    i: int,
)
    requires
        state.package_json_hashes.wf(),
        0 <= i < state.package_json_hashes.keys().len(),
        ({
            let rel = state.package_json_hashes.keys()[i];
            let p = manifest_of(input, rel);
            &&& known(facts.exists, p) && fact(facts.exists, p)
            &&& state.package_json_meta@.contains_key(rel)
            &&& has_meta(facts, p, state.package_json_meta@[rel])
        }),
    ensures
        manifest_check(input, state, facts, i) is Pass,
{
    let rel = state.package_json_hashes.keys()[i];
    let p = manifest_of(input, rel);
    assert(fact(facts.meta, p) == Some(state.package_json_meta@[rel]));
}

/// Without a recorded state an install is needed.
pub proof fn law_no_state_is_stale(input: CheckInput, facts: Facts, with_settings: bool)
    ensures
        verdict(input, None, facts, with_settings) == VerdictView::Stale("install state not found"@),
{
}

/// What is recorded anew is what the facts say: the snapshot of the lockfile in
/// use, where its size or time had moved, and the metadata fingerprint of every
/// local directory whose files' metadata had.
pub proof fn law_refresh_is_what_moved(
    input: CheckInput,
    state: FreshnessState,
    facts: Facts,
    with_settings: bool,
    meta: Option<FileMeta>,
    moved: Map<Seq<char>, Seq<char>>,
)
    requires
        state_wf(state),
        verdict(input, Some(state), facts, with_settings) == VerdictView::Fresh(meta, moved),
    ensures
        forall|i: int|
            #[trigger] lockfile_as_recorded(input, state, facts, i) ==> ({
                let names = lockfile_names(input.lockfile_basename@, input.preferred_lockfile@);
                let now = fact(facts.meta, path_joined(input.project_dir@, names[i]));
                meta == if now == state.lockfile_meta {
                    None
                } else {
                    now
                }
            }),
        forall|rel: Seq<char>|
            #[trigger] moved.contains_key(rel) <==> state.local_directory_hashes->0@.contains_key(rel) && fact(
                facts.dir_metadata,
                path_joined(input.project_dir@, rel),
            )->0@ != state.local_directory_hashes->0@[rel].metadata_hash@,
        forall|rel: Seq<char>|
            #[trigger] moved.contains_key(rel) ==> moved[rel] == fact(
                facts.dir_metadata,
                path_joined(input.project_dir@, rel),
            )->0@,
{
    law_fresh_means_as_recorded(input, state, facts, with_settings);
    let names = lockfile_names(input.lockfile_basename@, input.preferred_lockfile@);
    lemma_search_finds(facts, input.project_dir@, names, 0);
    assert forall|i: int| #[trigger] lockfile_as_recorded(input, state, facts, i) implies ({
        let now = fact(facts.meta, path_joined(input.project_dir@, names[i]));
        meta == if now == state.lockfile_meta {
            None
        } else {
            now
        }
    }) by {
        let k = search(facts, input.project_dir@, names, 0);
        lemma_one_first(facts, input.project_dir@, names, i, i);
        if k is Found {
            lemma_one_first(facts, input.project_dir@, names, k->Found_0, i);
        }
    }
    assert forall|rel: Seq<char>| state.local_directory_hashes->0@.contains_key(rel) implies known(
        facts.dir_metadata,
        path_joined(input.project_dir@, rel),
    ) && #[trigger] fact(facts.dir_metadata, path_joined(input.project_dir@, rel)) is Some by {
        let dirs = state.local_directory_hashes->0;
        assert(directory_as_recorded(input.project_dir@, dirs@[rel], facts, rel));
    }
}

} // verus!
