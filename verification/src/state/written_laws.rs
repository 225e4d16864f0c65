//! What a check finds right after an install wrote its state.
use crate::digest::{content_or_empty, tagged_digest};
use crate::fs_path::path_joined;
use crate::state::facts::{fact, known, Facts, Member};
use crate::state::freshness::{
    has_member, lockfile_check, manifest_check, manifest_path, manifests_check, member_check, member_key,
    members_check, removed_check, search, CheckInput, LockView, SearchView,
};
use crate::state::layout_check::{
    empty_digest_text, entry_check, importer_check, layout_check, link_check, package_check,
};
use crate::state::lockfile::lockfile_names;
use crate::state::model::{FreshnessState, InstallLayoutState, InstallState, LocalDirectoryFingerprint};
use crate::state::record::{records, WriteStateInput};
use crate::state::verdict::{
    directories_check, directory_check, metadata_moved, moved_metadata, tree_check, verdict, VerdictView,
};
use crate::state::verdict_laws::{
    law_fresh_means_every_check_passes, law_tree_is_as_recorded, lemma_scan_pass, lemma_scan_same,
};
use crate::str_map::{lemma_entry, lemma_increasing_unique, lemma_key_index, StrMap};
use vstd::prelude::*;

verus! {

/// The maps of the tree are well formed.
pub open spec fn layout_wf(l: InstallLayoutState) -> bool {
    &&& l.direct_entries.wf()
    &&& l.packages.wf()
    &&& l.gvs_nested_links matches Some(links) ==> links.wf()
}

/// The maps of the state are well formed.
pub open spec fn state_wf(s: FreshnessState) -> bool {
    &&& s.member_lockfile_hashes.wf()
    &&& s.member_lockfile_meta.wf()
    &&& s.package_json_hashes.wf()
    &&& s.package_json_meta.wf()
    &&& s.package_json_shape_digests.wf()
    &&& s.local_directory_hashes matches Some(d) ==> d.wf()
    &&& s.layout matches Some(l) ==> layout_wf(l)
}

/// Maps that hold the same hold it in the same order.
proof fn lemma_same_entries<V: DeepView>(a: StrMap<V>, b: StrMap<V>)
    requires
        a.wf(),
        b.wf(),
        a.deep_view() == b.deep_view(),
    ensures
        a.keys() == b.keys(),
        forall|i: int|
            0 <= i < a.keys().len() ==> (#[trigger] a.values()[i]).deep_view() == b.values()[i].deep_view(),
        forall|k: Seq<char>| a@.contains_key(k) == #[trigger] b@.contains_key(k),
        forall|k: Seq<char>| #[trigger] a@.contains_key(k) ==> a@[k].deep_view() == b@[k].deep_view(),
{
    let da = a@.map_values(|v: V| v.deep_view());
    let db = b@.map_values(|v: V| v.deep_view());
    assert(a.deep_view() == da);
    assert(b.deep_view() == db);
    assert forall|k: Seq<char>| a@.contains_key(k) == #[trigger] b@.contains_key(k) by {
        assert(da.contains_key(k) == db.contains_key(k));
    }
    assert forall|k: Seq<char>| #[trigger] a@.contains_key(k) implies a@[k].deep_view() == b@[k].deep_view() by {
        assert(da[k] == db[k]);
        assert(db.contains_key(k));
    }
    assert forall|k: Seq<char>| a.keys().contains(k) <==> b.keys().contains(k) by {
        assert(a@.contains_key(k) == b@.contains_key(k));
    }
    lemma_increasing_unique(a.keys(), b.keys());
    assert forall|i: int| 0 <= i < a.keys().len() implies (#[trigger] a.values()[i]).deep_view()
        == b.values()[i].deep_view() by {
        lemma_entry(a, i);
        lemma_entry(b, i);
        assert(a@.contains_key(a.keys()[i]));
    }
}

proof fn lemma_same_tree(project: Seq<Seq<char>>, a: InstallLayoutState, b: InstallLayoutState, facts: Facts)
    requires
        layout_wf(a),
        layout_wf(b),
        a.deep_view() == b.deep_view(),
    ensures
        layout_check(project, a, facts) == layout_check(project, b, facts),
{
    lemma_same_entries(a.direct_entries, b.direct_entries);
    lemma_same_entries(a.packages, b.packages);
    let n = a.direct_entries.keys().len() as int;
    let f = |i: int| importer_check(a, facts, i);
    let g = |i: int| importer_check(b, facts, i);
    assert forall|i: int| 0 <= i < n implies #[trigger] f(i) == g(i) by {
        let x = a.direct_entries.values()[i];
        let y = b.direct_entries.values()[i];
        assert(x.deep_view() == y.deep_view());
        assert(x@.len() == x.deep_view().len());
        assert(y@.len() == y.deep_view().len());
        let p = |j: int| entry_check(a, facts, i, j);
        let q = |j: int| entry_check(b, facts, i, j);
        assert forall|j: int| 0 <= j < x@.len() implies #[trigger] p(j) == q(j) by {
            assert(x.deep_view()[j] == x@[j].deep_view());
            assert(y.deep_view()[j] == y@[j].deep_view());
        }
        lemma_scan_same(p, q, 0, x@.len() as int);
    }
    lemma_scan_same(f, g, 0, n);
    let m = a.packages.keys().len() as int;
    let c = |i: int| package_check(project, a, facts, i);
    let d = |i: int| package_check(project, b, facts, i);
    assert forall|i: int| 0 <= i < m implies #[trigger] c(i) == d(i) by {
        assert(a.packages.values()[i].deep_view() == b.packages.values()[i].deep_view());
    }
    lemma_scan_same(c, d, 0, m);
    assert(a.gvs_nested_links is Some == b.gvs_nested_links is Some) by {
        assert(a.gvs_nested_links.deep_view() == b.gvs_nested_links.deep_view());
    }
    if a.gvs_nested_links is Some {
        let x = a.gvs_nested_links->0;
        let y = b.gvs_nested_links->0;
        assert(a.gvs_nested_links.deep_view() == b.gvs_nested_links.deep_view());
        lemma_same_entries(x, y);
        let p = |i: int| link_check(a, facts, i);
        let q = |i: int| link_check(b, facts, i);
        assert forall|i: int| 0 <= i < x.keys().len() implies #[trigger] p(i) == q(i) by {
            assert(x.values()[i].deep_view() == y.values()[i].deep_view());
        }
        lemma_scan_same(p, q, 0, x.keys().len() as int);
    }
}

proof fn lemma_same_members(input: CheckInput, a: FreshnessState, b: FreshnessState, facts: Facts)
    requires
        state_wf(a),
        state_wf(b),
        a@ == b@,
    ensures
        members_check(input, a, facts) == members_check(input, b, facts),
{
    lemma_same_entries(a.member_lockfile_hashes, b.member_lockfile_hashes);
    lemma_same_entries(a.member_lockfile_meta, b.member_lockfile_meta);
    if facts.members is Some {
        let members = facts.members->0@;
        let f = |i: int| member_check(input, a, facts, members, i);
        let g = |i: int| member_check(input, b, facts, members, i);
        assert forall|i: int| 0 <= i < members.len() implies #[trigger] f(i) == g(i) by {
            let key = member_key(input, members[i]);
            assert(a.member_lockfile_hashes@.contains_key(key) == b.member_lockfile_hashes@.contains_key(key));
            assert(a.member_lockfile_meta@.contains_key(key) == b.member_lockfile_meta@.contains_key(key));
        }
        lemma_scan_same(f, g, 0, members.len() as int);
        let h = |i: int| removed_check(input, a, members, i);
        let k = |i: int| removed_check(input, b, members, i);
        lemma_scan_same(h, k, 0, a.member_lockfile_hashes.keys().len() as int);
    }
}

proof fn lemma_same_manifests(input: CheckInput, a: FreshnessState, b: FreshnessState, facts: Facts)
    requires
        state_wf(a),
        state_wf(b),
        a@ == b@,
    ensures
        manifests_check(input, a, facts) == manifests_check(input, b, facts),
{
    lemma_same_entries(a.package_json_hashes, b.package_json_hashes);
    lemma_same_entries(a.package_json_meta, b.package_json_meta);
    lemma_same_entries(a.package_json_shape_digests, b.package_json_shape_digests);
    let n = a.package_json_hashes.keys().len() as int;
    let f = |i: int| manifest_check(input, a, facts, i);
    let g = |i: int| manifest_check(input, b, facts, i);
    assert forall|i: int| 0 <= i < n implies #[trigger] f(i) == g(i) by {
        let rel = a.package_json_hashes.keys()[i];
        assert(a.package_json_hashes.values()[i].deep_view() == b.package_json_hashes.values()[i].deep_view());
        assert(a.package_json_meta@.contains_key(rel) == b.package_json_meta@.contains_key(rel));
        assert(a.package_json_shape_digests@.contains_key(rel) == b.package_json_shape_digests@.contains_key(rel));
    }
    lemma_scan_same(f, g, 0, n);
}

proof fn lemma_same_directories(
    project: Seq<Seq<char>>,
    a: StrMap<LocalDirectoryFingerprint>,
    b: StrMap<LocalDirectoryFingerprint>,
    facts: Facts,
)
    requires
        a.wf(),
        b.wf(),
        a.deep_view() == b.deep_view(),
    ensures
        directories_check(project, Some(a), facts) == directories_check(project, Some(b), facts),
        moved_metadata(project, a, facts) == moved_metadata(project, b, facts),
{
    lemma_same_entries(a, b);
    let n = a.keys().len() as int;
    let f = |i: int| directory_check(project, a, facts, i);
    let g = |i: int| directory_check(project, b, facts, i);
    assert forall|i: int| 0 <= i < n implies #[trigger] f(i) == g(i) by {
        assert(a.values()[i].deep_view() == b.values()[i].deep_view());
    }
    lemma_scan_same(f, g, 0, n);
    assert forall|rel: Seq<char>| metadata_moved(project, a, facts, rel) == metadata_moved(project, b, facts, rel) by {
        assert(a@.contains_key(rel) == b@.contains_key(rel));
    }
    assert(moved_metadata(project, a, facts) =~= moved_metadata(project, b, facts));
}

/// The verdict goes by what is recorded: states that record the same get the
/// same verdict. So a state that was written and read again is as good as the
/// one that was made.
pub proof fn law_verdict_follows_the_record(
    input: CheckInput,
    a: FreshnessState,
    b: FreshnessState,
    facts: Facts,
    with_settings: bool,
)
    requires
        state_wf(a),
        state_wf(b),
        a@ == b@,
    ensures
        verdict(input, Some(a), facts, with_settings) == verdict(input, Some(b), facts, with_settings),
{
    let project = input.project_dir@;
    lemma_same_members(input, a, b, facts);
    lemma_same_manifests(input, a, b, facts);
    lemma_same_entries(a.member_lockfile_hashes, b.member_lockfile_hashes);
    assert(a.local_directory_hashes is Some == b.local_directory_hashes is Some) by {
        assert(a.local_directory_hashes.deep_view() == b.local_directory_hashes.deep_view());
    }
    if a.local_directory_hashes is Some {
        assert(a.local_directory_hashes.deep_view() == b.local_directory_hashes.deep_view());
        lemma_same_directories(project, a.local_directory_hashes->0, b.local_directory_hashes->0, facts);
    }
    assert(a.layout is Some == b.layout is Some) by {
        assert(a.layout.deep_view() == b.layout.deep_view());
    }
    if a.layout is Some {
        assert(a.layout.deep_view() == b.layout.deep_view());
        lemma_same_tree(project, a.layout->0, b.layout->0, facts);
    }
    assert(lockfile_check(input, a, facts) == lockfile_check(input, b, facts));
}

/// The lockfile in use is the one whose digest was handed over. Members that
/// have lockfiles of their own can do without one at the root.
pub open spec fn shows_lockfile(input: CheckInput, w: WriteStateInput, facts: Facts) -> bool {
    let names = lockfile_names(input.lockfile_basename@, input.preferred_lockfile@);
    match search(facts, input.project_dir@, names, 0) {
        SearchView::Found(i) => {
            let p = path_joined(input.project_dir@, names[i]);
            &&& known(facts.meta, p)
            &&& known(facts.content, p)
            &&& tagged_digest(content_or_empty(fact(facts.content, p))) == w.lockfile.hash@
        },
        SearchView::Absent => w.members.0.keys().len() > 0,
        SearchView::Ask(_) => false,
    }
}

/// The member has the lockfile whose digest was handed over, or none where
/// none was.
pub open spec fn shows_member(input: CheckInput, w: WriteStateInput, facts: Facts, member: Member) -> bool {
    let key = member_key(input, member);
    let names = lockfile_names(input.lockfile_basename@, member.preferred_lockfile@);
    &&& w.members.0@.contains_key(key)
    &&& match search(facts, member.dir@, names, 0) {
        SearchView::Found(i) => {
            let p = path_joined(member.dir@, names[i]);
            &&& known(facts.meta, p)
            &&& known(facts.content, p)
            &&& tagged_digest(content_or_empty(fact(facts.content, p))) == w.members.0@[key]@
        },
        SearchView::Absent => w.members.0@[key]@.len() == 0,
        SearchView::Ask(_) => false,
    }
}

/// The manifest is there, with the contents whose digest was handed over.
pub open spec fn shows_manifest(input: CheckInput, w: WriteStateInput, facts: Facts, i: int) -> bool {
    let p = manifest_path(input.project_dir@, w.package_json_hashes.keys()[i]);
    &&& known(facts.exists, p)
    &&& fact(facts.exists, p)
    &&& known(facts.meta, p)
    &&& known(facts.content, p)
    &&& tagged_digest(content_or_empty(fact(facts.content, p))) == w.package_json_hashes.values()[i]@
}

/// The package is a live link, or its manifest has the contents whose digest
/// was handed over.
pub open spec fn shows_package(input: CheckInput, layout: InstallLayoutState, facts: Facts, i: int) -> bool {
    let pkg = layout.packages.values()[i];
    let p = path_joined(input.project_dir@, pkg.package_json_path@);
    pkg.link || {
        &&& known(facts.content, p)
        &&& fact(facts.content, p) matches Some(c) && tagged_digest(c@) == pkg.package_json_hash@
        &&& pkg.package_json_hash@.len() > 0
        &&& pkg.package_json_hash@ != empty_digest_text()
    }
}

/// The store link leads where it was said to lead.
pub open spec fn shows_link(layout: InstallLayoutState, facts: Facts, i: int) -> bool {
    let links = layout.gvs_nested_links->0;
    facts.links matches Some(found) && found@.contains_key(links.keys()[i]) && found@[links.keys()[i]]@
        == links.values()[i]@
}

/// The local directory has the metadata that was handed over.
pub open spec fn shows_directory(input: CheckInput, w: WriteStateInput, facts: Facts, i: int) -> bool {
    let p = path_joined(input.project_dir@, w.local_directory_hashes.keys()[i]);
    &&& known(facts.dir_metadata, p)
    &&& fact(facts.dir_metadata, p) matches Some(m) && m@ == w.local_directory_hashes.values()[i].metadata_hash@
}

/// The facts are those that the install recorded: nothing has changed since.
pub open spec fn shows(input: CheckInput, w: WriteStateInput, facts: Facts) -> bool {
    &&& known(facts.exists, input.modules_dir@)
    &&& fact(facts.exists, input.modules_dir@)
    &&& shows_lockfile(input, w, facts)
    &&& w.members.0.keys().len() > 0 ==> facts.members is Some
    &&& w.members.0.keys().len() > 0 ==> forall|i: int|
        0 <= i < facts.members->0@.len() ==> shows_member(input, w, facts, #[trigger] facts.members->0@[i])
    &&& w.members.0.keys().len() > 0 ==> forall|i: int|
        0 <= i < w.members.0.keys().len() ==> has_member(
            input,
            facts.members->0@,
            #[trigger] w.members.0.keys()[i],
        )
    &&& forall|i: int| 0 <= i < w.package_json_hashes.keys().len() ==> #[trigger] shows_manifest(input, w, facts, i)
    &&& facts.entries is Some
    &&& forall|i: int, j: int|
        0 <= i < w.layout.direct_entries.keys().len() && 0 <= j < w.layout.direct_entries.values()[i]@.len()
            ==> facts.entries->0@.contains((#[trigger] w.layout.direct_entries.values()[i]@[j])@)
    &&& forall|i: int| 0 <= i < w.layout.packages.keys().len() ==> #[trigger] shows_package(input, w.layout, facts, i)
    &&& w.layout.gvs_nested_links matches Some(links) ==> forall|i: int|
        0 <= i < links.keys().len() ==> #[trigger] shows_link(w.layout, facts, i)
    &&& facts.settings_hash matches Some(h) && h@ == w.settings_hash@
    &&& forall|i: int|
        0 <= i < w.local_directory_hashes.keys().len() ==> #[trigger] shows_directory(input, w, facts, i)
}

/// The tree that was handed over passes where the facts show it.
proof fn lemma_shown_tree(input: CheckInput, w: WriteStateInput, facts: Facts)
    requires
        shows(input, w, facts),
    ensures
        tree_check(input.project_dir@, Some(w.layout), facts) is Pass,
{
    let project = input.project_dir@;
    law_tree_is_as_recorded(project, w.layout, facts);
    assert forall|i: int| 0 <= i < w.layout.direct_entries.keys().len() implies #[trigger] importer_check(
        w.layout,
        facts,
        i,
    ) is Pass by {
        let f = |j: int| entry_check(w.layout, facts, i, j);
        let n = w.layout.direct_entries.values()[i]@.len() as int;
        assert forall|j: int| 0 <= j < n implies #[trigger] f(j) is Pass by {
            assert(facts.entries->0@.contains(w.layout.direct_entries.values()[i]@[j]@));
        }
        lemma_scan_pass(f, 0, n);
    }
    assert forall|i: int| 0 <= i < w.layout.packages.keys().len() implies #[trigger] package_check(
        project,
        w.layout,
        facts,
        i,
    ) is Pass by {
        assert(shows_package(input, w.layout, facts, i));
    }
    if w.layout.gvs_nested_links is Some {
        assert forall|i: int| 0 <= i < w.layout.gvs_nested_links->0.keys().len() implies #[trigger] link_check(
            w.layout,
            facts,
            i,
        ) is Pass by {
            assert(shows_link(w.layout, facts, i));
        }
    }
}

/// A state with the fields that were handed over finds nothing changed.
proof fn lemma_shown_state(input: CheckInput, w: WriteStateInput, s: FreshnessState, facts: Facts)
    requires
        state_wf(s),
        s.lockfile_hash == w.lockfile.hash,
        s.lockfile_meta == w.lockfile.meta,
        s.member_lockfile_hashes == w.members.0,
        s.package_json_hashes == w.package_json_hashes,
        s.local_directory_hashes == Some(w.local_directory_hashes),
        s.section_filtered == w.section_filtered,
        s.settings_hash == w.settings_hash,
        s.layout == Some(w.layout),
        !w.section_filtered,
        shows(input, w, facts),
    ensures
        verdict(input, Some(s), facts, true) is Fresh,
        moved_metadata(input.project_dir@, w.local_directory_hashes, facts) == Map::<Seq<char>, Seq<char>>::empty(),
{
    let project = input.project_dir@;
    law_fresh_means_every_check_passes(input, s, facts, true);
    lemma_shown_tree(input, w, facts);
    if s.member_lockfile_hashes.keys().len() > 0 {
        let members = facts.members->0@;
        assert forall|i: int| 0 <= i < members.len() implies #[trigger] member_check(
            input,
            s,
            facts,
            members,
            i,
        ) is Pass by {
            assert(shows_member(input, w, facts, members[i]));
        }
        assert forall|i: int| 0 <= i < s.member_lockfile_hashes.keys().len() implies #[trigger] removed_check(
            input,
            s,
            members,
            i,
        ) is Pass by {
            assert(has_member(input, members, w.members.0.keys()[i]));
        }
    }
    assert forall|i: int| 0 <= i < s.package_json_hashes.keys().len() implies #[trigger] manifest_check(
        input,
        s,
        facts,
        i,
    ) is Pass by {
        assert(shows_manifest(input, w, facts, i));
    }
    let d = w.local_directory_hashes;
    assert forall|i: int| 0 <= i < d.keys().len() implies #[trigger] directory_check(project, d, facts, i) is Pass by {
        assert(shows_directory(input, w, facts, i));
    }
    assert forall|rel: Seq<char>| !metadata_moved(project, d, facts, rel) by {
        if metadata_moved(project, d, facts, rel) {
            let i = lemma_key_index(d, rel);
            assert(shows_directory(input, w, facts, i));
        }
    }
    assert(moved_metadata(project, d, facts) =~= Map::<Seq<char>, Seq<char>>::empty());
}

/// Right after an install no install is needed: where nothing has changed
/// since the state was written, and no section was left out, the check says so.
/// Where the lockfile has the size and time that were recorded as well, there
/// is nothing to record anew.
pub proof fn law_installed_tree_is_fresh(
    input: CheckInput,
    w: WriteStateInput,
    state: InstallState,
    fresh: FreshnessState,
    facts: Facts,
)
    requires
        records(state, w),
        fresh@ == state.freshness(),
        state_wf(fresh),
        state.member_lockfile_hashes.wf(),
        state.member_lockfile_meta.wf(),
        state.package_json_hashes.wf(),
        state.package_json_meta.wf(),
        state.package_json_shape_digests.wf(),
        w.local_directory_hashes.wf(),
        layout_wf(w.layout),
        !w.section_filtered,
        shows(input, w, facts),
    ensures
        verdict(input, Some(fresh), facts, true) is Fresh,
        lockfile_check(input, fresh, facts) == LockView::Current(None) ==> verdict(input, Some(fresh), facts, true)
            == VerdictView::Fresh(None, Map::empty()),
{
    let s = FreshnessState {
        lockfile_hash: state.lockfile_hash,
        lockfile_snapshot_name: state.lockfile_snapshot_name,
        lockfile_meta: state.lockfile_meta,
        member_lockfile_hashes: state.member_lockfile_hashes,
        member_lockfile_meta: state.member_lockfile_meta,
        package_json_hashes: state.package_json_hashes,
        package_json_meta: state.package_json_meta,
        local_directory_hashes: state.local_directory_hashes,
        section_filtered: state.section_filtered,
        settings_hash: state.settings_hash,
        package_json_shape_digests: state.package_json_shape_digests,
        layout: state.layout,
        unreviewed_builds: state.unreviewed_builds,
    };
    assert(s@ == fresh@);
    lemma_shown_state(input, w, s, facts);
    law_verdict_follows_the_record(input, s, fresh, facts, true);
    assert(lockfile_check(input, s, facts) == lockfile_check(input, fresh, facts));
}

} // verus!
