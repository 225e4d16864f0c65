//! What is said of a tree that is not fresh.
use crate::fs_path::path_file_name;
use crate::state::facts::{fact, known, Facts, Member};
use crate::state::freshness::{manifest_check, member_check, member_key, removed_check, CheckInput, CheckView};
use crate::state::layout_check::{empty_digest_text, entry_check, link_check, package_check};
use crate::state::model::{FreshnessState, InstallLayoutState, LocalDirectoryFingerprint};
use crate::state::verdict::{
    directories_check, directory_check, later_checks, sections_check, settings_check, verdict, VerdictView,
};
use crate::str_map::StrMap;
use vstd::prelude::*;

verus! {

/// A modules directory that is gone is told by its name before anything else.
pub proof fn law_missing_modules_are_told_first(
    input: CheckInput,
    state: FreshnessState,
    facts: Facts,
    with_settings: bool,
)
    requires
        known(facts.exists, input.modules_dir@),
        !fact(facts.exists, input.modules_dir@),
    ensures
        path_file_name(input.modules_dir@) matches Some(n) ==> verdict(input, Some(state), facts, with_settings)
            == VerdictView::Stale(n + " is missing"@),
        path_file_name(input.modules_dir@) is None ==> verdict(input, Some(state), facts, with_settings)
            == VerdictView::Stale("node_modules"@ + " is missing"@),
{
}

/// A manifest that is not as recorded is told by its path, that of the root project
/// by its file name: as missing where it is not there, else as changed.
pub proof fn law_manifest_reason_names_it(input: CheckInput, state: FreshnessState, facts: Facts, i: int)
    ensures
        ({
            let rel = state.package_json_hashes.keys()[i];
            let p = crate::state::freshness::manifest_path(input.project_dir@, rel);
            manifest_check(input, state, facts, i) matches CheckView::Stale(r) ==> {
                &&& !fact(facts.exists, p) ==> r == rel + " is missing"@
                &&& fact(facts.exists, p) && rel == "."@ ==> r == "package.json has changed"@
                &&& fact(facts.exists, p) && rel != "."@ ==> r == rel + " has changed"@
            }
        }),
{
}

/// A member that is not as recorded is told by its path: as new where it was not
/// recorded, else by what became of its lockfile.
pub proof fn law_member_reason_names_it(
    input: CheckInput,
    state: FreshnessState,
    facts: Facts,
    members: Seq<Member>,
    i: int,
)
    ensures
        ({
            let key = member_key(input, members[i]);
            &&& !state.member_lockfile_hashes@.contains_key(key) ==> member_check(input, state, facts, members, i)
                == CheckView::Stale(key + " is a new workspace member"@)
            &&& member_check(input, state, facts, members, i) matches CheckView::Stale(r)
                ==> !state.member_lockfile_hashes@.contains_key(key) || r == key + " lockfile is missing"@ || r == key
                + " lockfile has changed"@
        }),
        removed_check(input, state, members, i) matches CheckView::Stale(r) ==> r
            == state.member_lockfile_hashes.keys()[i] + " was removed from the workspace"@,
{
}

/// An entry, a package or a link of the tree that is not as recorded is told by its
/// path, as missing, unreadable or changed.
pub proof fn law_tree_reason_names_the_path(
    project: Seq<Seq<char>>,
    layout: InstallLayoutState,
    facts: Facts,
    i: int,
    j: int,
)
    ensures
        entry_check(layout, facts, i, j) matches CheckView::Stale(r) ==> r == "installed entry missing: "@
            + layout.direct_entries.values()[i]@[j]@,
        package_check(project, layout, facts, i) matches CheckView::Stale(r) ==> {
            let path = layout.packages.values()[i].package_json_path@;
            ||| r == "installed package metadata missing: "@ + path
            ||| r == "installed package metadata unreadable: "@ + path
            ||| r == "installed package metadata changed: "@ + path
        },
        link_check(layout, facts, i) matches CheckView::Stale(r) ==> {
            let rel = layout.gvs_nested_links->0.keys()[i];
            ||| r == "global virtual store link missing: "@ + rel && !facts.links->0@.contains_key(rel)
            ||| r == "global virtual store link changed: "@ + rel && facts.links->0@.contains_key(rel)
        },
        empty_digest_text() == "blake3:af1349b9f5f9a1a6a0404dea36dcc9499bcb25c9adc112b7cc9a93cae41f3262"@,
{
}

/// A local directory is told by its path; settings that differ, sections that were
/// left out and fingerprints that were not taken are told as such.
pub proof fn law_other_reasons_say_what_differs(
    project: Seq<Seq<char>>,
    state: FreshnessState,
    dirs: StrMap<LocalDirectoryFingerprint>,
    facts: Facts,
    i: int,
)
    ensures
        directory_check(project, dirs, facts, i) matches CheckView::Stale(r) ==> r == "local dependency "@
            + dirs.keys()[i] + " is unreadable"@ || r == "local dependency "@ + dirs.keys()[i] + " has changed"@,
        directories_check(project, None, facts) == CheckView::Stale("local dependency fingerprints not recorded"@),
        settings_check(state, facts, true) matches CheckView::Stale(r) ==> r
            == ".npmrc or workspace config has changed"@,
        sections_check(state) matches CheckView::Stale(r) ==> r
            == "previous install omitted dependency sections; auto-installing full graph"@,
{
}

/// Where everything else that was recorded still holds and no member has one, a
/// lockfile that is gone is told as such.
pub proof fn law_missing_lockfile_is_told(input: CheckInput, state: FreshnessState, facts: Facts, with_settings: bool)
    requires
        later_checks(input, state, facts, with_settings, false) is Pass,
    ensures
        later_checks(input, state, facts, with_settings, true) == CheckView::Stale("no lockfile found"@),
{
}

} // verus!
