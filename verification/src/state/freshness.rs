//! Whether the tree on disk is still the one that the last install made.
use crate::digest::{content_or_empty, hash_file, hex_encode, hex_text, tagged_digest};
use crate::fs_path::{path_file_name, path_joined, FsPath};
use crate::relative::{relative_path_or_original, relative_text};
use crate::state::facts::{fact, known, look, Facts, Member, Probe, ProbeView};
use crate::state::lockfile::{lockfile_candidates, lockfile_names};
use crate::state::model::{FileMeta, FreshnessState};
use crate::text::{concat, same_text, texts};
use vstd::prelude::*;

verus! {

/// What a single check comes to.
#[derive(Debug, PartialEq, Eq)]
pub enum Check {
    Pass,
    /// More has to be known first.
    Ask(Probe),
    /// An install is needed, for this reason.
    Stale(String),
}

/// What a single check comes to.
pub enum CheckView {
    Pass,
    Ask(ProbeView),
    Stale(Seq<char>),
}

impl View for Check {
    type V = CheckView;

    open spec fn view(&self) -> CheckView {
        match self {
            Check::Pass => CheckView::Pass,
            Check::Ask(p) => CheckView::Ask(p@),
            Check::Stale(s) => CheckView::Stale(s@),
        }
    }
}

/// The first check from `i` on that does not pass.
pub open spec fn scan(f: spec_fn(int) -> CheckView, i: int, n: int) -> CheckView
    decreases n - i,
{
    if i >= n {
        CheckView::Pass
    } else {
        match f(i) {
            CheckView::Pass => scan(f, i + 1, n),
            c => c,
        }
    }
}

/// `b` where `a` passes, `a` otherwise.
pub open spec fn and_next(a: CheckView, b: CheckView) -> CheckView {
    match a {
        CheckView::Pass => b,
        c => c,
    }
}

/// What the check goes by besides the recorded state.
#[derive(Debug)]
pub struct CheckInput {
    pub project_dir: FsPath,
    pub modules_dir: FsPath,
    /// The file name of the lockfile.
    pub lockfile_basename: String,
    /// The file name that the project's lockfile has on this branch.
    pub preferred_lockfile: String,
}

/// How the search for a lockfile went.
pub enum SearchView {
    Ask(Seq<Seq<char>>),
    Found(int),
    Absent,
}

/// The first of the names from `i` on that exists in the directory.
pub open spec fn search(facts: Facts, dir: Seq<Seq<char>>, names: Seq<Seq<char>>, i: int) -> SearchView
    decreases names.len() - i,
{
    if i >= names.len() {
        SearchView::Absent
    } else {
        let p = path_joined(dir, names[i]);
        if !known(facts.exists, p) {
            SearchView::Ask(p)
        } else if fact(facts.exists, p) {
            SearchView::Found(i)
        } else {
            search(facts, dir, names, i + 1)
        }
    }
}

/// How the search for a lockfile went.
enum Search {
    Ask(FsPath),
    Found(usize, FsPath),
    Absent,
}

/// Look for a lockfile in a directory.
fn find_lockfile(facts: &Facts, dir: &FsPath, names: &Vec<String>) -> (r: Search)
    ensures
        match r {
            Search::Ask(p) => search(*facts, dir@, texts(names@), 0) == SearchView::Ask(p@),
            Search::Found(i, p) => search(*facts, dir@, texts(names@), 0) == SearchView::Found(i as int) && i
                < names@.len() && p@ == path_joined(dir@, names@[i as int]@),
            Search::Absent => search(*facts, dir@, texts(names@), 0) is Absent,
        },
{
    let mut i: usize = 0;
    while i < names.len()
        invariant
            i <= names@.len(),
            search(*facts, dir@, texts(names@), 0) == search(*facts, dir@, texts(names@), i as int),
        decreases names.len() - i,
    {
        let p = dir.join(names[i].as_str());
        proof {
            assert(texts(names@)[i as int] == names@[i as int]@);
        }
        match look(&facts.exists, &p) {
            None => {
                return Search::Ask(p);
            },
            Some(there) => {
                if *there {
                    return Search::Found(i, p);
                }
            },
        }
        i += 1;
    }
    Search::Absent
}

/// The modules directory must be there. It may be gone while the state is
/// kept elsewhere.
pub open spec fn modules_check(input: CheckInput, facts: Facts) -> CheckView {
    let dir = input.modules_dir@;
    if !known(facts.exists, dir) {
        CheckView::Ask(ProbeView::Exists(dir))
    } else if fact(facts.exists, dir) {
        CheckView::Pass
    } else {
        CheckView::Stale(
            (match path_file_name(dir) {
                Some(n) => n,
                None => "node_modules"@,
            }) + " is missing"@,
        )
    }
}

pub fn check_modules(input: &CheckInput, facts: &Facts) -> (r: Check)
    ensures
        r@ == modules_check(*input, *facts),
{
    match look(&facts.exists, &input.modules_dir) {
        None => Check::Ask(Probe::Exists(input.modules_dir.copy())),
        Some(there) => if *there {
            Check::Pass
        } else {
            let name = match input.modules_dir.file_name() {
                Some(n) => n,
                None => "node_modules",
            };
            Check::Stale(concat(name, " is missing"))
        },
    }
}

/// What the root lockfile comes to.
pub enum LockView {
    Ask(ProbeView),
    Stale(Seq<char>),
    /// The lockfile is the recorded one; where its size and time have moved,
    /// they are recorded anew.
    Current(Option<FileMeta>),
    Absent,
}

/// The lockfile in use must be the recorded one: by size and time, or else by digest.
pub open spec fn lockfile_check(input: CheckInput, state: FreshnessState, facts: Facts) -> LockView {
    let dir = input.project_dir@;
    let names = lockfile_names(input.lockfile_basename@, input.preferred_lockfile@);
    match search(facts, dir, names, 0) {
        SearchView::Ask(p) => LockView::Ask(ProbeView::Exists(p)),
        SearchView::Absent => LockView::Absent,
        SearchView::Found(i) => {
            let p = path_joined(dir, names[i]);
            if !known(facts.meta, p) {
                LockView::Ask(ProbeView::Meta(p))
            } else if fact(facts.meta, p) is Some && fact(facts.meta, p) == state.lockfile_meta {
                LockView::Current(None)
            } else if !known(facts.content, p) {
                LockView::Ask(ProbeView::Content(p))
            } else if tagged_digest(content_or_empty(fact(facts.content, p))) != state.lockfile_hash@ {
                LockView::Stale(names[i] + " has changed"@)
            } else {
                LockView::Current(fact(facts.meta, p))
            }
        },
    }
}

/// What the root lockfile comes to.
pub enum Lock {
    Ask(Probe),
    Stale(String),
    Current(Option<FileMeta>),
    Absent,
}

/// Whether two snapshots are of the same file.
fn same_meta(a: &Option<FileMeta>, b: &Option<FileMeta>) -> (r: bool)
    ensures
        r == (a is Some && *a == *b),
{
    match (a, b) {
        (Some(x), Some(y)) => *x == *y,
        _ => false,
    }
}

pub fn check_lockfile(input: &CheckInput, state: &FreshnessState, facts: &Facts) -> (r: Lock)
    ensures
        match r {
            Lock::Ask(p) => lockfile_check(*input, *state, *facts) == LockView::Ask(p@),
            Lock::Stale(s) => lockfile_check(*input, *state, *facts) == LockView::Stale(s@),
            Lock::Current(m) => lockfile_check(*input, *state, *facts) == LockView::Current(m),
            Lock::Absent => lockfile_check(*input, *state, *facts) is Absent,
        },
{
    let names = lockfile_candidates(input.lockfile_basename.as_str(), input.preferred_lockfile.as_str());
    match find_lockfile(facts, &input.project_dir, &names) {
        Search::Ask(p) => Lock::Ask(Probe::Exists(p)),
        Search::Absent => Lock::Absent,
        Search::Found(i, p) => {
            proof {
                assert(texts(names@)[i as int] == names@[i as int]@);
            }
            let meta = match look(&facts.meta, &p) {
                None => {
                    return Lock::Ask(Probe::Meta(p));
                },
                Some(m) => *m,
            };
            if same_meta(&meta, &state.lockfile_meta) {
                return Lock::Current(None);
            }
            let content = match look(&facts.content, &p) {
                None => {
                    return Lock::Ask(Probe::Content(p));
                },
                Some(c) => c,
            };
            let hash = hash_file(content);
            if !same_text(hash.as_str(), state.lockfile_hash.as_str()) {
                return Lock::Stale(concat(names[i].as_str(), " has changed"));
            }
            Lock::Current(meta)
        },
    }
}

/// What a member of the workspace is recorded under.
pub open spec fn member_key(input: CheckInput, member: Member) -> Seq<char> {
    relative_text(member.dir@, input.project_dir@)
}

/// A member's lockfile must be the recorded one, and the member itself recorded.
pub open spec fn member_check(
    input: CheckInput,
    state: FreshnessState,
    facts: Facts,
    members: Seq<Member>,
    i: int,
) -> CheckView {
    let member = members[i];
    let key = member_key(input, member);
    let names = lockfile_names(input.lockfile_basename@, member.preferred_lockfile@);
    if !state.member_lockfile_hashes@.contains_key(key) {
        CheckView::Stale(key + " is a new workspace member"@)
    } else {
        let stored = state.member_lockfile_hashes@[key]@;
        match search(facts, member.dir@, names, 0) {
            SearchView::Ask(p) => CheckView::Ask(ProbeView::Exists(p)),
            SearchView::Absent => if stored.len() == 0 {
                CheckView::Pass
            } else {
                CheckView::Stale(key + " lockfile is missing"@)
            },
            SearchView::Found(k) => {
                let p = path_joined(member.dir@, names[k]);
                let metas = state.member_lockfile_meta@;
                if metas.contains_key(key) && !known(facts.meta, p) {
                    CheckView::Ask(ProbeView::Meta(p))
                } else if metas.contains_key(key) && fact(facts.meta, p) == Some(metas[key]) {
                    CheckView::Pass
                } else if !known(facts.content, p) {
                    CheckView::Ask(ProbeView::Content(p))
                } else if tagged_digest(content_or_empty(fact(facts.content, p))) != stored {
                    CheckView::Stale(key + " lockfile has changed"@)
                } else {
                    CheckView::Pass
                }
            },
        }
    }
}

/// Some member has the key.
pub open spec fn has_member(input: CheckInput, members: Seq<Member>, key: Seq<char>) -> bool {
    exists|i: int| 0 <= i < members.len() && member_key(input, #[trigger] members[i]) == key
}

/// A member that is recorded must still be there.
pub open spec fn removed_check(input: CheckInput, state: FreshnessState, members: Seq<Member>, i: int) -> CheckView {
    let key = state.member_lockfile_hashes.keys()[i];
    if has_member(input, members, key) {
        CheckView::Pass
    } else {
        CheckView::Stale(key + " was removed from the workspace"@)
    }
}

/// The lockfiles of the members must be the recorded ones, for the same members.
pub open spec fn members_check(input: CheckInput, state: FreshnessState, facts: Facts) -> CheckView {
    if facts.members is None {
        CheckView::Ask(ProbeView::Members)
    } else {
        let members = facts.members->0@;
        and_next(
            scan(|i: int| member_check(input, state, facts, members, i), 0, members.len() as int),
            scan(
                |i: int| removed_check(input, state, members, i),
                0,
                state.member_lockfile_hashes.keys().len() as int,
            ),
        )
    }
}

fn check_member(
    input: &CheckInput,
    state: &FreshnessState,
    facts: &Facts,
    members: &Vec<Member>,
    i: usize,
) -> (r: Check)
    requires
        i < members@.len(),
    ensures
        r@ == member_check(*input, *state, *facts, members@, i as int),
{
    let member = &members[i];
    let key = relative_path_or_original(&member.dir, &input.project_dir);
    let stored = match state.member_lockfile_hashes.get(key.as_str()) {
        None => {
            return Check::Stale(concat(key.as_str(), " is a new workspace member"));
        },
        Some(h) => h,
    };
    let names = lockfile_candidates(input.lockfile_basename.as_str(), member.preferred_lockfile.as_str());
    match find_lockfile(facts, &member.dir, &names) {
        Search::Ask(p) => Check::Ask(Probe::Exists(p)),
        Search::Absent => {
            proof {
                reveal_strlit("");
                assert(stored@ == ""@ <==> stored@.len() == 0) by {
                    if stored@.len() == 0 {
                        assert(stored@ =~= ""@);
                    }
                }
            }
            if same_text(stored.as_str(), "") {
                Check::Pass
            } else {
                Check::Stale(concat(key.as_str(), " lockfile is missing"))
            }
        },
        Search::Found(k, p) => {
            proof {
                assert(texts(names@)[k as int] == names@[k as int]@);
            }
            if let Some(stored_meta) = state.member_lockfile_meta.get(key.as_str()) {
                match look(&facts.meta, &p) {
                    None => {
                        return Check::Ask(Probe::Meta(p));
                    },
                    Some(m) => {
                        if same_meta(&Some(*stored_meta), m) {
                            return Check::Pass;
                        }
                    },
                }
            }
            match look(&facts.content, &p) {
                None => Check::Ask(Probe::Content(p)),
                Some(content) => {
                    let hash = hash_file(content);
                    if same_text(hash.as_str(), stored.as_str()) {
                        Check::Pass
                    } else {
                        Check::Stale(concat(key.as_str(), " lockfile has changed"))
                    }
                },
            }
        },
    }
}

/// Whether some member has the key.
fn find_member(input: &CheckInput, members: &Vec<Member>, key: &str) -> (r: bool)
    ensures
        r == has_member(*input, members@, key@),
{
    let mut i: usize = 0;
    while i < members.len()
        invariant
            i <= members@.len(),
            forall|j: int| 0 <= j < i ==> member_key(*input, #[trigger] members@[j]) != key@,
        decreases members.len() - i,
    {
        let k = relative_path_or_original(&members[i].dir, &input.project_dir);
        if same_text(k.as_str(), key) {
            proof {
                assert(member_key(*input, members@[i as int]) == key@);
            }
            return true;
        }
        i += 1;
    }
    false
}

/// Whether the lockfiles of the workspace members are the recorded ones.
pub fn member_lockfiles_stale(input: &CheckInput, state: &FreshnessState, facts: &Facts) -> (r: Check)
    ensures
        r@ == members_check(*input, *state, *facts),
{
    let members = match &facts.members {
        None => {
            return Check::Ask(Probe::Members);
        },
        Some(m) => m,
    };
    let ghost f = |i: int| member_check(*input, *state, *facts, members@, i);
    let ghost g = |i: int| removed_check(*input, *state, members@, i);
    let count = members.len();
    let total = state.member_lockfile_hashes.len();
    let ghost whole = and_next(scan(f, 0, count as int), scan(g, 0, total as int));
    let mut i: usize = 0;
    while i < count
        invariant
            i <= count,
            count == members@.len(),
            f == (|i: int| member_check(*input, *state, *facts, members@, i)),
            scan(f, 0, count as int) == scan(f, i as int, count as int),
            whole == and_next(scan(f, 0, count as int), scan(g, 0, total as int)),
            whole == members_check(*input, *state, *facts),
        decreases count - i,
    {
        let c = check_member(input, state, facts, members, i);
        match c {
            Check::Pass => {},
            other => {
                return other;
            },
        }
        i += 1;
    }
    let mut k: usize = 0;
    while k < total
        invariant
            k <= total,
            total == state.member_lockfile_hashes.keys().len(),
            g == (|i: int| removed_check(*input, *state, members@, i)),
            scan(g, 0, total as int) == scan(g, k as int, total as int),
            scan(g, 0, total as int) == members_check(*input, *state, *facts),
        decreases total - k,
    {
        let key = state.member_lockfile_hashes.key_at(k);
        if !find_member(input, members, key) {
            return Check::Stale(concat(key, " was removed from the workspace"));
        }
        k += 1;
    }
    Check::Pass
}

/// Where a recorded manifest is.
pub open spec fn manifest_path(project: Seq<Seq<char>>, rel: Seq<char>) -> Seq<Seq<char>> {
    if rel == "."@ {
        path_joined(project, "package.json"@)
    } else {
        path_joined(project, rel)
    }
}

/// What is said of a manifest that has changed.
pub open spec fn manifest_changed(rel: Seq<char>) -> Seq<char> {
    if rel == "."@ {
        "package.json has changed"@
    } else {
        rel + " has changed"@
    }
}

/// A manifest must be the recorded one: by size and time, else by digest, else
/// in all that decides about an install.
pub open spec fn manifest_check(input: CheckInput, state: FreshnessState, facts: Facts, i: int) -> CheckView {
    let rel = state.package_json_hashes.keys()[i];
    let stored = state.package_json_hashes.values()[i]@;
    let p = manifest_path(input.project_dir@, rel);
    let metas = state.package_json_meta@;
    let shapes = state.package_json_shape_digests@;
    if !known(facts.exists, p) {
        CheckView::Ask(ProbeView::Exists(p))
    } else if !fact(facts.exists, p) {
        CheckView::Stale(rel + " is missing"@)
    } else if metas.contains_key(rel) && !known(facts.meta, p) {
        CheckView::Ask(ProbeView::Meta(p))
    } else if metas.contains_key(rel) && fact(facts.meta, p) == Some(metas[rel]) {
        CheckView::Pass
    } else if !known(facts.content, p) {
        CheckView::Ask(ProbeView::Content(p))
    } else if tagged_digest(content_or_empty(fact(facts.content, p))) == stored {
        CheckView::Pass
    } else if !shapes.contains_key(rel) {
        CheckView::Stale(manifest_changed(rel))
    } else if !known(facts.shape, p) {
        CheckView::Ask(ProbeView::Shape(p))
    } else {
        match fact(facts.shape, p) {
            Some(d) => if hex_text(d@) == shapes[rel]@ {
                CheckView::Pass
            } else {
                CheckView::Stale(manifest_changed(rel))
            },
            None => CheckView::Stale(manifest_changed(rel)),
        }
    }
}

/// Every recorded manifest must be the recorded one.
pub open spec fn manifests_check(input: CheckInput, state: FreshnessState, facts: Facts) -> CheckView {
    scan(
        |i: int| manifest_check(input, state, facts, i),
        0,
        state.package_json_hashes.keys().len() as int,
    )
}

fn changed_manifest(rel: &str) -> (r: String)
    ensures
        r@ == manifest_changed(rel@),
{
    if same_text(rel, ".") {
        "package.json has changed".to_owned()
    } else {
        concat(rel, " has changed")
    }
}

/// Where a recorded manifest is.
pub fn manifest_file(project_dir: &FsPath, rel: &str) -> (r: FsPath)
    ensures
        r@ == manifest_path(project_dir@, rel@),
{
    if same_text(rel, ".") {
        project_dir.join("package.json")
    } else {
        project_dir.join(rel)
    }
}

fn check_manifest(input: &CheckInput, state: &FreshnessState, facts: &Facts, i: usize) -> (r: Check)
    requires
        i < state.package_json_hashes.keys().len(),
    ensures
        r@ == manifest_check(*input, *state, *facts, i as int),
{
    let rel = state.package_json_hashes.key_at(i);
    let stored = state.package_json_hashes.value_at(i);
    let p = manifest_file(&input.project_dir, rel);
    match look(&facts.exists, &p) {
        None => {
            return Check::Ask(Probe::Exists(p));
        },
        Some(there) => {
            if !*there {
                return Check::Stale(concat(rel, " is missing"));
            }
        },
    }
    if let Some(stored_meta) = state.package_json_meta.get(rel) {
        match look(&facts.meta, &p) {
            None => {
                return Check::Ask(Probe::Meta(p));
            },
            Some(m) => {
                if same_meta(&Some(*stored_meta), m) {
                    return Check::Pass;
                }
            },
        }
    }
    match look(&facts.content, &p) {
        None => {
            return Check::Ask(Probe::Content(p));
        },
        Some(content) => {
            let hash = hash_file(content);
            if same_text(hash.as_str(), stored.as_str()) {
                return Check::Pass;
            }
        },
    }
    let stored_shape = match state.package_json_shape_digests.get(rel) {
        None => {
            return Check::Stale(changed_manifest(rel));
        },
        Some(s) => s,
    };
    match look(&facts.shape, &p) {
        None => Check::Ask(Probe::Shape(p)),
        Some(None) => Check::Stale(changed_manifest(rel)),
        Some(Some(d)) => {
            let shape = hex_encode(d.as_slice());
            if same_text(shape.as_str(), stored_shape.as_str()) {
                Check::Pass
            } else {
                Check::Stale(changed_manifest(rel))
            }
        },
    }
}

/// Whether the manifests are the recorded ones.
pub fn package_jsons_stale(input: &CheckInput, state: &FreshnessState, facts: &Facts) -> (r: Check)
    ensures
        r@ == manifests_check(*input, *state, *facts),
{
    let ghost f = |i: int| manifest_check(*input, *state, *facts, i);
    let total = state.package_json_hashes.len();
    let mut i: usize = 0;
    while i < total
        invariant
            i <= total,
            total == state.package_json_hashes.keys().len(),
            f == (|i: int| manifest_check(*input, *state, *facts, i)),
            manifests_check(*input, *state, *facts) == scan(f, i as int, total as int),
        decreases total - i,
    {
        let c = check_manifest(input, state, facts, i);
        match c {
            Check::Pass => {},
            other => {
                return other;
            },
        }
        i += 1;
    }
    Check::Pass
}

} // verus!
