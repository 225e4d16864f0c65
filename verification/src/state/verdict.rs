//! Whether an install is needed.
use crate::fs_path::{path_joined, FsPath};
use crate::state::facts::{fact, known, look, Facts, Probe, ProbeView};
use crate::state::freshness::{
    and_next, check_lockfile, check_modules, lockfile_check, manifests_check, member_lockfiles_stale, members_check,
    modules_check, package_jsons_stale, scan, Check, CheckInput, CheckView, Lock, LockView,
};
use crate::state::layout_check::{layout_check, verify_install_layout};
use crate::state::model::{FileMeta, FreshnessState, InstallLayoutState, LocalDirectoryFingerprint};
use crate::str_map::{text_map, StrMap};
use crate::text::{concat3, same_text};
use vstd::prelude::*;

verus! {

/// What in the recorded state is recorded anew when nothing else has changed.
#[derive(Debug)]
pub struct Refresh {
    pub lockfile_meta: Option<FileMeta>,
    /// The metadata fingerprints of local directories.
    pub dir_metadata: StrMap<String>,
}

/// Whether an install is needed.
#[derive(Debug)]
pub enum Verdict {
    /// More has to be known first.
    Ask(Probe),
    /// An install is needed, for this reason.
    Stale(String),
    /// No install is needed.
    Fresh(Refresh),
}

/// Whether an install is needed.
pub enum VerdictView {
    Ask(ProbeView),
    Stale(Seq<char>),
    Fresh(Option<FileMeta>, Map<Seq<char>, Seq<char>>),
}

impl View for Verdict {
    type V = VerdictView;

    open spec fn view(&self) -> VerdictView {
        match self {
            Verdict::Ask(p) => VerdictView::Ask(p@),
            Verdict::Stale(s) => VerdictView::Stale(s@),
            Verdict::Fresh(r) => VerdictView::Fresh(r.lockfile_meta, text_map(r.dir_metadata)),
        }
    }
}

/// A local directory must be as it was: by the metadata of its files, or else
/// by their contents.
pub open spec fn directory_check(
    project: Seq<Seq<char>>,
    dirs: StrMap<LocalDirectoryFingerprint>,
    facts: Facts,
    i: int,
) -> CheckView {
    let rel = dirs.keys()[i];
    let stored = dirs.values()[i];
    let p = path_joined(project, rel);
    if !known(facts.dir_metadata, p) {
        CheckView::Ask(ProbeView::DirMetadata(p))
    } else if fact(facts.dir_metadata, p) is None {
        CheckView::Stale("local dependency "@ + rel + " is unreadable"@)
    } else if fact(facts.dir_metadata, p)->0@ == stored.metadata_hash@ {
        CheckView::Pass
    } else if !known(facts.dir_content, p) {
        CheckView::Ask(ProbeView::DirContent(p))
    } else {
        match fact(facts.dir_content, p) {
            None => CheckView::Stale("local dependency "@ + rel + " is unreadable"@),
            Some(c) => if c@ == stored.content_hash@ {
                CheckView::Pass
            } else {
                CheckView::Stale("local dependency "@ + rel + " has changed"@)
            },
        }
    }
}

/// The local directories must be as they were.
pub open spec fn directories_check(
    project: Seq<Seq<char>>,
    dirs: Option<StrMap<LocalDirectoryFingerprint>>,
    facts: Facts,
) -> CheckView {
    match dirs {
        None => CheckView::Stale("local dependency fingerprints not recorded"@),
        Some(d) => scan(|i: int| directory_check(project, d, facts, i), 0, d.keys().len() as int),
    }
}

/// The directory's files have other metadata than was recorded.
pub open spec fn metadata_moved(
    project: Seq<Seq<char>>,
    dirs: StrMap<LocalDirectoryFingerprint>,
    facts: Facts,
    rel: Seq<char>,
) -> bool {
    let p = path_joined(project, rel);
    &&& dirs@.contains_key(rel)
    &&& known(facts.dir_metadata, p)
    &&& fact(facts.dir_metadata, p) matches Some(m) && m@ != dirs@[rel].metadata_hash@
}

/// The metadata fingerprints to record anew.
pub open spec fn moved_metadata(
    project: Seq<Seq<char>>,
    dirs: StrMap<LocalDirectoryFingerprint>,
    facts: Facts,
) -> Map<Seq<char>, Seq<char>> {
    Map::new(
        |rel: Seq<char>| metadata_moved(project, dirs, facts, rel),
        |rel: Seq<char>| fact(facts.dir_metadata, path_joined(project, rel))->0@,
    )
}

/// The settings must be those of the last install, where they are compared.
pub open spec fn settings_check(state: FreshnessState, facts: Facts, with_settings: bool) -> CheckView {
    if !with_settings {
        CheckView::Pass
    } else {
        match facts.settings_hash {
            None => CheckView::Ask(ProbeView::Settings),
            Some(h) => if h@ == state.settings_hash@ {
                CheckView::Pass
            } else {
                CheckView::Stale(".npmrc or workspace config has changed"@)
            },
        }
    }
}

/// The last install must not have left out dependency sections.
pub open spec fn sections_check(state: FreshnessState) -> CheckView {
    if state.section_filtered {
        CheckView::Stale("previous install omitted dependency sections; auto-installing full graph"@)
    } else {
        CheckView::Pass
    }
}

/// The installed tree must look as it was recorded, where it was.
pub open spec fn tree_check(project: Seq<Seq<char>>, layout: Option<InstallLayoutState>, facts: Facts) -> CheckView {
    match layout {
        None => CheckView::Pass,
        Some(l) => layout_check(project, l, facts),
    }
}

/// The checks after that of the root lockfile.
pub open spec fn later_checks(
    input: CheckInput,
    state: FreshnessState,
    facts: Facts,
    with_settings: bool,
    no_lockfile: bool,
) -> CheckView {
    let project = input.project_dir@;
    and_next(
        if state.member_lockfile_hashes.keys().len() > 0 {
            members_check(input, state, facts)
        } else {
            CheckView::Pass
        },
        and_next(
            manifests_check(input, state, facts),
            and_next(
                sections_check(state),
                and_next(
                    tree_check(project, state.layout, facts),
                    and_next(
                        settings_check(state, facts, with_settings),
                        and_next(
                            if no_lockfile {
                                CheckView::Stale("no lockfile found"@)
                            } else {
                                CheckView::Pass
                            },
                            directories_check(project, state.local_directory_hashes, facts),
                        ),
                    ),
                ),
            ),
        ),
    )
}

/// Neither the root nor the members have a lockfile.
pub open spec fn no_lockfile(state: FreshnessState, lock: LockView) -> bool {
    lock is Absent && state.member_lockfile_hashes.keys().len() == 0
}

/// The snapshot of the root lockfile to record anew.
pub open spec fn new_meta(lock: LockView) -> Option<FileMeta> {
    match lock {
        LockView::Current(m) => m,
        _ => None,
    }
}

/// Whether an install is needed, as far as the facts tell.
pub open spec fn verdict(
    input: CheckInput,
    state: Option<FreshnessState>,
    facts: Facts,
    with_settings: bool,
) -> VerdictView {
    match state {
        None => VerdictView::Stale("install state not found"@),
        Some(s) => match modules_check(input, facts) {
            CheckView::Ask(p) => VerdictView::Ask(p),
            CheckView::Stale(r) => VerdictView::Stale(r),
            CheckView::Pass => match lockfile_check(input, s, facts) {
                LockView::Ask(p) => VerdictView::Ask(p),
                LockView::Stale(r) => VerdictView::Stale(r),
                lock => match later_checks(input, s, facts, with_settings, no_lockfile(s, lock)) {
                    CheckView::Ask(p) => VerdictView::Ask(p),
                    CheckView::Stale(r) => VerdictView::Stale(r),
                    CheckView::Pass => VerdictView::Fresh(
                        new_meta(lock),
                        moved_metadata(input.project_dir@, s.local_directory_hashes->0, facts),
                    ),
                },
            },
        },
    }
}

fn check_directory(
    project_dir: &FsPath,
    dirs: &StrMap<LocalDirectoryFingerprint>,
    facts: &Facts,
    i: usize,
) -> (r: Check)
    requires
        i < dirs.keys().len(),
    ensures
        r@ == directory_check(project_dir@, *dirs, *facts, i as int),
{
    let rel = dirs.key_at(i);
    let stored = dirs.value_at(i);
    let p = project_dir.join(rel);
    match look(&facts.dir_metadata, &p) {
        None => {
            return Check::Ask(Probe::DirMetadata(p));
        },
        Some(None) => {
            return Check::Stale(concat3("local dependency ", rel, " is unreadable"));
        },
        Some(Some(m)) => {
            if same_text(m.as_str(), stored.metadata_hash.as_str()) {
                return Check::Pass;
            }
        },
    }
    match look(&facts.dir_content, &p) {
        None => Check::Ask(Probe::DirContent(p)),
        Some(None) => Check::Stale(concat3("local dependency ", rel, " is unreadable")),
        Some(Some(c)) => if same_text(c.as_str(), stored.content_hash.as_str()) {
            Check::Pass
        } else {
            Check::Stale(concat3("local dependency ", rel, " has changed"))
        },
    }
}

fn check_directories(
    project_dir: &FsPath,
    dirs: &Option<StrMap<LocalDirectoryFingerprint>>,
    facts: &Facts,
) -> (r: Check)
    ensures
        r@ == directories_check(project_dir@, *dirs, *facts),
{
    let recorded = match dirs {
        None => {
            return Check::Stale("local dependency fingerprints not recorded".to_owned());
        },
        Some(d) => d,
    };
    let ghost f = |i: int| directory_check(project_dir@, *recorded, *facts, i);
    let total = recorded.len();
    let mut i: usize = 0;
    while i < total
        invariant
            i <= total,
            *dirs == Some(*recorded),
            total == recorded.keys().len(),
            f == (|i: int| directory_check(project_dir@, *recorded, *facts, i)),
            directories_check(project_dir@, *dirs, *facts) == scan(f, i as int, total as int),
        decreases total - i,
    {
        let c = check_directory(project_dir, recorded, facts, i);
        match c {
            Check::Pass => {},
            other => {
                return other;
            },
        }
        i += 1;
    }
    Check::Pass
}

/// The metadata fingerprints to record anew.
fn collect_moved(project_dir: &FsPath, dirs: &StrMap<LocalDirectoryFingerprint>, facts: &Facts) -> (r: StrMap<String>)
    ensures
        text_map(r) == moved_metadata(project_dir@, *dirs, *facts),
{
    let mut out: StrMap<String> = StrMap::new();
    let total = dirs.len();
    let ghost all = moved_metadata(project_dir@, *dirs, *facts);
    let mut i: usize = 0;
    while i < total
        invariant
            i <= total,
            total == dirs.keys().len(),
            dirs.wf(),
            all == moved_metadata(project_dir@, *dirs, *facts),
            forall|k: Seq<char>| #[trigger]
                text_map(out).contains_key(k) <==> all.contains_key(k) && dirs.keys().take(i as int).contains(k),
            forall|k: Seq<char>| #[trigger] text_map(out).contains_key(k) ==> text_map(out)[k] == all[k],
        decreases total - i,
    {
        let rel = dirs.key_at(i);
        let stored = dirs.value_at(i);
        let p = project_dir.join(rel);
        let ghost was = text_map(out);
        let ghost mut moved = false;
        if let Some(Some(m)) = look(&facts.dir_metadata, &p) {
            if !same_text(m.as_str(), stored.metadata_hash.as_str()) {
                out.insert(rel.to_owned(), m.clone());
                proof {
                    moved = true;
                    assert(text_map(out) =~= was.insert(rel@, m@));
                }
            }
        }
        proof {
            let (a, b) = (dirs.keys().take(i as int), dirs.keys().take(i + 1));
            assert(b =~= a.push(rel@));
            assert(moved == all.contains_key(rel@));
            assert forall|k: Seq<char>| #[trigger]
                text_map(out).contains_key(k) <==> all.contains_key(k) && b.contains(k) by {
                if a.contains(k) {
                    let j = choose|j: int| 0 <= j < a.len() && a[j] == k;
                    assert(b[j] == k);
                }
                if k == rel@ {
                    assert(b[i as int] == k);
                } else if b.contains(k) {
                    let j = choose|j: int| 0 <= j < b.len() && b[j] == k;
                    assert(a[j] == k);
                }
            }
        }
        i += 1;
    }
    proof {
        assert(dirs.keys().take(i as int) =~= dirs.keys());
        assert(text_map(out) =~= all);
    }
    out
}

fn check_later(
    input: &CheckInput,
    state: &FreshnessState,
    facts: &Facts,
    with_settings: bool,
    no_lockfile: bool,
) -> (r: Check)
    ensures
        r@ == later_checks(*input, *state, *facts, with_settings, no_lockfile),
{
    if state.member_lockfile_hashes.len() > 0 {
        let c = member_lockfiles_stale(input, state, facts);
        match c {
            Check::Pass => {},
            other => {
                return other;
            },
        }
    }
    let c = package_jsons_stale(input, state, facts);
    match c {
        Check::Pass => {},
        other => {
            return other;
        },
    }
    if state.section_filtered {
        return Check::Stale(
            "previous install omitted dependency sections; auto-installing full graph".to_owned(),
        );
    }
    let c = verify_install_layout(&input.project_dir, state.layout.as_ref(), facts);
    match c {
        Check::Pass => {},
        other => {
            return other;
        },
    }
    if with_settings {
        match &facts.settings_hash {
            None => {
                return Check::Ask(Probe::Settings);
            },
            Some(h) => {
                if !same_text(h.as_str(), state.settings_hash.as_str()) {
                    return Check::Stale(".npmrc or workspace config has changed".to_owned());
                }
            },
        }
    }
    if no_lockfile {
        return Check::Stale("no lockfile found".to_owned());
    }
    check_directories(&input.project_dir, &state.local_directory_hashes, facts)
}

/// Whether an install is needed, as far as the facts tell; the settings are
/// compared where `with_settings` is set.
pub fn check_needs_install_compute(
    input: &CheckInput,
    state: Option<&FreshnessState>,
    facts: &Facts,
    with_settings: bool,
) -> (r: Verdict)
    ensures
        r@ == verdict(
            *input,
            match state {
                Some(s) => Some(*s),
                None => None,
            },
            *facts,
            with_settings,
        ),
{
    let recorded = match state {
        None => {
            return Verdict::Stale("install state not found".to_owned());
        },
        Some(s) => s,
    };
    match check_modules(input, facts) {
        Check::Ask(p) => {
            return Verdict::Ask(p);
        },
        Check::Stale(r) => {
            return Verdict::Stale(r);
        },
        Check::Pass => {},
    }
    let (absent, meta) = match check_lockfile(input, recorded, facts) {
        Lock::Ask(p) => {
            return Verdict::Ask(p);
        },
        Lock::Stale(r) => {
            return Verdict::Stale(r);
        },
        Lock::Current(m) => (false, m),
        Lock::Absent => (true, None),
    };
    let missing = absent && recorded.member_lockfile_hashes.len() == 0;
    match check_later(input, recorded, facts, with_settings, missing) {
        Check::Ask(p) => Verdict::Ask(p),
        Check::Stale(r) => Verdict::Stale(r),
        Check::Pass => {
            let dir_metadata = match &recorded.local_directory_hashes {
                Some(dirs) => collect_moved(&input.project_dir, dirs, facts),
                None => StrMap::new(),
            };
            Verdict::Fresh(Refresh { lockfile_meta: meta, dir_metadata })
        },
    }
}

/// Whether an install is needed before something that is installed is run.
/// The settings are left alone: the tree is still that of the last install.
pub fn check_needs_install(input: &CheckInput, state: Option<&FreshnessState>, facts: &Facts) -> (r: Verdict)
    ensures
        r@ == verdict(
            *input,
            match state {
                Some(s) => Some(*s),
                None => None,
            },
            *facts,
            false,
        ),
{
    check_needs_install_compute(input, state, facts, false)
}

/// Whether an install has anything to do. The settings, with what the command
/// line says of them, must be those of the last install.
pub fn check_needs_install_with_flags(
    input: &CheckInput,
    state: Option<&FreshnessState>,
    facts: &Facts,
) -> (r: Verdict)
    ensures
        r@ == verdict(
            *input,
            match state {
                Some(s) => Some(*s),
                None => None,
            },
            *facts,
            true,
        ),
{
    check_needs_install_compute(input, state, facts, true)
}

/// The fingerprints with other metadata, and the same otherwise.
pub open spec fn dirs_refreshed(
    d: StrMap<LocalDirectoryFingerprint>,
    moved: Map<Seq<char>, Seq<char>>,
    d2: StrMap<LocalDirectoryFingerprint>,
) -> bool {
    &&& d2.wf()
    &&& d2.keys() == d.keys()
    &&& forall|i: int|
        0 <= i < d.keys().len() ==> {
            &&& (#[trigger] d2.values()[i]).content_hash@ == d.values()[i].content_hash@
            &&& d2.values()[i].metadata_hash@ == if moved.contains_key(d.keys()[i]) {
                moved[d.keys()[i]]
            } else {
                d.values()[i].metadata_hash@
            }
        }
}

/// The state with what has moved recorded anew, and the same otherwise.
pub open spec fn state_refreshed(
    s: FreshnessState,
    meta: Option<FileMeta>,
    moved: Map<Seq<char>, Seq<char>>,
    s2: FreshnessState,
) -> bool {
    &&& s2 == (FreshnessState {
        lockfile_meta: if meta is Some {
            meta
        } else {
            s.lockfile_meta
        },
        local_directory_hashes: s2.local_directory_hashes,
        ..s
    })
    &&& match s.local_directory_hashes {
        None => s2.local_directory_hashes is None,
        Some(d) => s2.local_directory_hashes is Some && dirs_refreshed(d, moved, s2.local_directory_hashes->0),
    }
}

/// The fingerprints with other metadata.
fn refresh_dirs(d: StrMap<LocalDirectoryFingerprint>, moved: &StrMap<String>) -> (r: StrMap<LocalDirectoryFingerprint>)
    requires
        forall|k: Seq<char>| #[trigger] moved@.contains_key(k) ==> d@.contains_key(k),
    ensures
        dirs_refreshed(d, text_map(*moved), r),
{
    let mut out = d;
    let total = moved.len();
    let count = out.len();
    let ghost first = d;
    let mut i: usize = 0;
    while i < total
        invariant
            i <= total,
            total == moved.keys().len(),
            moved.wf(),
            first.wf(),
            out.wf(),
            first == d,
            forall|k: Seq<char>| #[trigger] moved@.contains_key(k) ==> d@.contains_key(k),
            out@.dom() == d@.dom(),
            forall|k: Seq<char>| #[trigger]
                out@.contains_key(k) ==> {
                    &&& out@[k].content_hash@ == d@[k].content_hash@
                    &&& out@[k].metadata_hash@ == if moved.keys().take(i as int).contains(k) {
                        moved@[k]@
                    } else {
                        d@[k].metadata_hash@
                    }
                },
        decreases total - i,
    {
        let key = moved.key_at(i);
        let value = moved.value_at(i);
        let ghost was = out@;
        let content = match out.get(key) {
            Some(f) => f.content_hash.clone(),
            None => String::new(),
        };
        out.insert(key.to_owned(), LocalDirectoryFingerprint { content_hash: content, metadata_hash: value.clone() });
        proof {
            let (a, b) = (moved.keys().take(i as int), moved.keys().take(i + 1));
            assert(b =~= a.push(key@));
            assert(out@.dom() =~= d@.dom());
            assert forall|k: Seq<char>| #[trigger] out@.contains_key(k) implies {
                &&& out@[k].content_hash@ == d@[k].content_hash@
                &&& out@[k].metadata_hash@ == if b.contains(k) {
                    moved@[k]@
                } else {
                    d@[k].metadata_hash@
                }
            } by {
                if k == key@ {
                    assert(b[i as int] == k);
                } else {
                    assert(was.contains_key(k));
                    if a.contains(k) {
                        let j = choose|j: int| 0 <= j < a.len() && a[j] == k;
                        assert(b[j] == k);
                    }
                    if b.contains(k) {
                        let j = choose|j: int| 0 <= j < b.len() && b[j] == k;
                        assert(a[j] == k);
                    }
                }
            }
        }
        i += 1;
    }
    proof {
        assert(moved.keys().take(i as int) =~= moved.keys());
        assert forall|k: Seq<char>| out.keys().contains(k) <==> d.keys().contains(k) by {
            assert(out@.dom().contains(k) == d@.dom().contains(k));
        }
        crate::str_map::lemma_increasing_unique(out.keys(), d.keys());
        assert forall|j: int| 0 <= j < d.keys().len() implies {
            &&& (#[trigger] out.values()[j]).content_hash@ == d.values()[j].content_hash@
            &&& out.values()[j].metadata_hash@ == if text_map(*moved).contains_key(d.keys()[j]) {
                text_map(*moved)[d.keys()[j]]
            } else {
                d.values()[j].metadata_hash@
            }
        } by {
            crate::str_map::lemma_entry(out, j);
            crate::str_map::lemma_entry(d, j);
            let k = d.keys()[j];
            assert(out@.contains_key(k));
            assert(moved@.contains_key(k) == moved.keys().contains(k));
        }
    }
    out
}

impl FreshnessState {
    /// Record anew what has moved.
    pub fn refresh(self, refresh: &Refresh) -> (r: FreshnessState)
        requires
            forall|k: Seq<char>| #[trigger]
                refresh.dir_metadata@.contains_key(k) ==> self.local_directory_hashes is Some
                    && self.local_directory_hashes->0@.contains_key(k),
        ensures
            state_refreshed(self, refresh.lockfile_meta, text_map(refresh.dir_metadata), r),
    {
        let mut next = self;
        if refresh.lockfile_meta.is_some() {
            next.lockfile_meta = refresh.lockfile_meta;
        }
        next.local_directory_hashes = match next.local_directory_hashes {
            Some(d) => Some(refresh_dirs(d, &refresh.dir_metadata)),
            None => None,
        };
        next
    }
}

impl Refresh {
    /// Whether anything has moved, so that the state is to be written.
    pub fn is_needed(&self) -> (r: bool)
        ensures
            r == (self.lockfile_meta is Some || text_map(self.dir_metadata) != Map::<Seq<char>, Seq<char>>::empty()),
    {
        let n = self.dir_metadata.len();
        proof {
            if n > 0 {
                crate::str_map::lemma_entry(self.dir_metadata, 0);
                assert(text_map(self.dir_metadata).contains_key(self.dir_metadata.keys()[0]));
            } else {
                assert(text_map(self.dir_metadata) =~= Map::<Seq<char>, Seq<char>>::empty());
            }
        }
        self.lockfile_meta.is_some() || n > 0
    }
}

} // verus!
