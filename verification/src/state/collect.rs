//! Gathering what an install records, from what is found on disk.
use crate::digest::{blake3_hex, digest_hex, push_text};
use crate::fs_path::{path_joined, FsPath};
use crate::graph::{LocalSource, LockedPackage, LockfileGraph};
use crate::hoisted::materialize::link_source;
use crate::relative::{relative_path_or_original, relative_text};
use crate::state::model::{FileMeta, InstallLicenseState, LocalDirectoryFingerprint};
use crate::state::snapshot::{recorded_digest, FileSnapshot};
use crate::str_map::{lemma_all_keys, lemma_first_keys, text_map, StrMap};
use crate::text::{opt_text, replace_char, same_text, with_replaced};
use vstd::prelude::*;
use vstd::utf8::encode_utf8;

verus! {

/// A number as `n` bytes, the low ones first.
pub open spec fn le_bytes(value: nat, n: nat) -> Seq<u8>
    decreases n,
{
    if n == 0 {
        Seq::empty()
    } else {
        seq![(value % 256) as u8] + le_bytes(value / 256, (n - 1) as nat)
    }
}

/// Add a number as eight bytes, the low ones first.
fn push_u64(out: &mut Vec<u8>, value: u64)
    ensures
        final(out)@ == old(out)@ + le_bytes(value as nat, 8),
{
    let ghost was = out@;
    let mut rest: u64 = value;
    let mut i: usize = 0;
    proof {
        assert(was + (Seq::<u8>::empty() + le_bytes(value as nat, 8)) =~= was + le_bytes(value as nat, 8));
        assert(out@ + le_bytes(rest as nat, 8) =~= was + le_bytes(value as nat, 8));
    }
    while i < 8
        invariant
            i <= 8,
            out@ + le_bytes(rest as nat, (8 - i) as nat) == was + le_bytes(value as nat, 8),
        decreases 8 - i,
    {
        let ghost prior = out@;
        let ghost v = rest as nat;
        out.push((rest % 256) as u8);
        rest = rest / 256;
        proof {
            let n = (8 - i) as nat;
            assert(le_bytes(v, n) == seq![(v % 256) as u8] + le_bytes(v / 256, (n - 1) as nat));
            assert(out@ + le_bytes(rest as nat, (n - 1) as nat) =~= prior + le_bytes(v, n));
        }
        i += 1;
    }
    proof {
        assert(out@ + le_bytes(rest as nat, 0) =~= out@);
    }
}

/// The first `n` packages with their digests. The length of each key stands in
/// front of it.
pub open spec fn license_entries(hashes: StrMap<String>, n: int) -> Seq<u8>
    decreases n,
{
    if n <= 0 {
        Seq::empty()
    } else {
        let key = encode_utf8(hashes.keys()[n - 1]);
        license_entries(hashes, n - 1) + le_bytes(key.len(), 8) + key + encode_utf8(hashes.values()[n - 1]@)
    }
}

/// The byte string that the fingerprint of the licenses is taken of.
pub open spec fn license_message(graph_lthash: Seq<char>, hashes: StrMap<String>) -> Seq<u8> {
    encode_utf8(graph_lthash) + license_entries(hashes, hashes.keys().len() as int)
}

/// The fingerprint of the packages that licenses are recorded for.
pub fn license_state_fingerprint(graph_lthash: &str, package_content_hashes: &StrMap<String>) -> (r: String)
    ensures
        r@ == blake3_hex(license_message(graph_lthash@, *package_content_hashes)),
{
    let mut out: Vec<u8> = Vec::new();
    push_text(&mut out, graph_lthash);
    let ghost head = out@;
    let total = package_content_hashes.len();
    let mut i: usize = 0;
    proof {
        assert(head =~= encode_utf8(graph_lthash@));
        assert(head + license_entries(*package_content_hashes, 0) =~= head);
    }
    while i < total
        invariant
            i <= total,
            total == package_content_hashes.keys().len(),
            out@ == head + license_entries(*package_content_hashes, i as int),
        decreases total - i,
    {
        let key = package_content_hashes.key_at(i);
        let value = package_content_hashes.value_at(i);
        let ghost was = out@;
        push_u64(&mut out, key.as_bytes().len() as u64);
        push_text(&mut out, key);
        push_text(&mut out, value.as_str());
        i += 1;
        proof {
            assert(out@ =~= head + license_entries(*package_content_hashes, i as int));
        }
    }
    digest_hex(out.as_slice())
}

/// The license of a package: what its files say, or else what the graph says.
pub open spec fn license_of(pkg: LockedPackage, read: StrMap<String>, dep_path: Seq<char>) -> Option<Seq<char>> {
    if read@.contains_key(dep_path) {
        Some(read@[dep_path]@)
    } else {
        opt_text(pkg.license)
    }
}

/// The licenses of the packages.
pub open spec fn all_licenses(graph: LockfileGraph, read: StrMap<String>) -> Map<Seq<char>, Seq<char>> {
    Map::new(
        |k: Seq<char>| graph.packages@.contains_key(k) && license_of(graph.packages@[k], read, k) is Some,
        |k: Seq<char>| license_of(graph.packages@[k], read, k)->0,
    )
}

/// Where the live links lead.
pub open spec fn all_linked_dirs(project: Seq<Seq<char>>, graph: LockfileGraph) -> Map<Seq<char>, Seq<char>> {
    Map::new(
        |k: Seq<char>| graph.packages@.contains_key(k) && graph.packages@[k].is_link(),
        |k: Seq<char>| relative_text(path_joined(project, link_source(graph.packages@[k])), project),
    )
}

/// The licenses of the installed packages. `read` holds those that the
/// packages' own files give.
pub fn collect_package_license_state(
    project_dir: &FsPath,
    graph: &LockfileGraph,
    read: &StrMap<String>,
    fingerprint: String,
) -> (r: InstallLicenseState)
    ensures
        r.fingerprint@ == fingerprint@,
        text_map(r.licenses) == all_licenses(*graph, *read),
        text_map(r.linked_package_dirs) == all_linked_dirs(project_dir@, *graph),
{
    let ghost all = all_licenses(*graph, *read);
    let ghost dirs = all_linked_dirs(project_dir@, *graph);
    let mut licenses: StrMap<String> = StrMap::new();
    let mut linked: StrMap<String> = StrMap::new();
    let total = graph.packages.len();
    let mut i: usize = 0;
    proof {
        lemma_all_keys(graph.packages);
    }
    while i < total
        invariant
            i <= total,
            total == graph.packages.keys().len(),
            all == all_licenses(*graph, *read),
            dirs == all_linked_dirs(project_dir@, *graph),
            forall|k: Seq<char>| #[trigger]
                text_map(licenses).contains_key(k) <==> all.contains_key(k) && graph.packages.keys().take(
                    i as int,
                ).contains(k),
            forall|k: Seq<char>| #[trigger] text_map(licenses).contains_key(k) ==> text_map(licenses)[k] == all[k],
            forall|k: Seq<char>| #[trigger]
                text_map(linked).contains_key(k) <==> dirs.contains_key(k) && graph.packages.keys().take(
                    i as int,
                ).contains(k),
            forall|k: Seq<char>| #[trigger] text_map(linked).contains_key(k) ==> text_map(linked)[k] == dirs[k],
        decreases total - i,
    {
        let dep_path = graph.packages.key_at(i);
        let pkg = graph.packages.value_at(i);
        let ghost was = text_map(licenses);
        let ghost links = text_map(linked);
        if let Some(LocalSource::Link(rel)) = &pkg.local_source {
            let dir = project_dir.join(rel.as_str());
            let text = relative_path_or_original(&dir, project_dir);
            let ghost v = text@;
            linked.insert(dep_path.to_owned(), text);
            proof {
                assert(text_map(linked) =~= links.insert(dep_path@, v));
            }
        }
        let license = match read.get(dep_path) {
            Some(l) => Some(l.clone()),
            None => match &pkg.license {
                Some(l) => Some(l.clone()),
                None => None,
            },
        };
        if let Some(l) = license {
            let ghost v = l@;
            licenses.insert(dep_path.to_owned(), l);
            proof {
                assert(text_map(licenses) =~= was.insert(dep_path@, v));
            }
        }
        proof {
            lemma_first_keys(graph.packages.keys(), i as int);
        }
        i += 1;
    }
    proof {
        lemma_all_keys(graph.packages);
        assert(text_map(licenses) =~= all);
        assert(text_map(linked) =~= dirs);
    }
    InstallLicenseState { fingerprint, licenses, linked_package_dirs: linked }
}

/// Whether the recorded licenses are those of the packages that are installed.
pub fn licenses_are_current(recorded: Option<&InstallLicenseState>, fingerprint: &str) -> (r: bool)
    ensures
        r == (recorded is Some && recorded->0.fingerprint@ == fingerprint@),
{
    match recorded {
        Some(l) => same_text(l.fingerprint.as_str(), fingerprint),
        None => false,
    }
}

/// The directory that a package is copied from or lives in.
pub open spec fn local_dir(pkg: LockedPackage) -> Option<Seq<char>> {
    match pkg.local_source {
        Some(LocalSource::Directory(rel)) => Some(rel@),
        Some(LocalSource::Portal(rel)) => Some(rel@),
        _ => None,
    }
}

/// Some package is copied from the directory that is recorded under the key.
pub open spec fn has_local_dir(graph: LockfileGraph, key: Seq<char>, n: int) -> bool {
    exists|i: int|
        0 <= i < n && local_dir(#[trigger] graph.packages.values()[i]) is Some && with_replaced(
            local_dir(graph.packages.values()[i])->0,
            '\\',
            '/',
        ) == key
}

/// A local directory: the key that it is recorded under, and its path.
#[derive(Debug)]
pub struct LocalDir {
    pub key: String,
    pub rel: String,
}

/// The keys of a list of directories.
pub open spec fn dir_keys(dirs: Seq<LocalDir>) -> Seq<Seq<char>> {
    dirs.map_values(|d: LocalDir| d.key@)
}

/// The keys and paths of a list of directories.
pub open spec fn dir_views(dirs: Seq<LocalDir>) -> Seq<(Seq<char>, Seq<char>)> {
    dirs.map_values(|d: LocalDir| (d.key@, d.rel@))
}

/// One of the directories has the key.
pub open spec fn has_dir_key(dirs: Seq<(Seq<char>, Seq<char>)>, key: Seq<char>) -> bool {
    exists|i: int| 0 <= i < dirs.len() && (#[trigger] dirs[i]).0 == key
}

/// The keys and paths of the directories that the first `n` packages come from,
/// in the order of the packages. Of several packages with the same key the first
/// gives the path.
pub open spec fn first_dirs(graph: LockfileGraph, n: int) -> Seq<(Seq<char>, Seq<char>)>
    decreases n,
{
    if n <= 0 {
        Seq::empty()
    } else {
        let rest = first_dirs(graph, n - 1);
        match local_dir(graph.packages.values()[n - 1]) {
            Some(rel) if !has_dir_key(rest, with_replaced(rel, '\\', '/')) => rest.push(
                (with_replaced(rel, '\\', '/'), rel),
            ),
            _ => rest,
        }
    }
}

/// The local directories that packages are copied from, each once, in the
/// order of the packages.
pub fn local_directories(graph: &LockfileGraph) -> (r: Vec<LocalDir>)
    ensures
        dir_views(r@) == first_dirs(*graph, graph.packages.keys().len() as int),
        dir_keys(r@).no_duplicates(),
        forall|k: Seq<char>| #[trigger]
            dir_keys(r@).contains(k) <==> has_local_dir(*graph, k, graph.packages.keys().len() as int),
        forall|i: int|
            0 <= i < r@.len() ==> (#[trigger] r@[i]).key@ == with_replaced(r@[i].rel@, '\\', '/'),
{
    let mut out: Vec<LocalDir> = Vec::new();
    let total = graph.packages.len();
    let mut i: usize = 0;
    while i < total
        invariant
            i <= total,
            total == graph.packages.keys().len(),
            dir_views(out@) == first_dirs(*graph, i as int),
            dir_keys(out@).no_duplicates(),
            forall|k: Seq<char>| #[trigger] dir_keys(out@).contains(k) <==> has_local_dir(*graph, k, i as int),
            forall|j: int|
                0 <= j < out@.len() ==> (#[trigger] out@[j]).key@ == with_replaced(out@[j].rel@, '\\', '/'),
        decreases total - i,
    {
        let pkg = graph.packages.value_at(i);
        let rel = match &pkg.local_source {
            Some(LocalSource::Directory(rel)) => Some(rel),
            Some(LocalSource::Portal(rel)) => Some(rel),
            _ => None,
        };
        let ghost was = out@;
        match rel {
            None => {
                proof {
                    assert forall|k: Seq<char>| has_local_dir(*graph, k, i + 1) <==> has_local_dir(
                        *graph,
                        k,
                        i as int,
                    ) by {}
                }
            },
            Some(rel) => {
                let key = replace_char(rel.as_str(), '\\', '/');
                let ghost v = key@;
                proof {
                    assert(local_dir(graph.packages.values()[i as int]) == Some(rel@));
                    assert forall|k: Seq<char>| #[trigger] has_local_dir(*graph, k, i + 1) <==> has_local_dir(
                        *graph,
                        k,
                        i as int,
                    ) || k == v by {
                        if has_local_dir(*graph, k, i as int) {
                            let j = choose|j: int|
                                0 <= j < i && local_dir(#[trigger] graph.packages.values()[j]) is Some
                                    && with_replaced(local_dir(graph.packages.values()[j])->0, '\\', '/') == k;
                            assert(local_dir(graph.packages.values()[j]) is Some);
                        }
                    }
                }
                proof {
                    lemma_same_keys(was, v);
                }
                if !holds_key(&out, key.as_str()) {
                    out.push(LocalDir { key, rel: rel.clone() });
                    proof {
                        assert(dir_views(out@) =~= dir_views(was).push((v, rel@)));
                        let now = dir_keys(out@);
                        let prior = dir_keys(was);
                        assert(now =~= prior.push(v));
                        assert forall|k: Seq<char>| #[trigger] now.contains(k) <==> prior.contains(k) || k == v by {
                            if prior.contains(k) {
                                let j = choose|j: int| 0 <= j < prior.len() && prior[j] == k;
                                assert(now[j] == k);
                            }
                            if k == v {
                                assert(now[prior.len() as int] == k);
                            }
                            if now.contains(k) {
                                let j = choose|j: int| 0 <= j < now.len() && now[j] == k;
                                if j < prior.len() {
                                    assert(prior[j] == k);
                                }
                            }
                        }
                        assert(now.no_duplicates()) by {
                            assert forall|a: int, b: int|
                                0 <= a < now.len() && 0 <= b < now.len() && a != b implies now[a] != now[b] by {
                                if a < prior.len() && b < prior.len() {
                                    assert(prior[a] != prior[b]);
                                } else if a < prior.len() {
                                    assert(prior.contains(now[a]));
                                } else {
                                    assert(prior.contains(now[b]));
                                }
                            }
                        }
                    }
                }
            },
        }
        i += 1;
    }
    out
}

/// A key of the list is one of its keys and paths.
proof fn lemma_same_keys(dirs: Seq<LocalDir>, key: Seq<char>)
    ensures
        has_dir_key(dir_views(dirs), key) == dir_keys(dirs).contains(key),
{
    if dir_keys(dirs).contains(key) {
        let i = choose|i: int| 0 <= i < dirs.len() && dir_keys(dirs)[i] == key;
        assert(dir_views(dirs)[i].0 == key);
    }
    if has_dir_key(dir_views(dirs), key) {
        let i = choose|i: int| 0 <= i < dirs.len() && (#[trigger] dir_views(dirs)[i]).0 == key;
        assert(dir_keys(dirs)[i] == key);
    }
}

/// Whether a list of directories holds the key.
fn holds_key(dirs: &Vec<LocalDir>, key: &str) -> (r: bool)
    ensures
        r == dir_keys(dirs@).contains(key@),
{
    let mut i: usize = 0;
    while i < dirs.len()
        invariant
            i <= dirs@.len(),
            forall|j: int| 0 <= j < i ==> (#[trigger] dirs@[j]).key@ != key@,
        decreases dirs.len() - i,
    {
        if same_text(dirs[i].key.as_str(), key) {
            proof {
                assert(dir_keys(dirs@)[i as int] == key@);
            }
            return true;
        }
        i += 1;
    }
    proof {
        assert forall|j: int| 0 <= j < dir_keys(dirs@).len() implies dir_keys(dirs@)[j] != key@ by {
            assert(dir_keys(dirs@)[j] == dirs@[j].key@);
        }
    }
    false
}

/// The fingerprints of the local directories. The key of the first directory
/// whose fingerprint could not be taken is the error.
pub fn collect_local_directory_hashes(
    dirs: &Vec<LocalDir>,
    fingerprints: Vec<Option<LocalDirectoryFingerprint>>,
) -> (r: Result<StrMap<LocalDirectoryFingerprint>, String>)
    requires
        dir_keys(dirs@).no_duplicates(),
        fingerprints@.len() == dirs@.len(),
    ensures
        match r {
            Ok(m) => {
                &&& forall|i: int|
                    0 <= i < dirs@.len() ==> {
                        &&& fingerprints@[i] is Some
                        &&& m@.contains_key((#[trigger] dirs@[i]).key@)
                        &&& m@[dirs@[i].key@] == fingerprints@[i]->0
                    }
                &&& m@.dom() == dir_keys(dirs@).to_set()
            },
            Err(key) => exists|i: int|
                0 <= i < dirs@.len() && (#[trigger] dirs@[i]).key@ == key@ && fingerprints@[i] is None && forall|j:
                    int| 0 <= j < i ==> #[trigger] fingerprints@[j] is Some,
        },
{
    let ghost given = fingerprints@;
    let mut rest = fingerprints;
    let mut out: StrMap<LocalDirectoryFingerprint> = StrMap::new();
    let total = dirs.len();
    let mut i: usize = 0;
    proof {
        assert(given.skip(0) =~= given);
        assert(out@.dom() =~= dir_keys(dirs@).take(0).to_set());
    }
    while i < total
        invariant
            i <= total,
            total == dirs@.len(),
            given == fingerprints@,
            given.len() == total,
            dir_keys(dirs@).no_duplicates(),
            rest@ == given.skip(i as int),
            forall|j: int|
                0 <= j < i ==> {
                    &&& given[j] is Some
                    &&& out@.contains_key((#[trigger] dirs@[j]).key@)
                    &&& out@[dirs@[j].key@] == given[j]->0
                },
            forall|j: int| 0 <= j < i ==> #[trigger] given[j] is Some,
            out@.dom() == dir_keys(dirs@).take(i as int).to_set(),
        decreases total - i,
    {
        let ghost was = out@;
        let next = rest.remove(0);
        proof {
            assert(next == given[i as int]);
            assert(rest@ =~= given.skip(i + 1));
        }
        match next {
            None => {
                return Err(dirs[i].key.clone());
            },
            Some(f) => {
                out.insert(dirs[i].key.clone(), f);
                proof {
                    let keys = dir_keys(dirs@);
                    assert(keys[i as int] == dirs@[i as int].key@);
                    lemma_first_keys(keys, i as int);
                    assert(out@.dom() =~= keys.take(i + 1).to_set());
                    assert forall|j: int| 0 <= j < i + 1 implies {
                        &&& given[j] is Some
                        &&& out@.contains_key((#[trigger] dirs@[j]).key@)
                        &&& out@[dirs@[j].key@] == given[j]->0
                    } by {
                        if j < i {
                            assert(keys[j] == dirs@[j].key@);
                            assert(keys[j] != keys[i as int]);
                        }
                    }
                }
            },
        }
        i += 1;
    }
    proof {
        assert(dir_keys(dirs@).take(i as int) =~= dir_keys(dirs@));
    }
    Ok(out)
}

/// The lockfile of a workspace member, where it has one.
#[derive(Debug)]
pub struct MemberLockfile {
    pub dir: FsPath,
    pub lockfile: Option<FileSnapshot>,
}

/// What a member is recorded under.
pub open spec fn member_record_key(project: Seq<Seq<char>>, m: MemberLockfile) -> Seq<char> {
    relative_text(m.dir@, project)
}

/// The digests of the first `n` members' lockfiles; empty for a member without one.
pub open spec fn member_digests(project: Seq<Seq<char>>, members: Seq<MemberLockfile>, n: int) -> Map<
    Seq<char>,
    Seq<char>,
>
    decreases n,
{
    if n <= 0 {
        Map::empty()
    } else {
        let m = members[n - 1];
        member_digests(project, members, n - 1).insert(
            member_record_key(project, m),
            match m.lockfile {
                Some(l) => recorded_digest(l@),
                None => Seq::empty(),
            },
        )
    }
}

/// The snapshots of the first `n` members' lockfiles.
pub open spec fn member_snapshots(project: Seq<Seq<char>>, members: Seq<MemberLockfile>, n: int) -> Map<
    Seq<char>,
    FileMeta,
>
    decreases n,
{
    if n <= 0 {
        Map::empty()
    } else {
        let m = members[n - 1];
        let rest = member_snapshots(project, members, n - 1);
        match m.lockfile {
            Some(l) => match l@.meta {
                Some(meta) => rest.insert(member_record_key(project, m), meta),
                None => rest,
            },
            None => rest,
        }
    }
}

/// The lockfiles of the workspace members, where each has its own. With a
/// shared lockfile, or where the members cannot be listed, there are none.
pub fn collect_member_lockfile_state(
    project_dir: &FsPath,
    shared: bool,
    members: Option<&Vec<MemberLockfile>>,
) -> (r: (StrMap<String>, StrMap<FileMeta>))
    ensures
        match members {
            Some(list) if !shared => {
                &&& text_map(r.0) == member_digests(project_dir@, list@, list@.len() as int)
                &&& r.1@ == member_snapshots(project_dir@, list@, list@.len() as int)
            },
            _ => r.0@ == Map::<Seq<char>, String>::empty() && r.1@ == Map::<Seq<char>, FileMeta>::empty(),
        },
{
    let mut hashes: StrMap<String> = StrMap::new();
    let mut metas: StrMap<FileMeta> = StrMap::new();
    if shared {
        return (hashes, metas);
    }
    let list = match members {
        None => {
            return (hashes, metas);
        },
        Some(l) => l,
    };
    let mut i: usize = 0;
    proof {
        assert(text_map(hashes) =~= Map::<Seq<char>, Seq<char>>::empty());
    }
    while i < list.len()
        invariant
            i <= list@.len(),
            text_map(hashes) == member_digests(project_dir@, list@, i as int),
            metas@ == member_snapshots(project_dir@, list@, i as int),
        decreases list.len() - i,
    {
        let member = &list[i];
        let ghost was = text_map(hashes);
        let key = relative_path_or_original(&member.dir, project_dir);
        let ghost k = key@;
        match &member.lockfile {
            Some(l) => {
                let hash = l.hash();
                let ghost v = hash@;
                hashes.insert(key.clone(), hash);
                if let Some(meta) = l.meta() {
                    metas.insert(key, meta);
                }
                proof {
                    assert(text_map(hashes) =~= was.insert(k, v));
                }
            },
            None => {
                hashes.insert(key, String::new());
                proof {
                    assert(text_map(hashes) =~= was.insert(k, Seq::<char>::empty()));
                }
            },
        }
        i += 1;
    }
    (hashes, metas)
}

/// The manifest of an importer.
pub open spec fn importer_manifest(project: Seq<Seq<char>>, rel: Seq<char>) -> Seq<Seq<char>> {
    if rel == "."@ {
        path_joined(project, "package.json"@)
    } else {
        path_joined(path_joined(project, rel), "package.json"@)
    }
}

/// What a manifest is recorded under.
pub open spec fn manifest_key(project: Seq<Seq<char>>, rel: Seq<char>) -> Seq<char> {
    if rel == "."@ {
        "."@
    } else {
        relative_text(importer_manifest(project, rel), project)
    }
}

/// The digests of the first `n` manifests that are files.
pub open spec fn manifest_digests(
    project: Seq<Seq<char>>,
    rels: Seq<String>,
    files: Seq<Option<FileSnapshot>>,
    n: int,
) -> Map<Seq<char>, Seq<char>>
    decreases n,
{
    if n <= 0 {
        Map::empty()
    } else {
        let rest = manifest_digests(project, rels, files, n - 1);
        match files[n - 1] {
            Some(f) => rest.insert(manifest_key(project, rels[n - 1]@), recorded_digest(f@)),
            None => rest,
        }
    }
}

/// The sizes and times of the first `n` manifests that are files.
pub open spec fn manifest_metas(
    project: Seq<Seq<char>>,
    rels: Seq<String>,
    files: Seq<Option<FileSnapshot>>,
    n: int,
) -> Map<Seq<char>, FileMeta>
    decreases n,
{
    if n <= 0 {
        Map::empty()
    } else {
        let rest = manifest_metas(project, rels, files, n - 1);
        match files[n - 1] {
            Some(f) => match f@.meta {
                Some(meta) => rest.insert(manifest_key(project, rels[n - 1]@), meta),
                None => rest,
            },
            None => rest,
        }
    }
}

/// The digests of the importers' manifests, and their sizes and times. A
/// manifest that is not a file is left out; `files` holds the others.
pub fn collect_package_json_hashes_from_manifests(
    project_dir: &FsPath,
    rels: &Vec<String>,
    files: &Vec<Option<FileSnapshot>>,
) -> (r: (StrMap<String>, StrMap<FileMeta>))
    requires
        files@.len() == rels@.len(),
    ensures
        text_map(r.0) == manifest_digests(project_dir@, rels@, files@, rels@.len() as int),
        r.1@ == manifest_metas(project_dir@, rels@, files@, rels@.len() as int),
{
    let mut out: StrMap<String> = StrMap::new();
    let mut metas: StrMap<FileMeta> = StrMap::new();
    let mut i: usize = 0;
    proof {
        assert(text_map(out) =~= Map::<Seq<char>, Seq<char>>::empty());
    }
    while i < rels.len()
        invariant
            i <= rels@.len(),
            files@.len() == rels@.len(),
            text_map(out) == manifest_digests(project_dir@, rels@, files@, i as int),
            metas@ == manifest_metas(project_dir@, rels@, files@, i as int),
        decreases rels.len() - i,
    {
        let ghost was = text_map(out);
        if let Some(manifest) = &files[i] {
            let rel = rels[i].as_str();
            let key = if same_text(rel, ".") {
                ".".to_owned()
            } else {
                let file = project_dir.join(rel).join("package.json");
                relative_path_or_original(&file, project_dir)
            };
            let hash = manifest.hash();
            let ghost (k, v) = (key@, hash@);
            if let Some(meta) = manifest.meta() {
                metas.insert(key.clone(), meta);
            }
            out.insert(key, hash);
            proof {
                assert(text_map(out) =~= was.insert(k, v));
            }
        }
        i += 1;
    }
    (out, metas)
}

/// What is recorded of the lockfile in use.
#[derive(Debug)]
pub struct LockfileRecord {
    pub hash: String,
    pub name: Option<String>,
    pub meta: Option<FileMeta>,
}

/// What is recorded of the lockfile in use: its digest and its name, and its
/// size and time. Of one that cannot be read only the latter, and nothing of a
/// project without one.
pub fn snapshot_active_lockfile(name: &str, file: Option<&FileSnapshot>) -> (r: LockfileRecord)
    ensures
        r.meta == (match file {
            Some(f) => f@.meta,
            None => None,
        }),
        match file {
            Some(f) if f@.digest is Some => r.hash@ == f@.digest->0 && opt_text(r.name) == Some(name@),
            _ => r.hash@ == Seq::<char>::empty() && r.name is None,
        },
{
    match file {
        None => LockfileRecord { hash: String::new(), name: None, meta: None },
        Some(f) => match f.digest() {
            Some(d) => LockfileRecord { hash: d.to_owned(), name: Some(name.to_owned()), meta: f.meta() },
            None => LockfileRecord { hash: String::new(), name: None, meta: f.meta() },
        },
    }
}

} // verus!
