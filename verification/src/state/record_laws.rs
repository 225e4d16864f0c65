//! What an install records, and under which names.
use crate::digest::{blake3_hex, hex_text};
use crate::fs_path::{path_joined, path_parent};
use crate::graph::{Importer, LocalSource, LockedPackage, LockfileGraph};
use crate::relative::relative_text;
use crate::state::collect::{
    all_licenses, all_linked_dirs, first_dirs, has_dir_key, has_local_dir, importer_manifest, le_bytes,
    license_entries, license_message, local_dir, manifest_digests, manifest_key, manifest_metas, member_digests,
    member_snapshots, MemberLockfile,
};
use crate::state::layout::{
    all_entries, all_packages, in_shared_store, layout_record, package_record, root_needs, visible_entry,
    with_store_links, StoreEntry, WriteStateLayout,
};
use crate::state::lockfile::{active_index, lockfile_names, pnpm_name};
use crate::state::model::{FileMeta, InstallState};
use crate::state::record::{manifest_snapshots, records, shape_digests, WriteStateInput};
use crate::state::snapshot::{after_answer, recorded_digest, FileSnapshot, ReadAnswer, ReadingView, SnapshotView};
use crate::str_map::{lemma_entry, lemma_key_index, text_map, StrMap};
use crate::text::{lemma_bytes_determine_text, occurs_at, with_replaced};
use crate::text_laws::{law_first_place_is_replaced, law_last_mark_parts_the_text};
use vstd::prelude::*;
use vstd::utf8::encode_utf8;

verus! {

/// The lockfile in use is the first that is there.
pub proof fn law_first_lockfile_there_is_used(exists: Seq<bool>, from: int, i: int)
    requires
        0 <= from <= exists.len(),
    ensures
        active_index(exists, from) == Some(i) <==> from <= i < exists.len() && exists[i] && forall|j: int|
            from <= j < i ==> !#[trigger] exists[j],
        active_index(exists, from) is None <==> forall|j: int| from <= j < exists.len() ==> !#[trigger] exists[j],
    decreases exists.len() - from,
{
    if from < exists.len() && !exists[from] {
        law_first_lockfile_there_is_used(exists, from + 1, i);
    }
}

/// A lockfile is looked for under the name that is preferred, then under the usual
/// one where that is another, then under pnpm's, and last under those of other
/// package managers: pnpm, bun, yarn and npm.
pub proof fn law_lockfiles_are_looked_for_in_order(basename: Seq<char>, preferred: Seq<char>)
    ensures
        ({
            let names = lockfile_names(basename, preferred);
            let n = names.len() as int;
            &&& n >= 6
            &&& names[0] == preferred
            &&& basename != preferred ==> names[1] == basename
            &&& names[n - 5] == "pnpm-lock.yaml"@
            &&& names[n - 4] == "bun.lock"@
            &&& names[n - 3] == "yarn.lock"@
            &&& names[n - 2] == "npm-shrinkwrap.json"@
            &&& names[n - 1] == "package-lock.json"@
            &&& forall|i: int|
                0 <= i < n - 5 ==> #[trigger] names[i] == preferred || names[i] == basename || names[i] == pnpm_name(
                    basename,
                    preferred,
                )
        }),
{
}

/// pnpm's name for a lockfile has `pnpm-lock` in place of the usual stem, and the
/// rest as it is, with the branch.
pub proof fn law_pnpm_name_has_its_own_stem(stem: Seq<char>, ext: Seq<char>, rest: Seq<char>)
    requires
        !ext.contains('.'),
    ensures
        pnpm_name(stem + seq!['.'] + ext, stem + seq!['.'] + rest) == "pnpm-lock."@ + rest,
{
    let basename = stem + seq!['.'] + ext;
    let preferred = stem + seq!['.'] + rest;
    reveal_strlit(".");
    assert("."@ =~= seq!['.']);
    assert(basename[stem.len() as int] == '.');
    assert(basename.contains('.'));
    law_last_mark_parts_the_text(basename, '.');
    let head = crate::text::head_before_last(basename, '.')->0;
    let tail = crate::text::tail_after_last(basename, '.')->0;
    assert(basename == head.push('.') + tail);
    assert(head.len() + 1 + tail.len() == stem.len() + 1 + ext.len());
    if head.len() < stem.len() {
        assert(basename[stem.len() as int] == tail[stem.len() - head.len() - 1]);
        assert(tail.contains('.'));
    }
    if head.len() > stem.len() {
        assert(basename[head.len() as int] == '.');
        assert(basename[head.len() as int] == ext[head.len() - stem.len() - 1]);
        assert(ext.contains('.'));
    }
    assert(head =~= basename.take(head.len() as int));
    assert(head =~= stem);
    let needle = stem + "."@;
    assert(preferred.subrange(0, needle.len() as int) =~= needle);
    assert(occurs_at(preferred, needle, 0));
    law_first_place_is_replaced(preferred, needle, "pnpm-lock."@, 0);
    assert(preferred.take(0) + "pnpm-lock."@ + preferred.skip(needle.len() as int) =~= "pnpm-lock."@ + rest);
}

/// A package's license is the one that its files give, else the one that the graph
/// has; a package with neither has none recorded.
pub proof fn law_licenses_are_read_first(graph: LockfileGraph, read: StrMap<String>, k: Seq<char>)
    ensures
        !graph.packages@.contains_key(k) ==> !all_licenses(graph, read).contains_key(k),
        graph.packages@.contains_key(k) && read@.contains_key(k) ==> all_licenses(graph, read).contains_key(k)
            && all_licenses(graph, read)[k] == read@[k]@,
        graph.packages@.contains_key(k) && !read@.contains_key(k) ==> match graph.packages@[k].license {
            Some(l) => all_licenses(graph, read).contains_key(k) && all_licenses(graph, read)[k] == l@,
            None => !all_licenses(graph, read).contains_key(k),
        },
{
}

/// Where a live link leads is recorded, relative to the project; of no other package
/// is a directory recorded.
pub proof fn law_links_are_recorded_with_their_targets(project: Seq<Seq<char>>, graph: LockfileGraph, k: Seq<char>)
    ensures
        graph.packages@.contains_key(k) ==> match graph.packages@[k].local_source {
            Some(LocalSource::Link(rel)) => all_linked_dirs(project, graph).contains_key(k) && all_linked_dirs(
                project,
                graph,
            )[k] == relative_text(path_joined(project, rel@), project),
            _ => !all_linked_dirs(project, graph).contains_key(k),
        },
        !graph.packages@.contains_key(k) ==> !all_linked_dirs(project, graph).contains_key(k),
{
}

/// What bytes with the low ones first stand for.
pub open spec fn le_value(bytes: Seq<u8>) -> nat
    decreases bytes.len(),
{
    if bytes.len() == 0 {
        0
    } else {
        bytes[0] as nat + 256 * le_value(bytes.drop_first())
    }
}

/// Two hundred and fifty-six to the power of `n`.
pub open spec fn bytes_hold(n: nat) -> nat
    decreases n,
{
    if n == 0 {
        1
    } else {
        256 * bytes_hold((n - 1) as nat)
    }
}

/// A number that fits is written in as many bytes as asked for, and can be read back.
pub proof fn law_numbers_are_written_low_byte_first(value: nat, n: nat)
    requires
        value < bytes_hold(n),
    ensures
        le_bytes(value, n).len() == n,
        le_value(le_bytes(value, n)) == value,
    decreases n,
{
    if n > 0 {
        let rest = le_bytes(value / 256, (n - 1) as nat);
        law_numbers_are_written_low_byte_first(value / 256, (n - 1) as nat);
        assert(le_bytes(value, n).drop_first() =~= rest);
        assert(le_bytes(value, n)[0] == (value % 256) as u8);
    }
}

proof fn lemma_same_tail(a: Seq<u8>, x: Seq<u8>, b: Seq<u8>, y: Seq<u8>)
    requires
        a + x == b + y,
        x.len() == y.len(),
    ensures
        a == b,
        x == y,
{
    let (p, q) = (a + x, b + y);
    assert(p.len() == a.len() + x.len());
    assert(q.len() == b.len() + y.len());
    assert(a.len() == b.len());
    assert forall|i: int| 0 <= i < a.len() implies a[i] == b[i] by {
        assert((a + x)[i] == a[i]);
        assert((b + y)[i] == b[i]);
    }
    assert(a =~= b);
    assert forall|i: int| 0 <= i < x.len() implies x[i] == y[i] by {
        assert((a + x)[a.len() + i] == x[i]);
        assert((b + y)[b.len() + i] == y[i]);
    }
    assert(x =~= y);
}

proof fn lemma_entries_tell(a: StrMap<String>, b: StrMap<String>, n: int, i: int)
    requires
        0 <= i < n <= a.keys().len(),
        a.keys() == b.keys(),
        forall|j: int|
            0 <= j < n ==> encode_utf8((#[trigger] a.values()[j])@).len() == encode_utf8(b.values()[j]@).len(),
        license_entries(a, n) == license_entries(b, n),
    ensures
        a.values()[i]@ == b.values()[i]@,
    decreases n,
{
    let key = encode_utf8(a.keys()[n - 1]);
    let (x, y) = (encode_utf8(a.values()[n - 1]@), encode_utf8(b.values()[n - 1]@));
    let (p, q) = (license_entries(a, n - 1), license_entries(b, n - 1));
    let head = le_bytes(key.len(), 8);
    assert(a.values()[n - 1]@ == a.values()[n - 1]@);
    lemma_same_tail(p + head + key, x, q + head + key, y);
    if i == n - 1 {
        lemma_bytes_determine_text(a.values()[i]@, b.values()[i]@);
    } else {
        lemma_same_tail(p + head, key, q + head, key);
        lemma_same_tail(p, head, q, head);
        lemma_entries_tell(a, b, n - 1, i);
    }
}

/// The fingerprint of the licenses is taken of the digest of every package, and of
/// that of the graph: where one of them is another of the same length, what it is
/// taken of is another.
pub proof fn law_license_fingerprint_covers_every_package(
    graph_a: Seq<char>,
    a: StrMap<String>,
    graph_b: Seq<char>,
    b: StrMap<String>,
    i: int,
)
    requires
        a.keys() == b.keys(),
        forall|j: int|
            0 <= j < a.keys().len() ==> encode_utf8((#[trigger] a.values()[j])@).len() == encode_utf8(
                b.values()[j]@,
            ).len(),
        encode_utf8(graph_a).len() == encode_utf8(graph_b).len(),
        license_message(graph_a, a) == license_message(graph_b, b),
    ensures
        graph_a == graph_b,
        0 <= i < a.keys().len() ==> a.values()[i]@ == b.values()[i]@,
{
    let n = a.keys().len() as int;
    let (x, y) = (license_entries(a, n), license_entries(b, n));
    let (p, q) = (encode_utf8(graph_a), encode_utf8(graph_b));
    assert((p + x).len() == (q + y).len());
    lemma_same_tail(p, x, q, y);
    lemma_bytes_determine_text(graph_a, graph_b);
    if 0 <= i < n {
        lemma_entries_tell(a, b, n, i);
    }
}

/// The directories of packages that are copied or live in the project are looked
/// at: those of copied directories and of portals, under their paths with forward
/// slashes. Links, tarballs, checkouts and packages of a registry have none.
pub proof fn law_local_directories_are_those_of_the_graph(graph: LockfileGraph, key: Seq<char>)
    requires
        graph.packages.wf(),
    ensures
        has_local_dir(graph, key, graph.packages.keys().len() as int) <==> exists|k: Seq<char>| #[trigger]
            graph.packages@.contains_key(k) && match graph.packages@[k].local_source {
                Some(LocalSource::Directory(rel)) => with_replaced(rel@, '\\', '/') == key,
                Some(LocalSource::Portal(rel)) => with_replaced(rel@, '\\', '/') == key,
                _ => false,
            },
{
    let n = graph.packages.keys().len() as int;
    if has_local_dir(graph, key, n) {
        let i = choose|i: int|
            0 <= i < n && local_dir(#[trigger] graph.packages.values()[i]) is Some && with_replaced(
                local_dir(graph.packages.values()[i])->0,
                '\\',
                '/',
            ) == key;
        lemma_entry(graph.packages, i);
        assert(graph.packages@.contains_key(graph.packages.keys()[i]));
    }
    if exists|k: Seq<char>| #[trigger]
        graph.packages@.contains_key(k) && match graph.packages@[k].local_source {
            Some(LocalSource::Directory(rel)) => with_replaced(rel@, '\\', '/') == key,
            Some(LocalSource::Portal(rel)) => with_replaced(rel@, '\\', '/') == key,
            _ => false,
        } {
        let k = choose|k: Seq<char>| #[trigger]
            graph.packages@.contains_key(k) && match graph.packages@[k].local_source {
                Some(LocalSource::Directory(rel)) => with_replaced(rel@, '\\', '/') == key,
                Some(LocalSource::Portal(rel)) => with_replaced(rel@, '\\', '/') == key,
                _ => false,
            };
        let i = lemma_key_index(graph.packages, k);
        assert(local_dir(graph.packages.values()[i]) is Some);
    }
}

/// Each local directory is looked at once, and by a path that is one of its packages'.
pub proof fn law_local_directories_are_listed_once(graph: LockfileGraph, n: int, a: int, b: int)
    requires
        0 <= n <= graph.packages.keys().len(),
        0 <= a < first_dirs(graph, n).len(),
    ensures
        a < b < first_dirs(graph, n).len() ==> first_dirs(graph, n)[a].0 != first_dirs(graph, n)[b].0,
        first_dirs(graph, n)[a].0 == with_replaced(first_dirs(graph, n)[a].1, '\\', '/'),
        exists|i: int|
            0 <= i < n && local_dir(#[trigger] graph.packages.values()[i]) == Some(first_dirs(graph, n)[a].1),
    decreases n,
{
    let all = first_dirs(graph, n);
    if n > 0 {
        let rest = first_dirs(graph, n - 1);
        if a < rest.len() {
            law_local_directories_are_listed_once(graph, n - 1, a, b);
            assert(all[a] == rest[a]);
            let i = choose|i: int|
                0 <= i < n - 1 && local_dir(#[trigger] graph.packages.values()[i]) == Some(rest[a].1);
            assert(local_dir(graph.packages.values()[i]) == Some(all[a].1));
            if a < b < all.len() && b >= rest.len() {
                assert(!has_dir_key(rest, all[b].0));
                assert(rest[a].0 != all[b].0);
            }
        } else {
            assert(local_dir(graph.packages.values()[n - 1]) == Some(all[a].1));
        }
    }
}

/// What is recorded of a member's lockfile: its digest, or nothing where it has
/// none; and its size and time where they were had. Members are told apart by their
/// paths in the project.
pub proof fn law_members_are_recorded(
    project: Seq<Seq<char>>,
    members: Seq<MemberLockfile>,
    n: int,
    i: int,
)
    requires
        0 <= i < n <= members.len(),
        forall|j: int|
            i < j < n ==> relative_text((#[trigger] members[j]).dir@, project) != relative_text(
                members[i].dir@,
                project,
            ),
    ensures
        ({
            let key = relative_text(members[i].dir@, project);
            let digests = member_digests(project, members, n);
            &&& digests.contains_key(key)
            &&& digests[key] == match members[i].lockfile {
                Some(l) => recorded_digest(l@),
                None => Seq::empty(),
            }
            &&& members[i].lockfile matches Some(l) ==> (l@.meta matches Some(m) ==> member_snapshots(
                project,
                members,
                n,
            ).contains_key(key) && member_snapshots(project, members, n)[key] == m)
        }),
    decreases n,
{
    if i < n - 1 {
        assert(relative_text(members[n - 1].dir@, project) != relative_text(members[i].dir@, project));
        law_members_are_recorded(project, members, n - 1, i);
    }
}

/// Nothing is recorded under a path that no member has, and no size and time of a
/// member without a lockfile.
pub proof fn law_only_members_are_recorded(
    project: Seq<Seq<char>>,
    members: Seq<MemberLockfile>,
    n: int,
    key: Seq<char>,
)
    requires
        0 <= n <= members.len(),
    ensures
        member_digests(project, members, n).contains_key(key) ==> exists|i: int|
            0 <= i < n && relative_text((#[trigger] members[i]).dir@, project) == key,
        member_snapshots(project, members, n).contains_key(key) ==> exists|i: int|
            0 <= i < n && relative_text((#[trigger] members[i]).dir@, project) == key && members[i].lockfile is Some,
    decreases n,
{
    if n > 0 {
        law_only_members_are_recorded(project, members, n - 1, key);
        assert(relative_text(members[n - 1].dir@, project) == relative_text(members[n - 1].dir@, project));
    }
}

/// What is recorded of a manifest that is a file: its digest, and its size and time
/// where they were had; under the path that finds it again.
pub proof fn law_manifests_are_recorded(
    project: Seq<Seq<char>>,
    rels: Seq<String>,
    files: Seq<Option<FileSnapshot>>,
    n: int,
    i: int,
)
    requires
        0 <= i < n <= rels.len(),
        files.len() == rels.len(),
        files[i] is Some,
        forall|j: int| i < j < n ==> manifest_key(project, (#[trigger] rels[j])@) != manifest_key(project, rels[i]@),
    ensures
        ({
            let key = manifest_key(project, rels[i]@);
            let digests = manifest_digests(project, rels, files, n);
            &&& digests.contains_key(key)
            &&& digests[key] == recorded_digest(files[i]->0@)
            &&& files[i]->0@.meta matches Some(m) ==> manifest_metas(project, rels, files, n).contains_key(key)
                && manifest_metas(project, rels, files, n)[key] == m
        }),
    decreases n,
{
    if i < n - 1 {
        assert(manifest_key(project, rels[n - 1]@) != manifest_key(project, rels[i]@));
        law_manifests_are_recorded(project, rels, files, n - 1, i);
    }
}

/// The manifest of the root project is recorded as `.`; that of any other under its
/// path in the project, which leads to its `package.json`.
pub proof fn law_manifests_have_their_paths(project: Seq<Seq<char>>, rel: Seq<char>)
    ensures
        manifest_key(project, "."@) == "."@,
        importer_manifest(project, "."@) == path_joined(project, "package.json"@),
        rel != "."@ ==> importer_manifest(project, rel) == path_joined(path_joined(project, rel), "package.json"@),
        rel != "."@ ==> manifest_key(project, rel) == relative_text(
            path_joined(path_joined(project, rel), "package.json"@),
            project,
        ),
{
}

/// A file that could be read is recorded with the digest of its bytes, one that could
/// not with that of none; its size and time are those that were taken before.
pub proof fn law_snapshot_is_of_what_was_read(meta: Option<FileMeta>, content: Option<Vec<u8>>)
    ensures
        ({
            let measured = after_answer(ReadingView::Start, ReadAnswer::Meta(meta));
            let read = after_answer(measured, ReadAnswer::Content(content));
            &&& read is Read
            &&& read->Read_0 == meta
            &&& content is Some ==> read->Read_1 == Some("blake3:"@ + blake3_hex(content->0@))
            &&& content is None ==> read->Read_1 is None
            &&& recorded_digest(SnapshotView { meta, digest: read->Read_1 }) == "blake3:"@ + blake3_hex(
                match content {
                    Some(c) => c@,
                    None => Seq::empty(),
                },
            )
        }),
{
}

/// Of the manifests that are recorded, those have the digest of what decides about an
/// install whose digest was had, and those a size and a time whose were.
pub proof fn law_manifest_details_are_kept_where_had(
    hashes: StrMap<String>,
    shapes: StrMap<Vec<u8>>,
    metas: StrMap<FileMeta>,
    rel: Seq<char>,
)
    ensures
        hashes@.contains_key(rel) && shapes@.contains_key(rel) ==> shape_digests(hashes, shapes).contains_key(rel)
            && shape_digests(hashes, shapes)[rel] == hex_text(shapes@[rel]@),
        !hashes@.contains_key(rel) || !shapes@.contains_key(rel) ==> !shape_digests(hashes, shapes).contains_key(rel),
        hashes@.contains_key(rel) && metas@.contains_key(rel) ==> manifest_snapshots(hashes, metas).contains_key(rel)
            && manifest_snapshots(hashes, metas)[rel] == metas@[rel],
        !hashes@.contains_key(rel) || !metas@.contains_key(rel) ==> !manifest_snapshots(hashes, metas).contains_key(
            rel,
        ),
{
}

/// The state holds what was handed over, and what a later check reads of it is the
/// same.
pub proof fn law_state_holds_what_was_handed_over(state: InstallState, input: WriteStateInput)
    requires
        records(state, input),
    ensures
        state.lockfile_hash@ == input.lockfile.hash@,
        state.lockfile_meta == input.lockfile.meta,
        state.member_lockfile_hashes == input.members.0,
        state.member_lockfile_meta == input.members.1,
        state.package_json_hashes == input.package_json_hashes,
        state.lockfile_snapshot_name == input.lockfile.name,
        state.package_json_meta@ == manifest_snapshots(input.package_json_hashes, input.manifest_meta),
        text_map(state.package_json_shape_digests) == shape_digests(input.package_json_hashes, input.shapes),
        state.section_filtered == input.section_filtered,
        state.settings_hash@ == input.settings_hash@,
        state.layout == Some(input.layout),
        state.local_directory_hashes == Some(input.local_directory_hashes),
        state.package_content_hashes == input.package_content_hashes,
        state.package_subtree_hashes == input.package_subtree_hashes,
        state.graph_lthash@ == input.graph_lthash@,
        state.unreviewed_builds == input.unreviewed_builds,
        state.aube_version@ == input.aube_version@,
        state.freshness().lockfile_hash == input.lockfile.hash@,
        state.freshness().lockfile_meta == input.lockfile.meta,
        state.freshness().section_filtered == input.section_filtered,
        state.freshness().settings_hash == input.settings_hash@,
{
}

/// Directory `up` steps above another.
pub open spec fn above(from: Seq<Seq<char>>, up: int) -> Seq<Seq<char>> {
    from.take(from.len() - up)
}

/// The entry that module lookup finds is in the nearest directory on the way up that
/// has the package under the name; where there is none, nothing is found.
pub proof fn law_nearest_entry_is_found(
    dirs: Seq<Seq<Seq<char>>>,
    from: Seq<Seq<char>>,
    modules: Seq<char>,
    name: Seq<char>,
    up: int,
)
    requires
        0 <= up <= from.len(),
        forall|i: int| 0 <= i < from.len() ==> #[trigger] from[i] != crate::fs_path::root_part(),
    ensures
        dirs.contains(path_joined(path_joined(above(from, up), modules), name)) && (forall|j: int|
            0 <= j < up ==> !dirs.contains(path_joined(path_joined(#[trigger] above(from, j), modules), name)))
            ==> visible_entry(dirs, from, modules, name) == Some(
            path_joined(path_joined(above(from, up), modules), name),
        ),
        (forall|j: int|
            0 <= j <= from.len() ==> !dirs.contains(path_joined(path_joined(#[trigger] above(from, j), modules), name)))
            ==> visible_entry(dirs, from, modules, name) is None,
    decreases from.len(),
{
    assert(above(from, 0) =~= from);
    let here = path_joined(path_joined(from, modules), name);
    if !dirs.contains(here) && from.len() > 0 {
        let p = from.drop_last();
        assert(from[from.len() - 1] != crate::fs_path::root_part());
        assert(path_parent(from) == Some(p));
        assert forall|i: int| 0 <= i < p.len() implies #[trigger] p[i] != crate::fs_path::root_part() by {
            assert(p[i] == from[i]);
        }
        assert forall|j: int| 0 <= j <= p.len() implies #[trigger] above(p, j) == above(from, j + 1) by {
            assert(above(p, j) =~= above(from, j + 1));
        }
        if up > 0 {
            law_nearest_entry_is_found(dirs, p, modules, name, up - 1);
            assert(above(p, up - 1) == above(from, up));
        } else {
            law_nearest_entry_is_found(dirs, p, modules, name, 0);
        }
        if forall|j: int|
            0 <= j < up ==> !dirs.contains(path_joined(path_joined(#[trigger] above(from, j), modules), name)) {
            assert forall|j: int| 0 <= j < up - 1 implies !dirs.contains(
                path_joined(path_joined(#[trigger] above(p, j), modules), name),
            ) by {
                assert(above(p, j) == above(from, j + 1));
            }
        }
        if forall|j: int|
            0 <= j <= from.len() ==> !dirs.contains(
                path_joined(path_joined(#[trigger] above(from, j), modules), name),
            ) {
            assert forall|j: int| 0 <= j <= p.len() implies !dirs.contains(
                path_joined(path_joined(#[trigger] above(p, j), modules), name),
            ) by {
                assert(above(p, j) == above(from, j + 1));
            }
        }
    } else if dirs.contains(here) {
        assert(dirs.contains(path_joined(path_joined(above(from, 0), modules), name)));
    }
}

/// An entry is recorded for each direct dependency of each project, in order; where
/// packages are not hoisted it is the one in the project's own modules directory.
pub proof fn law_direct_entries_are_recorded(
    project: Seq<Seq<char>>,
    layout: WriteStateLayout,
    importers: StrMap<Importer>,
    path: Seq<char>,
    i: int,
)
    requires
        importers@.contains_key(path),
        0 <= i < importers@[path].dependencies@.len(),
    ensures
        all_entries(project, layout, importers).contains_key(path),
        all_entries(project, layout, importers)[path].len() == importers@[path].dependencies@.len(),
        layout.node_linker is Isolated && path == seq!['.'] ==> all_entries(project, layout, importers)[path][i]
            == relative_text(
            path_joined(
                path_joined(project, layout.modules_dir_name@),
                importers@[path].dependencies@[i].name@,
            ),
            project,
        ),
        layout.node_linker is Isolated && path != seq!['.'] ==> all_entries(project, layout, importers)[path][i]
            == relative_text(
            path_joined(
                path_joined(
                    crate::fs_path::normalized(path_joined(project, path)),
                    layout.modules_dir_name@,
                ),
                importers@[path].dependencies@[i].name@,
            ),
            project,
        ),
{
}

/// A package is recorded exactly where the root project depends on it directly.
pub proof fn law_roots_packages_are_recorded(
    project: Seq<Seq<char>>,
    layout: WriteStateLayout,
    graph: LockfileGraph,
    k: Seq<char>,
    i: int,
)
    requires
        graph.importers@.contains_key("."@),
    ensures
        graph.packages@.contains_key(k) && 0 <= i < graph.importers@["."@].dependencies@.len()
            && graph.importers@["."@].dependencies@[i].dep_path@ == k ==> all_packages(
            project,
            layout,
            graph,
        ).contains_key(k),
        (forall|j: int|
            0 <= j < graph.importers@["."@].dependencies@.len() ==> (
            #[trigger] graph.importers@["."@].dependencies@[j]).dep_path@ != k) ==> !all_packages(
            project,
            layout,
            graph,
        ).contains_key(k),
        !graph.packages@.contains_key(k) ==> !all_packages(project, layout, graph).contains_key(k),
{
    if 0 <= i < graph.importers@["."@].dependencies@.len() && graph.importers@["."@].dependencies@[i].dep_path@ == k {
        assert(root_needs(graph, k));
    }
}

/// What is recorded of a package: its name and version, the path of its manifest, in
/// the directory that a live link leads to or that the package was put into, the
/// digest of the manifest where it could be read, and whether it is a live link.
pub proof fn law_packages_are_recorded_with_their_manifests(
    project: Seq<Seq<char>>,
    layout: WriteStateLayout,
    k: Seq<char>,
    pkg: LockedPackage,
)
    ensures
        ({
            let r = package_record(project, layout, k, pkg);
            &&& r.name == pkg.name@ && r.version == pkg.version@
            &&& r.link <==> (pkg.local_source matches Some(LocalSource::Link(_)))
            &&& pkg.local_source matches Some(LocalSource::Link(rel)) ==> r.package_json_path == relative_text(
                path_joined(path_joined(project, rel@), "package.json"@),
                project,
            )
            &&& !(pkg.local_source matches Some(LocalSource::Link(_))) ==> r.package_json_path == relative_text(
                path_joined(layout.package_dirs@[k]@, "package.json"@),
                project,
            )
            &&& layout.manifests@.contains_key(k) ==> r.package_json_hash == "blake3:"@ + blake3_hex(
                layout.manifests@[k]@,
            )
            &&& !layout.manifests@.contains_key(k) ==> r.package_json_hash.len() == 0
        }),
{
}

/// Links are recorded only of a tree that is not hoisted and uses the global virtual
/// store; limits only of a hoisted one.
pub proof fn law_layout_is_recorded_by_linker(
    project: Seq<Seq<char>>,
    layout: WriteStateLayout,
    graph: LockfileGraph,
)
    ensures
        layout_record(project, layout, graph).gvs_nested_links is Some ==> layout.use_global_virtual_store
            && layout.node_linker is Isolated,
        layout_record(project, layout, graph).hoisting_limits is Some <==> layout.node_linker is Hoisted,
        layout_record(project, layout, graph).modules_dir_name == layout.modules_dir_name@,
{
}

/// The links of a package in the store: one for each dependency, but for one on
/// itself, to where it was read to lead; where one could not be read, none at all is
/// recorded.
pub proof fn law_store_links_are_those_of_the_dependencies(
    known: Map<Seq<char>, Seq<char>>,
    project: Seq<Seq<char>>,
    entry: StoreEntry,
    pkg: LockedPackage,
    n: int,
    i: int,
)
    requires
        0 <= n <= pkg.dependencies.keys().len(),
    ensures
        with_store_links(known, project, entry, pkg, n) is None <==> exists|j: int|
            0 <= j < n && (#[trigger] pkg.dependencies.keys()[j]) != pkg.name@ && !entry.targets@.contains_key(
                pkg.dependencies.keys()[j],
            ),
        with_store_links(known, project, entry, pkg, n) is Some && 0 <= i < n && pkg.dependencies.keys()[i] != pkg.name@
            && (forall|j: int|
            i < j < n ==> relative_text(
                path_joined(entry.modules_dir@, #[trigger] pkg.dependencies.keys()[j]),
                project,
            ) != relative_text(path_joined(entry.modules_dir@, pkg.dependencies.keys()[i]), project)) ==> {
            let links = with_store_links(known, project, entry, pkg, n)->0;
            let rel = relative_text(path_joined(entry.modules_dir@, pkg.dependencies.keys()[i]), project);
            links.contains_key(rel) && links[rel] == entry.targets@[pkg.dependencies.keys()[i]]@
        },
    decreases n,
{
    if n > 0 {
        law_store_links_are_those_of_the_dependencies(known, project, entry, pkg, n - 1, i);
        let last = pkg.dependencies.keys()[n - 1];
        if with_store_links(known, project, entry, pkg, n) is None {
            if with_store_links(known, project, entry, pkg, n - 1) is Some {
                assert(pkg.dependencies.keys()[n - 1] != pkg.name@);
            }
        }
    }
}

/// A package lives in the shared store where its entry in the project is a link, and
/// it comes from a registry or every project may share it.
pub proof fn law_shared_packages_are_linked(
    graph: LockfileGraph,
    shareable: Set<Seq<char>>,
    linked: Set<Seq<char>>,
    i: int,
)
    ensures
        ({
            let k = graph.packages.keys()[i];
            let local = graph.packages.values()[i].local_source is Some;
            &&& !linked.contains(k) ==> !in_shared_store(graph, shareable, linked, i)
            &&& linked.contains(k) && !local ==> in_shared_store(graph, shareable, linked, i)
            &&& linked.contains(k) && local ==> in_shared_store(graph, shareable, linked, i) == shareable.contains(k)
        }),
{
}

} // verus!
