//! The file that the placements of a hoisted tree are kept in.
//!
//! It is kept apart from the rest of the state, so that an install of only some
//! packages can replace it alone.
use crate::fs_path::{path_joined, path_wf, FsPath};
use crate::hoisted::placements::{flattened, paired, path_views, HoistedPlacements};
use crate::relative::{law_recorded_path_is_found_again, plainly_under, relative_path_or_original, relative_text};
use crate::str_map::{
    increasing, lemma_all_keys, lemma_entry, lemma_first_keys, lemma_increasing_distinct, lemma_increasing_unique,
    StrMap,
};
use crate::text::{before, copy_texts, texts};
use vstd::prelude::*;

verus! {

/// The texts of the directories of a package, relative to the project.
pub open spec fn dir_texts(dirs: Seq<Seq<Seq<char>>>, project: Seq<Seq<char>>) -> Seq<Seq<char>> {
    dirs.map_values(|d: Seq<Seq<char>>| relative_text(d, project))
}

/// The pairs of the first `n` of a listing, by key.
pub open spec fn grouped(
    pairs: Seq<(Seq<char>, Seq<Seq<char>>)>,
    project: Seq<Seq<char>>,
    n: int,
) -> Map<Seq<char>, Seq<Seq<char>>>
    decreases n,
{
    if n <= 0 {
        Map::empty()
    } else {
        let m = grouped(pairs, project, n - 1);
        let (key, dir) = pairs[n - 1];
        m.insert(
            key,
            (if m.contains_key(key) {
                m[key]
            } else {
                Seq::empty()
            }).push(relative_text(dir, project)),
        )
    }
}

/// What is recorded of a listing of placements.
pub open spec fn listing_record(
    pairs: Seq<(Seq<char>, Seq<Seq<char>>)>,
    project: Seq<Seq<char>>,
) -> Map<Seq<char>, Seq<Seq<char>>> {
    grouped(pairs, project, pairs.len() as int)
}

/// The placements of a hoisted tree as they are recorded: for each package its
/// directories, relative to the project.
pub fn record_placements(project_dir: &FsPath, placements: &HoistedPlacements) -> (r: StrMap<Vec<String>>)
    ensures
        r.deep_view() == listing_record(flattened(placements.keys(), placements@), project_dir@),
        increasing(placements.keys()),
{
    let pairs = placements.iter();
    let ghost all = flattened(placements.keys(), placements@);
    let mut out: StrMap<Vec<String>> = StrMap::new();
    let mut i: usize = 0;
    proof {
        assert(crate::hoisted::placements::pair_views(pairs@).len() == pairs@.len());
        assert(out.deep_view() =~= Map::<Seq<char>, Seq<Seq<char>>>::empty());
    }
    while i < pairs.len()
        invariant
            i <= pairs@.len(),
            all == crate::hoisted::placements::pair_views(pairs@),
            out.deep_view() == grouped(all, project_dir@, i as int),
        decreases pairs.len() - i,
    {
        let (key, dir) = pairs[i];
        let ghost was = out.deep_view();
        proof {
            assert(all[i as int] == (key@, dir@));
        }
        let mut texts_of = match out.remove(key) {
            Some(v) => v,
            None => Vec::new(),
        };
        let ghost prior = texts_of@;
        let ghost old_texts = if was.contains_key(key@) {
            was[key@]
        } else {
            Seq::<Seq<char>>::empty()
        };
        proof {
            assert(texts_of.deep_view() =~= old_texts);
        }
        texts_of.push(relative_path_or_original(dir, project_dir));
        proof {
            assert(texts_of.deep_view() =~= old_texts.push(relative_text(dir@, project_dir@))) by {
                assert forall|j: int| 0 <= j < prior.len() implies texts_of.deep_view()[j] == old_texts[j] by {
                    assert(texts_of@[j] == prior[j]);
                    assert(prior[j].deep_view() == old_texts[j]);
                }
            }
        }
        let ghost v = texts_of.deep_view();
        out.insert(key.to_owned(), texts_of);
        proof {
            assert(out.deep_view() =~= was.insert(key@, v));
        }
        i += 1;
    }
    out
}

/// The keys and texts of a list of pairs.
pub open spec fn pair_texts(pairs: Seq<(String, Vec<String>)>) -> Seq<(Seq<char>, Seq<Seq<char>>)> {
    pairs.map_values(|p: (String, Vec<String>)| (p.0@, p.1.deep_view()))
}

/// The keys of a list of pairs.
pub open spec fn pair_keys(pairs: Seq<(Seq<char>, Seq<Seq<char>>)>) -> Seq<Seq<char>> {
    pairs.map_values(|p: (Seq<char>, Seq<Seq<char>>)| p.0)
}

/// The map of a list of pairs.
pub open spec fn as_map(pairs: Seq<(Seq<char>, Seq<Seq<char>>)>) -> Map<Seq<char>, Seq<Seq<char>>>
    decreases pairs.len(),
{
    if pairs.len() == 0 {
        Map::empty()
    } else {
        as_map(pairs.drop_last()).insert(pairs.last().0, pairs.last().1)
    }
}

/// What `serde_json::from_slice` reads as a map from texts to lists of texts, as
/// pairs in the order of the keys.
pub uninterp spec fn json_pairs(bytes: Seq<u8>) -> Option<Seq<(Seq<char>, Seq<Seq<char>>)>>;

/// What `serde_json::to_vec` writes of a map from texts to lists of texts.
pub uninterp spec fn pairs_json(pairs: Seq<(Seq<char>, Seq<Seq<char>>)>) -> Seq<u8>;

/// `serde_json::from_slice`, into a map from texts to lists of texts: nothing
/// where the bytes are no such map. The map's pairs come in the order of its
/// keys, each key once.
#[verifier::external_body]
fn parse_pairs(bytes: &[u8]) -> (r: Option<Vec<(String, Vec<String>)>>)
    ensures
        match r {
            Some(v) => json_pairs(bytes@) == Some(pair_texts(v@)) && increasing(pair_keys(pair_texts(v@))),
            None => json_pairs(bytes@) is None,
        },
{
    let map: Option<std::collections::BTreeMap<String, Vec<String>>> = serde_json::from_slice(bytes).ok();
    map.map(|m| m.into_iter().collect())
}

/// `serde_json::to_vec`, of a map from texts to lists of texts. A map whose keys
/// are texts can always be written, and what was written is read as the same
/// map.
#[verifier::external_body]
fn write_pairs(pairs: Vec<(String, Vec<String>)>) -> (r: Option<Vec<u8>>)
    requires
        increasing(pair_keys(pair_texts(pairs@))),
    ensures
        r is Some,
        r->0@ == pairs_json(pair_texts(pairs@)),
        json_pairs(r->0@) == Some(pair_texts(pairs@)),
{
    let map: std::collections::BTreeMap<String, Vec<String>> = pairs.into_iter().collect();
    serde_json::to_vec(&map).ok()
}

/// What is recorded of the placements, as pairs in the order of the keys.
pub open spec fn record_pairs(
    keys: Seq<Seq<char>>,
    m: Map<Seq<char>, Seq<Seq<Seq<char>>>>,
    project: Seq<Seq<char>>,
) -> Seq<(Seq<char>, Seq<Seq<char>>)> {
    listed_keys(keys, m).map_values(|k: Seq<char>| (k, dir_texts(m[k], project)))
}

/// The pairs of a map, in order.
fn pairs_of(recorded: &StrMap<Vec<String>>) -> (r: Vec<(String, Vec<String>)>)
    ensures
        pair_texts(r@).len() == recorded.keys().len(),
        pair_keys(pair_texts(r@)) == recorded.keys(),
        forall|i: int|
            0 <= i < recorded.keys().len() ==> (#[trigger] pair_texts(r@)[i]).1 == recorded.values()[i].deep_view(),
        recorded.wf(),
{
    let mut out: Vec<(String, Vec<String>)> = Vec::new();
    let total = recorded.len();
    let mut i: usize = 0;
    while i < total
        invariant
            i <= total,
            total == recorded.keys().len(),
            recorded.wf(),
            out@.len() == i,
            forall|j: int|
                0 <= j < i ==> (#[trigger] out@[j]).0@ == recorded.keys()[j] && out@[j].1.deep_view()
                    == recorded.values()[j].deep_view(),
        decreases total - i,
    {
        let value = recorded.value_at(i);
        let copied = copy_texts(value);
        proof {
            assert(copied.deep_view() =~= texts(copied@));
            assert(value.deep_view() =~= texts(value@));
        }
        out.push((recorded.key_at(i).to_owned(), copied));
        i += 1;
    }
    proof {
        assert(pair_keys(pair_texts(out@)) =~= recorded.keys());
    }
    out
}

/// The file that the placements of a hoisted tree are kept in. Where there are
/// none to record, the file is removed.
pub fn write_hoisted_placements(project_dir: &FsPath, placements: Option<&HoistedPlacements>) -> (r: Option<Vec<u8>>)
    ensures
        r is Some <==> placements is Some,
        r is Some ==> ({
            let pairs = record_pairs(placements->0.keys(), placements->0@, project_dir@);
            r->0@ == pairs_json(pairs) && json_pairs(r->0@) == Some(pairs)
        }),
{
    match placements {
        Some(p) => {
            let recorded = record_placements(project_dir, p);
            let pairs = pairs_of(&recorded);
            proof {
                lemma_record_pairs(p.keys(), p@, project_dir@, recorded);
                assert(pair_texts(pairs@) =~= record_pairs(p.keys(), p@, project_dir@)) by {
                    let all = record_pairs(p.keys(), p@, project_dir@);
                    assert forall|i: int| 0 <= i < all.len() implies #[trigger] pair_texts(pairs@)[i] == all[i] by {
                        assert(pair_keys(pair_texts(pairs@))[i] == recorded.keys()[i]);
                    }
                }
            }
            write_pairs(pairs)
        },
        None => None,
    }
}

/// A map that holds what is recorded has the keys of which something is listed,
/// in order.
proof fn lemma_record_pairs(
    keys: Seq<Seq<char>>,
    m: Map<Seq<char>, Seq<Seq<Seq<char>>>>,
    project: Seq<Seq<char>>,
    recorded: StrMap<Vec<String>>,
)
    requires
        increasing(keys),
        recorded.wf(),
        recorded.deep_view() == listing_record(flattened(keys, m), project),
    ensures
        recorded.keys() == listed_keys(keys, m),
        forall|i: int|
            0 <= i < recorded.keys().len() ==> (#[trigger] recorded.values()[i]).deep_view() == dir_texts(
                m[recorded.keys()[i]],
                project,
            ),
{
    let g = recorded.deep_view();
    lemma_increasing_distinct(keys);
    lemma_grouped_flattened(keys, m, project);
    lemma_listed_keys(keys, m);
    assert forall|k: Seq<char>| recorded.keys().contains(k) <==> listed_keys(keys, m).contains(k) by {
        assert(recorded@.contains_key(k) == recorded.keys().contains(k));
        assert(g.contains_key(k) == recorded@.contains_key(k));
    }
    lemma_increasing_unique(recorded.keys(), listed_keys(keys, m));
    assert forall|i: int| 0 <= i < recorded.keys().len() implies (#[trigger] recorded.values()[i]).deep_view()
        == dir_texts(m[recorded.keys()[i]], project) by {
        lemma_entry(recorded, i);
        let k = recorded.keys()[i];
        assert(g.contains_key(k));
        assert(g[k] == recorded@[k].deep_view());
    }
}

/// The record that the bytes of its file hold. There is none where the bytes
/// are no record.
pub fn parse_placements(bytes: &[u8]) -> (r: Option<StrMap<Vec<String>>>)
    ensures
        match r {
            Some(m) => json_pairs(bytes@) is Some && m.deep_view() == as_map(json_pairs(bytes@)->0),
            None => json_pairs(bytes@) is None,
        },
{
    let pairs = match parse_pairs(bytes) {
        Some(pairs) => pairs,
        None => {
            return None;
        },
    };
    let ghost all = pair_texts(pairs@);
    let mut out: StrMap<Vec<String>> = StrMap::new();
    let mut i: usize = 0;
    proof {
        assert(out.deep_view() =~= as_map(all.take(0)));
    }
    while i < pairs.len()
        invariant
            i <= pairs@.len(),
            all == pair_texts(pairs@),
            out.deep_view() == as_map(all.take(i as int)),
        decreases pairs.len() - i,
    {
        let ghost was = out.deep_view();
        let key = pairs[i].0.clone();
        let copied = copy_texts(&pairs[i].1);
        let ghost (k, v) = (key@, copied.deep_view());
        proof {
            assert(copied.deep_view() =~= texts(copied@));
            assert(pairs@[i as int].1.deep_view() =~= texts(pairs@[i as int].1@));
            assert(all.take(i + 1).drop_last() =~= all.take(i as int));
            assert(all.take(i + 1).last() == (k, v));
        }
        out.insert(key, copied);
        proof {
            assert(out.deep_view() =~= was.insert(k, v));
        }
        i += 1;
    }
    proof {
        assert(all.take(i as int) =~= all);
    }
    Some(out)
}

/// The directories of a recorded package that still exist.
pub open spec fn existing_dirs(
    recorded: Seq<Seq<char>>,
    project: Seq<Seq<char>>,
    existing: Set<Seq<Seq<char>>>,
) -> Seq<Seq<Seq<char>>>
    decreases recorded.len(),
{
    if recorded.len() == 0 {
        Seq::empty()
    } else {
        let rest = existing_dirs(recorded.drop_last(), project, existing);
        let dir = path_joined(project, recorded.last());
        if existing.contains(dir) {
            rest.push(dir)
        } else {
            rest
        }
    }
}

fn restore_dirs(project_dir: &FsPath, recorded: &Vec<String>, existing: &Vec<FsPath>) -> (r: Vec<FsPath>)
    ensures
        path_views(r@) == existing_dirs(recorded.deep_view(), project_dir@, path_views(existing@).to_set()),
{
    let ghost all = recorded.deep_view();
    let mut out: Vec<FsPath> = Vec::new();
    let mut i: usize = 0;
    proof {
        assert(path_views(out@) =~= existing_dirs(all.take(0), project_dir@, path_views(existing@).to_set()));
    }
    while i < recorded.len()
        invariant
            i <= recorded@.len(),
            all == recorded.deep_view(),
            path_views(out@) == existing_dirs(
                all.take(i as int),
                project_dir@,
                path_views(existing@).to_set(),
            ),
        decreases recorded.len() - i,
    {
        let ghost was = out@;
        let dir = project_dir.join(recorded[i].as_str());
        let ghost d = dir@;
        proof {
            assert(all.take(i + 1).drop_last() =~= all.take(i as int));
            assert(all.take(i + 1).last() == recorded@[i as int]@);
        }
        if crate::hoisted::placements::holds_path(existing, &dir) {
            out.push(dir);
            proof {
                assert(path_views(out@) =~= path_views(was).push(d));
            }
        }
        i += 1;
    }
    proof {
        assert(all.take(i as int) =~= all);
    }
    out
}

/// The placements that were recorded, as far as their directories still exist.
/// There are none where nothing was recorded, or it was removed.
pub fn read_hoisted_placements(
    project_dir: &FsPath,
    recorded: Option<&StrMap<Vec<String>>>,
    existing: &Vec<FsPath>,
) -> (r: Option<HoistedPlacements>)
    ensures
        r is Some <==> recorded is Some,
        r is Some ==> reads_back(
            recorded->0.deep_view(),
            project_dir@,
            path_views(existing@).to_set(),
            r->0@,
        ),
{
    match recorded {
        Some(m) => {
            let r = restore_placements(project_dir, m, existing);
            proof {
                assert(m.deep_view().dom() =~= m@.dom());
            }
            Some(r)
        },
        None => None,
    }
}

/// The placements are those that were recorded, as far as they exist.
pub open spec fn reads_back(
    recorded: Map<Seq<char>, Seq<Seq<char>>>,
    project: Seq<Seq<char>>,
    existing: Set<Seq<Seq<char>>>,
    placements: Map<Seq<char>, Seq<Seq<Seq<char>>>>,
) -> bool {
    &&& placements.dom() == recorded.dom()
    &&& forall|k: Seq<char>| #[trigger]
        placements.contains_key(k) ==> placements[k] == existing_dirs(recorded[k], project, existing)
}

fn restore_placements(
    project_dir: &FsPath,
    recorded: &StrMap<Vec<String>>,
    existing: &Vec<FsPath>,
) -> (r: HoistedPlacements)
    ensures
        r@.dom() == recorded@.dom(),
        forall|k: Seq<char>| #[trigger]
            r@.contains_key(k) ==> r@[k] == existing_dirs(
                recorded@[k].deep_view(),
                project_dir@,
                path_views(existing@).to_set(),
            ),
{
    let ghost set = path_views(existing@).to_set();
    let mut out: StrMap<Vec<FsPath>> = StrMap::new();
    let total = recorded.len();
    let mut i: usize = 0;
    proof {
        lemma_all_keys(*recorded);
    }
    while i < total
        invariant
            i <= total,
            total == recorded.keys().len(),
            set == path_views(existing@).to_set(),
            forall|k: Seq<char>| #[trigger]
                out@.contains_key(k) <==> recorded.keys().take(i as int).contains(k),
            forall|k: Seq<char>| #[trigger]
                out@.contains_key(k) ==> path_views(out@[k]@) == existing_dirs(
                    recorded@[k].deep_view(),
                    project_dir@,
                    set,
                ),
        decreases total - i,
    {
        let key = recorded.key_at(i);
        let dirs = restore_dirs(project_dir, recorded.value_at(i), existing);
        out.insert(key.to_owned(), dirs);
        proof {
            lemma_first_keys(recorded.keys(), i as int);
        }
        i += 1;
    }
    proof {
        lemma_all_keys(*recorded);
    }
    let r = HoistedPlacements::from_package_dirs(out);
    proof {
        assert(r@.dom() =~= recorded@.dom());
    }
    r
}

/// A prefix of a listing groups as it does on its own.
proof fn lemma_grouped_prefix(
    a: Seq<(Seq<char>, Seq<Seq<char>>)>,
    b: Seq<(Seq<char>, Seq<Seq<char>>)>,
    project: Seq<Seq<char>>,
    n: int,
)
    requires
        0 <= n <= a.len(),
    ensures
        grouped(a + b, project, n) == grouped(a, project, n),
    decreases n,
{
    if n > 0 {
        lemma_grouped_prefix(a, b, project, n - 1);
        assert((a + b)[n - 1] == a[n - 1]);
    }
}

/// The directories of one more key make one more group.
proof fn lemma_grouped_append(
    a: Seq<(Seq<char>, Seq<Seq<char>>)>,
    key: Seq<char>,
    dirs: Seq<Seq<Seq<char>>>,
    project: Seq<Seq<char>>,
    n: int,
)
    requires
        0 <= n <= dirs.len(),
        !grouped(a, project, a.len() as int).contains_key(key),
    ensures
        ({
            let before = grouped(a, project, a.len() as int);
            grouped(a + paired(key, dirs), project, a.len() + n) == if n == 0 {
                before
            } else {
                before.insert(key, dir_texts(dirs.take(n), project))
            }
        }),
    decreases n,
{
    let pairs = a + paired(key, dirs);
    let before = grouped(a, project, a.len() as int);
    if n == 0 {
        lemma_grouped_prefix(a, paired(key, dirs), project, a.len() as int);
    } else {
        lemma_grouped_append(a, key, dirs, project, n - 1);
        assert(pairs[a.len() + n - 1] == (key, dirs[n - 1]));
        let m = grouped(pairs, project, a.len() + n - 1);
        let texts_now = dir_texts(dirs.take(n), project);
        let texts_was = dir_texts(dirs.take(n - 1), project);
        assert(texts_now =~= texts_was.push(relative_text(dirs[n - 1], project)));
        if n == 1 {
            assert(texts_was =~= Seq::<Seq<char>>::empty());
        }
        assert(grouped(pairs, project, a.len() + n) =~= before.insert(key, texts_now));
    }
}

/// Grouping a listing gives back what was listed.
proof fn lemma_grouped_flattened(
    keys: Seq<Seq<char>>,
    m: Map<Seq<char>, Seq<Seq<Seq<char>>>>,
    project: Seq<Seq<char>>,
)
    requires
        keys.no_duplicates(),
    ensures
        ({
            let pairs = flattened(keys, m);
            let g = grouped(pairs, project, pairs.len() as int);
            forall|k: Seq<char>| #![trigger g.contains_key(k)]
                (g.contains_key(k) <==> keys.contains(k) && m[k].len() > 0) && (g.contains_key(k) ==> g[k]
                    == dir_texts(m[k], project))
        }),
    decreases keys.len(),
{
    let pairs = flattened(keys, m);
    let g = grouped(pairs, project, pairs.len() as int);
    if keys.len() > 0 {
        let front = keys.drop_last();
        let key = keys.last();
        let a = flattened(front, m);
        let before = grouped(a, project, a.len() as int);
        assert(front.no_duplicates()) by {
            assert forall|i: int, j: int| 0 <= i < front.len() && 0 <= j < front.len() && i != j implies front[i]
                != front[j] by {
                assert(keys[i] != keys[j]);
            }
        }
        lemma_grouped_flattened(front, m, project);
        assert(!front.contains(key)) by {
            if front.contains(key) {
                let i = choose|i: int| 0 <= i < front.len() && front[i] == key;
                assert(keys[i] != keys[keys.len() - 1]);
            }
        }
        assert(!before.contains_key(key));
        lemma_grouped_append(a, key, m[key], project, m[key].len() as int);
        assert(m[key].take(m[key].len() as int) =~= m[key]);
        assert forall|k: Seq<char>| #![trigger g.contains_key(k)]
            (g.contains_key(k) <==> keys.contains(k) && m[k].len() > 0) && (g.contains_key(k) ==> g[k]
                == dir_texts(m[k], project)) by {
            assert(before.contains_key(k) <==> front.contains(k) && m[k].len() > 0);
            assert(keys.contains(k) <==> front.contains(k) || k == key) by {
                if front.contains(k) {
                    let i = choose|i: int| 0 <= i < front.len() && front[i] == k;
                    assert(keys[i] == k);
                }
                if k == key {
                    assert(keys[keys.len() - 1] == k);
                } else if keys.contains(k) {
                    let i = choose|i: int| 0 <= i < keys.len() && keys[i] == k;
                    assert(front[i] == k);
                }
            }
        }
    }
}

/// Directories that exist and are found again come back from their texts.
proof fn lemma_dirs_come_back(
    dirs: Seq<Seq<Seq<char>>>,
    project: Seq<Seq<char>>,
    existing: Set<Seq<Seq<char>>>,
)
    requires
        forall|i: int|
            0 <= i < dirs.len() ==> existing.contains(#[trigger] dirs[i]) && path_joined(
                project,
                relative_text(dirs[i], project),
            ) == dirs[i],
    ensures
        existing_dirs(dir_texts(dirs, project), project, existing) == dirs,
    decreases dirs.len(),
{
    if dirs.len() > 0 {
        let front = dirs.drop_last();
        assert forall|i: int| 0 <= i < front.len() implies existing.contains(#[trigger] front[i]) && path_joined(
            project,
            relative_text(front[i], project),
        ) == front[i] by {
            assert(front[i] == dirs[i]);
        }
        lemma_dirs_come_back(front, project, existing);
        assert(dir_texts(dirs, project).drop_last() =~= dir_texts(front, project));
        assert(dir_texts(dirs, project).last() == relative_text(dirs[dirs.len() - 1], project));
        assert(front.push(dirs.last()) =~= dirs);
    }
}

/// Placements that are recorded and read back are the same: every copy of
/// every package, in the order in which it was placed, so long as the
/// directories are still there and inside the project.
#[verifier::spinoff_prover]
pub proof fn law_recorded_placements_come_back(
    keys: Seq<Seq<char>>,
    m: Map<Seq<char>, Seq<Seq<Seq<char>>>>,
    project: Seq<Seq<char>>,
    existing: Set<Seq<Seq<char>>>,
    key: Seq<char>,
)
    requires
        keys.no_duplicates(),
        keys.contains(key),
        m[key].len() > 0,
        path_wf(project),
        forall|i: int|
            0 <= i < m[key].len() ==> path_wf(#[trigger] m[key][i]) && existing.contains(m[key][i]) && plainly_under(
                m[key][i],
                project,
            ),
    ensures
        ({
            let pairs = flattened(keys, m);
            let recorded = grouped(pairs, project, pairs.len() as int);
            recorded.contains_key(key) && existing_dirs(recorded[key], project, existing) == m[key]
        }),
{
    let pairs = flattened(keys, m);
    let recorded = grouped(pairs, project, pairs.len() as int);
    lemma_grouped_flattened(keys, m, project);
    assert(recorded.contains_key(key) <==> keys.contains(key) && m[key].len() > 0);
    assert(recorded[key] == dir_texts(m[key], project));
    assert forall|i: int| 0 <= i < m[key].len() implies existing.contains(#[trigger] m[key][i]) && path_joined(
        project,
        relative_text(m[key][i], project),
    ) == m[key][i] by {
        law_recorded_path_is_found_again(m[key][i], project);
    }
    lemma_dirs_come_back(m[key], project, existing);
}

/// The keys of which something is listed.
pub open spec fn listed_keys(keys: Seq<Seq<char>>, m: Map<Seq<char>, Seq<Seq<Seq<char>>>>) -> Seq<Seq<char>>
    decreases keys.len(),
{
    if keys.len() == 0 {
        Seq::empty()
    } else if m[keys.last()].len() > 0 {
        listed_keys(keys.drop_last(), m).push(keys.last())
    } else {
        listed_keys(keys.drop_last(), m)
    }
}

/// The keys of which something is listed stay in order.
proof fn lemma_listed_keys(keys: Seq<Seq<char>>, m: Map<Seq<char>, Seq<Seq<Seq<char>>>>)
    requires
        increasing(keys),
    ensures
        increasing(listed_keys(keys, m)),
        forall|k: Seq<char>| #[trigger]
            listed_keys(keys, m).contains(k) <==> keys.contains(k) && m[k].len() > 0,
    decreases keys.len(),
{
    if keys.len() > 0 {
        let front = keys.drop_last();
        let key = keys.last();
        assert forall|i: int, j: int| 0 <= i < j < front.len() implies #[trigger] before(front[i], front[j]) by {
            assert(before(keys[i], keys[j]));
        }
        lemma_listed_keys(front, m);
        let rest = listed_keys(front, m);
        let all = listed_keys(keys, m);
        assert forall|k: Seq<char>| keys.contains(k) <==> front.contains(k) || k == key by {
            if front.contains(k) {
                let i = choose|i: int| 0 <= i < front.len() && front[i] == k;
                assert(keys[i] == k);
            }
            if k == key {
                assert(keys[keys.len() - 1] == k);
            } else if keys.contains(k) {
                let i = choose|i: int| 0 <= i < keys.len() && keys[i] == k;
                assert(front[i] == k);
            }
        }
        assert forall|k: Seq<char>| #[trigger] all.contains(k) <==> keys.contains(k) && m[k].len() > 0 by {
            if rest.contains(k) {
                let i = choose|i: int| 0 <= i < rest.len() && rest[i] == k;
                assert(all[i] == k);
            }
            if all.contains(k) {
                let i = choose|i: int| 0 <= i < all.len() && all[i] == k;
                if i < rest.len() {
                    assert(rest[i] == k);
                }
            }
            if k == key && m[key].len() > 0 {
                assert(all[all.len() - 1] == k);
            }
            assert(rest.contains(k) <==> front.contains(k) && m[k].len() > 0);
        }
        assert forall|i: int, j: int| 0 <= i < j < all.len() implies #[trigger] before(all[i], all[j]) by {
            assert(all[i] == rest[i]);
            if j < rest.len() {
                assert(before(rest[i], rest[j]));
            } else {
                assert(rest.contains(rest[i]));
                let a = choose|a: int| 0 <= a < front.len() && front[a] == rest[i];
                assert(before(keys[a], keys[keys.len() - 1]));
            }
        }
    }
}

/// Keys of which nothing is listed leave no trace in a listing.
proof fn lemma_listing_of_listed(
    keys: Seq<Seq<char>>,
    m: Map<Seq<char>, Seq<Seq<Seq<char>>>>,
    q: Map<Seq<char>, Seq<Seq<Seq<char>>>>,
)
    requires
        forall|i: int| 0 <= i < keys.len() && m[keys[i]].len() > 0 ==> q[#[trigger] keys[i]] == m[keys[i]],
    ensures
        flattened(listed_keys(keys, m), q) == flattened(keys, m),
    decreases keys.len(),
{
    if keys.len() > 0 {
        let front = keys.drop_last();
        let key = keys.last();
        assert(keys[keys.len() - 1] == key);
        assert forall|i: int| 0 <= i < front.len() && m[front[i]].len() > 0 implies q[#[trigger] front[i]]
            == m[front[i]] by {
            assert(front[i] == keys[i]);
        }
        lemma_listing_of_listed(front, m, q);
        let rest = listed_keys(front, m);
        if m[key].len() > 0 {
            assert(rest.push(key).drop_last() =~= rest);
        } else {
            assert(paired(key, m[key]) =~= Seq::<(Seq<char>, Seq<Seq<char>>)>::empty());
            assert(flattened(front, m) + paired(key, m[key]) =~= flattened(front, m));
        }
    }
}

/// What is recorded of a listing and read back lists the same: every package
/// with every directory, in the same order, conflicting versions among them, so
/// long as the directories are still there and inside the project.
pub proof fn law_recorded_listing_comes_back(
    keys: Seq<Seq<char>>,
    m: Map<Seq<char>, Seq<Seq<Seq<char>>>>,
    project: Seq<Seq<char>>,
    existing: Set<Seq<Seq<char>>>,
    read_keys: Seq<Seq<char>>,
    read: Map<Seq<char>, Seq<Seq<Seq<char>>>>,
)
    requires
        increasing(keys),
        keys.to_set() == m.dom(),
        increasing(read_keys),
        read_keys.to_set() == read.dom(),
        reads_back(listing_record(flattened(keys, m), project), project, existing, read),
        path_wf(project),
        forall|k: Seq<char>, i: int|
            #![trigger m[k][i]]
            m.contains_key(k) && 0 <= i < m[k].len() ==> path_wf(m[k][i]) && existing.contains(m[k][i])
                && plainly_under(m[k][i], project),
    ensures
        flattened(read_keys, read) == flattened(keys, m),
{
    let recorded = listing_record(flattened(keys, m), project);
    lemma_increasing_distinct(keys);
    lemma_grouped_flattened(keys, m, project);
    lemma_listed_keys(keys, m);
    assert forall|k: Seq<char>| read_keys.contains(k) <==> listed_keys(keys, m).contains(k) by {
        assert(read_keys.to_set().contains(k) == read.dom().contains(k));
        assert(read.dom().contains(k) == recorded.dom().contains(k));
        assert(recorded.contains_key(k) <==> keys.contains(k) && m[k].len() > 0);
    }
    lemma_increasing_unique(read_keys, listed_keys(keys, m));
    assert forall|i: int| 0 <= i < keys.len() && m[keys[i]].len() > 0 implies read[#[trigger] keys[i]]
        == m[keys[i]] by {
        let key = keys[i];
        assert(keys.contains(key));
        assert(keys.to_set().contains(key));
        assert(m.contains_key(key));
        law_recorded_placements_come_back(keys, m, project, existing, key);
        assert(recorded.contains_key(key));
        assert(recorded.dom().contains(key));
        assert(read.contains_key(key));
    }
    lemma_listing_of_listed(keys, m, read);
}

/// The map of pairs whose keys are in order has each of them.
proof fn lemma_as_map(pairs: Seq<(Seq<char>, Seq<Seq<char>>)>)
    requires
        increasing(pair_keys(pairs)),
    ensures
        forall|k: Seq<char>| #[trigger] as_map(pairs).contains_key(k) <==> pair_keys(pairs).contains(k),
        forall|i: int| 0 <= i < pairs.len() ==> as_map(pairs)[(#[trigger] pairs[i]).0] == pairs[i].1,
    decreases pairs.len(),
{
    let keys = pair_keys(pairs);
    lemma_increasing_distinct(keys);
    if pairs.len() > 0 {
        let front = pairs.drop_last();
        let last = pairs.last();
        let front_keys = pair_keys(front);
        assert(front_keys =~= keys.drop_last());
        assert forall|i: int, j: int| 0 <= i < j < front_keys.len() implies before(
            #[trigger] front_keys[i],
            #[trigger] front_keys[j],
        ) by {
            assert(before(keys[i], keys[j]));
        }
        lemma_as_map(front);
        assert(keys[keys.len() - 1] == last.0);
        assert forall|k: Seq<char>| #[trigger] as_map(pairs).contains_key(k) <==> keys.contains(k) by {
            assert(as_map(front).contains_key(k) <==> front_keys.contains(k));
            if front_keys.contains(k) {
                let i = choose|i: int| 0 <= i < front_keys.len() && front_keys[i] == k;
                assert(keys[i] == k);
            }
            if keys.contains(k) && k != last.0 {
                let i = choose|i: int| 0 <= i < keys.len() && keys[i] == k;
                assert(front_keys[i] == k);
            }
        }
        assert forall|i: int| 0 <= i < pairs.len() implies as_map(pairs)[(#[trigger] pairs[i]).0] == pairs[i].1 by {
            if i < front.len() {
                assert(front[i] == pairs[i]);
                assert(keys[i] != keys[keys.len() - 1]);
            }
        }
    }
}

/// The pairs that are recorded make up the record.
proof fn lemma_record_as_map(keys: Seq<Seq<char>>, m: Map<Seq<char>, Seq<Seq<Seq<char>>>>, project: Seq<Seq<char>>)
    requires
        increasing(keys),
    ensures
        as_map(record_pairs(keys, m, project)) == listing_record(flattened(keys, m), project),
{
    let pairs = record_pairs(keys, m, project);
    let listed = listed_keys(keys, m);
    let g = listing_record(flattened(keys, m), project);
    lemma_increasing_distinct(keys);
    lemma_grouped_flattened(keys, m, project);
    lemma_listed_keys(keys, m);
    assert(pair_keys(pairs) =~= listed);
    lemma_as_map(pairs);
    assert forall|k: Seq<char>| #[trigger] as_map(pairs).contains_key(k) implies as_map(pairs)[k] == g[k] by {
        assert(listed.contains(k));
        let i = choose|i: int| 0 <= i < listed.len() && listed[i] == k;
        assert(pairs[i].0 == k);
        assert(g.contains_key(k));
    }
    assert forall|k: Seq<char>| as_map(pairs).contains_key(k) <==> g.contains_key(k) by {
        assert(as_map(pairs).contains_key(k) <==> listed.contains(k));
    }
    assert(as_map(pairs) =~= g);
}

/// The file that placements are written to lists, when it is read, the same:
/// every package with every directory, in the same order, conflicting versions
/// among them, so long as the directories are still there and inside the
/// project.
pub proof fn law_written_listing_comes_back(
    keys: Seq<Seq<char>>,
    m: Map<Seq<char>, Seq<Seq<Seq<char>>>>,
    project: Seq<Seq<char>>,
    existing: Set<Seq<Seq<char>>>,
    bytes: Seq<u8>,
    read_keys: Seq<Seq<char>>,
    read: Map<Seq<char>, Seq<Seq<Seq<char>>>>,
)
    requires
        increasing(keys),
        keys.to_set() == m.dom(),
        increasing(read_keys),
        read_keys.to_set() == read.dom(),
        json_pairs(bytes) == Some(record_pairs(keys, m, project)),
        reads_back(as_map(json_pairs(bytes)->0), project, existing, read),
        path_wf(project),
        forall|k: Seq<char>, i: int|
            #![trigger m[k][i]]
            m.contains_key(k) && 0 <= i < m[k].len() ==> path_wf(m[k][i]) && existing.contains(m[k][i])
                && plainly_under(m[k][i], project),
    ensures
        flattened(read_keys, read) == flattened(keys, m),
{
    lemma_record_as_map(keys, m, project);
    law_recorded_listing_comes_back(keys, m, project, existing, read_keys, read);
}

} // verus!
