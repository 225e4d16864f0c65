//! Which version of a package should get the workspace root's slot.
//!
//! A direct dependency of the root wins. Otherwise it is the version with the
//! most distinct dependents and peer dependents, and among equals the one that
//! is mentioned first.
use crate::fs_path::FsPath;
use crate::graph::{child_dep_path, LockfileGraph};
use crate::hoisted::planner::{known_deps, needs, reaches_root, root_reachable, HoistedWorkspaceImporter, ImporterView, importer_views};
use crate::str_map::{lemma_entry, text_map, StrMap, StrSet};
use crate::text::{concat, decimal, decimal_text, same_text};
use std::collections::VecDeque;
use vstd::prelude::*;

verus! {

/// A dependent names a package that it needs.
pub struct MentionView {
    pub name: Seq<char>,
    pub dep_path: Seq<char>,
    pub dependent: Seq<char>,
    pub peer: bool,
}

/// A dependent names a package that it needs.
#[derive(Debug)]
struct Mention {
    name: String,
    dep_path: String,
    dependent: String,
    peer: bool,
}

impl View for Mention {
    type V = MentionView;

    closed spec fn view(&self) -> MentionView {
        MentionView { name: self.name@, dep_path: self.dep_path@, dependent: self.dependent@, peer: self.peer }
    }
}

/// The key is that of a live link.
pub open spec fn is_link_key(graph: LockfileGraph, dep_path: Seq<char>) -> bool {
    graph.packages@.contains_key(dep_path) && graph.packages@[dep_path].is_link()
}

/// What importer number `idx` goes by among the dependents.
pub open spec fn importer_label(idx: nat) -> Seq<char> {
    "workspace:"@ + decimal_text(idx)
}

/// What the first `n` direct dependencies of an importer mention. A link that
/// is not the root's own stays with its importer and is left out.
pub open spec fn importer_mentions(
    importer: ImporterView,
    graph: LockfileGraph,
    is_root: bool,
    label: Seq<char>,
    n: int,
) -> Seq<MentionView>
    decreases n,
{
    if n <= 0 {
        Seq::empty()
    } else {
        let rest = importer_mentions(importer, graph, is_root, label, n - 1);
        let dep = importer.dependencies[n - 1];
        if is_link_key(graph, dep.dep_path@) && !is_root {
            rest
        } else {
            rest.push(MentionView { name: dep.name@, dep_path: dep.dep_path@, dependent: label, peer: false })
        }
    }
}

/// What the importers mention from which module lookup comes past the root.
pub open spec fn direct_mentions(
    root_nm: Seq<Seq<char>>,
    importers: Seq<ImporterView>,
    graph: LockfileGraph,
) -> Seq<MentionView>
    decreases importers.len(),
{
    if importers.len() == 0 {
        Seq::empty()
    } else {
        let rest = direct_mentions(root_nm, importers.drop_last(), graph);
        let importer = importers.last();
        if root_reachable(root_nm, importer.modules_dir) {
            rest + importer_mentions(
                importer,
                graph,
                importer.modules_dir == root_nm,
                importer_label((importers.len() - 1) as nat),
                importer.dependencies.len() as int,
            )
        } else {
            rest
        }
    }
}

/// The first `n` direct dependencies of the root over what came before.
pub open spec fn with_root_deps(
    known: Map<Seq<char>, Seq<char>>,
    importer: ImporterView,
    n: int,
) -> Map<Seq<char>, Seq<char>>
    decreases n,
{
    if n <= 0 {
        known
    } else {
        let dep = importer.dependencies[n - 1];
        with_root_deps(known, importer, n - 1).insert(dep.name@, dep.dep_path@)
    }
}

/// The direct dependencies of the workspace root, by name.
pub open spec fn root_direct(root_nm: Seq<Seq<char>>, importers: Seq<ImporterView>) -> Map<
    Seq<char>,
    Seq<char>,
>
    decreases importers.len(),
{
    if importers.len() == 0 {
        Map::empty()
    } else {
        let rest = root_direct(root_nm, importers.drop_last());
        let importer = importers.last();
        if root_reachable(root_nm, importer.modules_dir) && importer.modules_dir == root_nm {
            with_root_deps(rest, importer, importer.dependencies.len() as int)
        } else {
            rest
        }
    }
}

/// The packages to look into after the direct mentions.
pub open spec fn to_expand(mentions: Seq<MentionView>, graph: LockfileGraph) -> Seq<Seq<char>>
    decreases mentions.len(),
{
    if mentions.len() == 0 {
        Seq::empty()
    } else {
        let rest = to_expand(mentions.drop_last(), graph);
        if is_link_key(graph, mentions.last().dep_path) {
            rest
        } else {
            rest.push(mentions.last().dep_path)
        }
    }
}

/// What a package mentions.
pub open spec fn package_mentions(graph: LockfileGraph, dep_path: Seq<char>) -> Seq<MentionView> {
    needs(graph, dep_path).map_values(
        |d: (Seq<char>, Seq<char>)|
            MentionView {
                name: d.0,
                dep_path: d.1,
                dependent: dep_path,
                peer: graph.packages@[dep_path].peer_dependencies@.contains_key(d.0),
            },
    )
}

/// How many packages have not been looked into.
pub open spec fn unexpanded(graph: LockfileGraph, expanded: Set<Seq<char>>) -> nat {
    graph.packages.keys().to_set().difference(expanded).len()
}

/// Looking into one more package never raises the number that is left, and
/// lowers it for a new package of the graph.
pub proof fn lemma_unexpanded(graph: LockfileGraph, expanded: Set<Seq<char>>, p: Seq<char>)
    ensures
        unexpanded(graph, expanded.insert(p)) <= unexpanded(graph, expanded),
        graph.packages@.contains_key(p) && !expanded.contains(p) ==> unexpanded(graph, expanded.insert(p))
            < unexpanded(graph, expanded),
{
    broadcast use vstd::seq_lib::seq_to_set_is_finite;

    let keys = graph.packages.keys().to_set();
    assert(keys.difference(expanded.insert(p)) =~= keys.difference(expanded).remove(p));
    if graph.packages@.contains_key(p) && !expanded.contains(p) {
        assert(keys.contains(p));
        assert(keys.difference(expanded).contains(p));
    } else if !keys.difference(expanded).contains(p) {
        assert(keys.difference(expanded).remove(p) =~= keys.difference(expanded));
    }
}

/// What the packages mention that are reached from `pending`, each looked into once.
pub open spec fn reached_mentions(graph: LockfileGraph, pending: Seq<Seq<char>>, expanded: Set<Seq<char>>) -> Seq<
    MentionView,
>
    decreases unexpanded(graph, expanded), pending.len(),
    via reached_mentions_decreases
{
    if pending.len() == 0 {
        Seq::empty()
    } else {
        let p = pending[0];
        let rest = pending.drop_first();
        if expanded.contains(p) {
            reached_mentions(graph, rest, expanded)
        } else {
            let found = package_mentions(graph, p);
            found + reached_mentions(
                graph,
                rest + found.map_values(|m: MentionView| m.dep_path),
                expanded.insert(p),
            )
        }
    }
}

#[via_fn]
proof fn reached_mentions_decreases(graph: LockfileGraph, pending: Seq<Seq<char>>, expanded: Set<Seq<char>>) {
    if pending.len() > 0 {
        let p = pending[0];
        lemma_unexpanded(graph, expanded, p);
        if !graph.packages@.contains_key(p) {
            let found = package_mentions(graph, p);
            assert(found.len() == 0);
        }
    }
}

/// Everything that is mentioned in a workspace, in the order of discovery.
pub open spec fn mentions(
    root_nm: Seq<Seq<char>>,
    importers: Seq<ImporterView>,
    graph: LockfileGraph,
) -> Seq<MentionView> {
    let direct = direct_mentions(root_nm, importers, graph);
    direct + reached_mentions(graph, to_expand(direct, graph), Set::empty())
}

/// The mention is of that package under that name.
pub open spec fn is_of(m: MentionView, name: Seq<char>, dep_path: Seq<char>) -> bool {
    m.name == name && m.dep_path == dep_path
}

/// The distinct dependents, or peer dependents, of a package under a name.
pub open spec fn dependents(ms: Seq<MentionView>, name: Seq<char>, dep_path: Seq<char>, peer: bool) -> Set<Seq<char>>
    decreases ms.len(),
{
    if ms.len() == 0 {
        Set::empty()
    } else {
        let rest = dependents(ms.drop_last(), name, dep_path, peer);
        if is_of(ms.last(), name, dep_path) && ms.last().peer == peer {
            rest.insert(ms.last().dependent)
        } else {
            rest
        }
    }
}

/// How many distinct dependents and peer dependents a package has under a name.
pub open spec fn usages(ms: Seq<MentionView>, name: Seq<char>, dep_path: Seq<char>) -> nat {
    dependents(ms, name, dep_path, false).len() + dependents(ms, name, dep_path, true).len()
}

/// The index of the first mention of a package under a name, or the number of
/// mentions when there is none.
pub open spec fn first_mention(ms: Seq<MentionView>, name: Seq<char>, dep_path: Seq<char>) -> int
    decreases ms.len(),
{
    if ms.len() == 0 {
        0
    } else {
        let r = first_mention(ms.drop_last(), name, dep_path);
        if r < ms.len() - 1 || is_of(ms.last(), name, dep_path) {
            r
        } else {
            ms.len() as int
        }
    }
}

/// The package is mentioned under the name.
pub open spec fn mentioned(ms: Seq<MentionView>, name: Seq<char>, dep_path: Seq<char>) -> bool {
    first_mention(ms, name, dep_path) < ms.len()
}

/// Some package is mentioned under the name.
pub open spec fn name_mentioned(ms: Seq<MentionView>, name: Seq<char>) -> bool {
    exists|dep_path: Seq<char>| mentioned(ms, name, dep_path)
}

/// `a` comes before `b` as a candidate: it is used more, or as much and is mentioned earlier.
pub open spec fn ranks_before(ms: Seq<MentionView>, name: Seq<char>, a: Seq<char>, b: Seq<char>) -> bool {
    ||| usages(ms, name, a) > usages(ms, name, b)
    ||| usages(ms, name, a) == usages(ms, name, b) && first_mention(ms, name, a) < first_mention(ms, name, b)
}

/// The package is the best candidate for a name.
pub open spec fn is_best(ms: Seq<MentionView>, name: Seq<char>, dep_path: Seq<char>) -> bool {
    &&& mentioned(ms, name, dep_path)
    &&& forall|other: Seq<char>|
        mentioned(ms, name, other) && other != dep_path ==> #[trigger] ranks_before(ms, name, dep_path, other)
}

/// The preferred package for each name.
pub open spec fn workspace_preferences(
    root_nm: Seq<Seq<char>>,
    importers: Seq<ImporterView>,
    graph: LockfileGraph,
) -> Map<Seq<char>, Seq<char>> {
    let ms = mentions(root_nm, importers, graph);
    let direct = root_direct(root_nm, importers);
    Map::new(
        |name: Seq<char>| direct.contains_key(name) || name_mentioned(ms, name),
        |name: Seq<char>|
            if direct.contains_key(name) {
                direct[name]
            } else {
                choose|dep_path: Seq<char>| is_best(ms, name, dep_path)
            },
    )
}

/// There is at most one best candidate.
proof fn lemma_best_unique(ms: Seq<MentionView>, name: Seq<char>, a: Seq<char>, b: Seq<char>)
    requires
        is_best(ms, name, a),
        is_best(ms, name, b),
    ensures
        a == b,
{
    if a != b {
        assert(ranks_before(ms, name, a, b));
        assert(ranks_before(ms, name, b, a));
    }
}

/// Dependents are finitely many, no more than there are mentions.
proof fn lemma_usages_bound(ms: Seq<MentionView>, name: Seq<char>, dep_path: Seq<char>)
    ensures
        dependents(ms, name, dep_path, false).finite(),
        dependents(ms, name, dep_path, true).finite(),
        usages(ms, name, dep_path) <= ms.len(),
    decreases ms.len(),
{
    if ms.len() > 0 {
        lemma_usages_bound(ms.drop_last(), name, dep_path);
    }
}

/// A direct dependency of the workspace root is preferred, whatever else is used.
pub proof fn law_root_direct_wins(
    root_nm: Seq<Seq<char>>,
    importers: Seq<ImporterView>,
    graph: LockfileGraph,
    name: Seq<char>,
)
    requires
        root_direct(root_nm, importers).contains_key(name),
    ensures
        workspace_preferences(root_nm, importers, graph).contains_key(name),
        workspace_preferences(root_nm, importers, graph)[name] == root_direct(root_nm, importers)[name],
{
}

proof fn lemma_best_exists(ms: Seq<MentionView>, name: Seq<char>, n: int) -> (best: Seq<char>)
    requires
        0 < n <= ms.len(),
        exists|i: int| 0 <= i < n && (#[trigger] ms[i]).name == name,
    ensures
        exists|i: int| 0 <= i < n && is_of(#[trigger] ms[i], name, best),
        forall|i: int|
            0 <= i < n && (#[trigger] ms[i]).name == name && ms[i].dep_path != best ==> ranks_before(
                ms,
                name,
                best,
                ms[i].dep_path,
            ),
    decreases n,
{
    let here = ms[n - 1];
    if exists|i: int| 0 <= i < n - 1 && (#[trigger] ms[i]).name == name {
        let best = lemma_best_exists(ms, name, n - 1);
        let k = choose|i: int| 0 <= i < n - 1 && is_of(#[trigger] ms[i], name, best);
        assert(is_of(ms[k], name, best));
        if here.name == name && here.dep_path != best && !ranks_before(ms, name, best, here.dep_path) {
            lemma_first_mention(ms, name, best, k);
            lemma_first_mention(ms, name, here.dep_path, n - 1);
            assert(is_of(ms[n - 1], name, here.dep_path));
            assert forall|i: int|
                0 <= i < n && (#[trigger] ms[i]).name == name && ms[i].dep_path != here.dep_path implies ranks_before(
                ms,
                name,
                here.dep_path,
                ms[i].dep_path,
            ) by {
                if ms[i].dep_path != best {
                    assert(ranks_before(ms, name, best, ms[i].dep_path));
                }
            }
            here.dep_path
        } else {
            best
        }
    } else {
        assert(is_of(ms[n - 1], name, here.dep_path));
        here.dep_path
    }
}

/// What the first mention is.
pub proof fn lemma_first_mention(ms: Seq<MentionView>, name: Seq<char>, dep_path: Seq<char>, i: int)
    ensures
        0 <= first_mention(ms, name, dep_path) <= ms.len(),
        mentioned(ms, name, dep_path) ==> is_of(ms[first_mention(ms, name, dep_path)], name, dep_path),
        0 <= i < ms.len() && is_of(ms[i], name, dep_path) ==> first_mention(ms, name, dep_path) <= i,
    decreases ms.len(),
{
    if ms.len() > 0 {
        lemma_first_mention(ms.drop_last(), name, dep_path, i);
    }
}

/// Where the root has no direct dependency of a name, the preferred package
/// has at least as many distinct dependents and peer dependents as any other
/// that is mentioned under it, and comes first among those with as many.
pub proof fn law_most_used_is_preferred(
    root_nm: Seq<Seq<char>>,
    importers: Seq<ImporterView>,
    graph: LockfileGraph,
    name: Seq<char>,
    other: Seq<char>,
)
    requires
        !root_direct(root_nm, importers).contains_key(name),
        mentioned(mentions(root_nm, importers, graph), name, other),
    ensures
        ({
            let ms = mentions(root_nm, importers, graph);
            let preferred = workspace_preferences(root_nm, importers, graph);
            &&& preferred.contains_key(name)
            &&& mentioned(ms, name, preferred[name])
            &&& usages(ms, name, other) <= usages(ms, name, preferred[name])
            &&& usages(ms, name, other) == usages(ms, name, preferred[name]) ==> first_mention(
                ms,
                name,
                preferred[name],
            ) <= first_mention(ms, name, other)
        }),
{
    let ms = mentions(root_nm, importers, graph);
    lemma_best_of_mentioned(ms, name, other);
    let best = choose|dep_path: Seq<char>| is_best(ms, name, dep_path);
    if other != best {
        assert(ranks_before(ms, name, best, other));
    }
}

/// A name that is mentioned has a best candidate.
proof fn lemma_best_of_mentioned(ms: Seq<MentionView>, name: Seq<char>, other: Seq<char>)
    requires
        mentioned(ms, name, other),
    ensures
        exists|dep_path: Seq<char>| is_best(ms, name, dep_path),
{
    lemma_first_mention(ms, name, other, 0);
    let f = first_mention(ms, name, other);
    assert(ms[f].name == name);
    let best = lemma_best_exists(ms, name, ms.len() as int);
    let k = choose|i: int| 0 <= i < ms.len() && is_of(#[trigger] ms[i], name, best);
    lemma_first_mention(ms, name, best, k);
    assert(is_best(ms, name, best)) by {
        assert forall|o: Seq<char>| mentioned(ms, name, o) && o != best implies #[trigger] ranks_before(
            ms,
            name,
            best,
            o,
        ) by {
            lemma_first_mention(ms, name, o, 0);
            let j = first_mention(ms, name, o);
            assert(ms[j].name == name && ms[j].dep_path == o);
        }
    }
}

/// The mentions of a list.
spec fn views(ms: Seq<Mention>) -> Seq<MentionView> {
    ms.map_values(|m: Mention| m@)
}

/// Add what the direct dependencies of an importer mention.
fn mention_direct(
    out: &mut Vec<Mention>,
    importer: &HoistedWorkspaceImporter,
    graph: &LockfileGraph,
    is_root: bool,
    label: &str,
)
    ensures
        views(final(out)@) == views(old(out)@) + importer_mentions(
            importer@,
            *graph,
            is_root,
            label@,
            importer.dependencies@.len() as int,
        ),
{
    let ghost was = views(out@);
    let mut i: usize = 0;
    proof {
        assert(was + importer_mentions(importer@, *graph, is_root, label@, 0) =~= was);
    }
    while i < importer.dependencies.len()
        invariant
            i <= importer.dependencies@.len(),
            views(out@) == was + importer_mentions(importer@, *graph, is_root, label@, i as int),
        decreases importer.dependencies.len() - i,
    {
        let dep = &importer.dependencies[i];
        let ghost done = importer_mentions(importer@, *graph, is_root, label@, i as int);
        let ghost before_push = out@;
        let is_link = match graph.packages.get(dep.dep_path.as_str()) {
            Some(pkg) => pkg.links(),
            None => false,
        };
        if !(is_link && !is_root) {
            let m = Mention {
                name: dep.name.clone(),
                dep_path: dep.dep_path.clone(),
                dependent: label.to_owned(),
                peer: false,
            };
            let ghost v = m@;
            out.push(m);
            proof {
                assert(views(out@) =~= views(before_push).push(v));
                assert(was + done.push(v) =~= (was + done).push(v));
            }
        }
        i += 1;
    }
}

/// Note the direct dependencies of the root.
fn note_root_deps(known: &mut StrMap<String>, importer: &HoistedWorkspaceImporter)
    ensures
        text_map(*final(known)) == with_root_deps(
            text_map(*old(known)),
            importer@,
            importer.dependencies@.len() as int,
        ),
{
    let ghost was = text_map(*known);
    let mut i: usize = 0;
    while i < importer.dependencies.len()
        invariant
            i <= importer.dependencies@.len(),
            text_map(*known) == with_root_deps(was, importer@, i as int),
        decreases importer.dependencies.len() - i,
    {
        let dep = &importer.dependencies[i];
        let ghost before_insert = text_map(*known);
        known.insert(dep.name.clone(), dep.dep_path.clone());
        proof {
            assert(text_map(*known) =~= before_insert.insert(dep.name@, dep.dep_path@));
        }
        i += 1;
    }
}

/// Add what a package mentions, and queue what it mentions.
fn mention_package(
    out: &mut Vec<Mention>,
    pending: &mut VecDeque<String>,
    graph: &LockfileGraph,
    dep_path: &str,
)
    ensures
        views(final(out)@) == views(old(out)@) + package_mentions(*graph, dep_path@),
        crate::text::texts(final(pending)@) == crate::text::texts(old(pending)@) + package_mentions(
            *graph,
            dep_path@,
        ).map_values(|m: MentionView| m.dep_path),
{
    let ghost was = views(out@);
    let ghost queued = crate::text::texts(pending@);
    let ghost key = |m: MentionView| m.dep_path;
    let ghost all = package_mentions(*graph, dep_path@);
    let pkg = match graph.packages.get(dep_path) {
        Some(pkg) => pkg,
        None => {
            proof {
                assert(all.len() == 0);
                assert(was + all =~= was);
                assert(queued + all.map_values(key) =~= queued);
            }
            return;
        },
    };
    if pkg.links() {
        proof {
            assert(all.len() == 0);
            assert(was + all =~= was);
            assert(queued + all.map_values(key) =~= queued);
        }
        return;
    }
    let ghost make = |d: (Seq<char>, Seq<char>)|
        MentionView {
            name: d.0,
            dep_path: d.1,
            dependent: dep_path@,
            peer: pkg.peer_dependencies@.contains_key(d.0),
        };
    let total = pkg.dependencies.len();
    let mut i: usize = 0;
    proof {
        let none = known_deps(*graph, pkg.dependencies, 0).map_values(make);
        assert(was + none =~= was);
        assert(queued + none.map_values(key) =~= queued);
    }
    while i < total
        invariant
            i <= total,
            total == pkg.dependencies.keys().len(),
            key == (|m: MentionView| m.dep_path),
            make == (|d: (Seq<char>, Seq<char>)|
                MentionView {
                    name: d.0,
                    dep_path: d.1,
                    dependent: dep_path@,
                    peer: pkg.peer_dependencies@.contains_key(d.0),
                }),
            views(out@) == was + known_deps(*graph, pkg.dependencies, i as int).map_values(make),
            crate::text::texts(pending@) == queued + known_deps(*graph, pkg.dependencies, i as int).map_values(
                make,
            ).map_values(key),
        decreases total - i,
    {
        let name = pkg.dependencies.key_at(i);
        let edge = pkg.dependencies.value_at(i);
        let child = child_dep_path(name, edge);
        let ghost known = known_deps(*graph, pkg.dependencies, i as int);
        let ghost out_was = out@;
        let ghost pending_was = pending@;
        if graph.packages.contains_key(child.as_str()) {
            let ghost d = (name@, child@);
            let peer = pkg.peer_dependencies.contains_key(name);
            out.push(
                Mention {
                    name: name.to_owned(),
                    dep_path: child.clone(),
                    dependent: dep_path.to_owned(),
                    peer,
                },
            );
            pending.push_back(child);
            proof {
                let ms = known.map_values(make);
                let more = known.push(d).map_values(make);
                assert(more =~= ms.push(make(d)));
                assert(more.map_values(key) =~= ms.map_values(key).push(d.1));
                assert(views(out@) =~= views(out_was).push(make(d)));
                assert(crate::text::texts(pending@) =~= crate::text::texts(pending_was).push(d.1));
                assert(was + ms.push(make(d)) =~= (was + ms).push(make(d)));
                assert(queued + ms.map_values(key).push(d.1) =~= (queued + ms.map_values(key)).push(d.1));
            }
        }
        i += 1;
    }
    proof {
        assert(all =~= known_deps(*graph, pkg.dependencies, total as int).map_values(make));
    }
}

/// Everything that is mentioned in a workspace, and the root's direct dependencies.
fn collect_mentions(
    root_nm: &FsPath,
    importers: &Vec<HoistedWorkspaceImporter>,
    graph: &LockfileGraph,
) -> (r: (Vec<Mention>, StrMap<String>))
    ensures
        views(r.0@) == mentions(root_nm@, importer_views(importers@), *graph),
        text_map(r.1) == root_direct(root_nm@, importer_views(importers@)),
{
    let mut out: Vec<Mention> = Vec::new();
    let mut direct: StrMap<String> = StrMap::new();
    let ghost all = importer_views(importers@);
    let mut i: usize = 0;
    proof {
        assert(all.take(0) =~= Seq::<ImporterView>::empty());
        assert(views(out@) =~= Seq::<MentionView>::empty());
        assert(text_map(direct) =~= Map::<Seq<char>, Seq<char>>::empty());
    }
    while i < importers.len()
        invariant
            i <= importers@.len(),
            all == importer_views(importers@),
            views(out@) == direct_mentions(root_nm@, all.take(i as int), *graph),
            text_map(direct) == root_direct(root_nm@, all.take(i as int)),
        decreases importers.len() - i,
    {
        let importer = &importers[i];
        proof {
            assert(all.take(i + 1).drop_last() =~= all.take(i as int));
            assert(all.take(i + 1).last() == importer@);
        }
        if reaches_root(root_nm, &importer.modules_dir) {
            let is_root = importer.modules_dir.same(root_nm);
            let label = concat("workspace:", decimal(i).as_str());
            mention_direct(&mut out, importer, graph, is_root, label.as_str());
            if is_root {
                note_root_deps(&mut direct, importer);
            }
        }
        i += 1;
    }
    proof {
        assert(all.take(i as int) =~= all);
    }
    let pending = queue_direct(&out, graph);
    let ghost first = views(out@);
    proof {
        assert(first + reached_mentions(*graph, crate::text::texts(pending@), Set::empty()) =~= mentions(
            root_nm@,
            importer_views(importers@),
            *graph,
        ));
    }
    expand_mentions(&mut out, pending, graph);
    (out, direct)
}

/// The packages to look into after the direct mentions.
fn queue_direct(ms: &Vec<Mention>, graph: &LockfileGraph) -> (r: VecDeque<String>)
    ensures
        crate::text::texts(r@) == to_expand(views(ms@), *graph),
{
    let mut pending: VecDeque<String> = VecDeque::new();
    let ghost all = views(ms@);
    let mut i: usize = 0;
    proof {
        assert(crate::text::texts(pending@) =~= to_expand(all.take(0), *graph));
    }
    while i < ms.len()
        invariant
            i <= ms@.len(),
            all == views(ms@),
            crate::text::texts(pending@) == to_expand(all.take(i as int), *graph),
        decreases ms.len() - i,
    {
        let m = &ms[i];
        let ghost was = pending@;
        proof {
            assert(all.take(i + 1).drop_last() =~= all.take(i as int));
            assert(all.take(i + 1).last() == m@);
        }
        let is_link = match graph.packages.get(m.dep_path.as_str()) {
            Some(pkg) => pkg.links(),
            None => false,
        };
        if !is_link {
            pending.push_back(m.dep_path.clone());
            proof {
                assert(crate::text::texts(pending@) =~= crate::text::texts(was).push(m.dep_path@));
            }
        }
        i += 1;
    }
    proof {
        assert(all.take(i as int) =~= all);
    }
    pending
}

/// Look into every package that is reached from `pending`, each once.
fn expand_mentions(out: &mut Vec<Mention>, pending: VecDeque<String>, graph: &LockfileGraph)
    ensures
        views(final(out)@) == views(old(out)@) + reached_mentions(
            *graph,
            crate::text::texts(pending@),
            Set::empty(),
        ),
{
    let ghost goal = views(out@) + reached_mentions(*graph, crate::text::texts(pending@), Set::empty());
    let mut pending = pending;
    let mut expanded = StrSet::new();
    while pending.len() > 0
        invariant
            goal == views(out@) + reached_mentions(*graph, crate::text::texts(pending@), expanded@),
        decreases unexpanded(*graph, expanded@), pending@.len(),
    {
        let ghost queued = crate::text::texts(pending@);
        let ghost seen = expanded@;
        let ghost was = views(out@);
        let parent = pending.pop_front().unwrap();
        let ghost p = parent@;
        proof {
            assert(queued[0] == p);
            assert(crate::text::texts(pending@) =~= queued.drop_first());
            lemma_unexpanded(*graph, seen, p);
        }
        if !expanded.insert(parent.clone()) {
            proof {
                assert(expanded@ =~= seen);
            }
            continue;
        }
        mention_package(out, &mut pending, graph, parent.as_str());
        proof {
            let found = package_mentions(*graph, p);
            let later = reached_mentions(
                *graph,
                queued.drop_first() + found.map_values(|m: MentionView| m.dep_path),
                seen.insert(p),
            );
            assert(was + (found + later) =~= (was + found) + later);
            if !graph.packages@.contains_key(p) {
                assert(found.len() == 0);
            }
        }
    }
    proof {
        let rest = reached_mentions(*graph, crate::text::texts(pending@), expanded@);
        assert(rest.len() == 0);
        assert(views(out@) + rest =~= views(out@));
    }
}

/// A candidate: a package under a name, with those who need it.
#[derive(Debug)]
struct PreferenceEntry {
    name: String,
    dep_path: String,
    dependents: StrSet,
    peer_dependents: StrSet,
}

impl PreferenceEntry {
    /// The entry is what the mentions say of its package.
    spec fn records(self, ms: Seq<MentionView>) -> bool {
        &&& self.dependents@ == dependents(ms, self.name@, self.dep_path@, false)
        &&& self.peer_dependents@ == dependents(ms, self.name@, self.dep_path@, true)
        &&& mentioned(ms, self.name@, self.dep_path@)
    }

    /// How many distinct dependents and peer dependents there are.
    fn usages(&self, Ghost(ms): Ghost<Seq<MentionView>>) -> (n: usize)
        requires
            self.records(ms),
            ms.len() <= usize::MAX,
        ensures
            n == usages(ms, self.name@, self.dep_path@),
    {
        proof {
            lemma_usages_bound(ms, self.name@, self.dep_path@);
        }
        self.dependents.len() + self.peer_dependents.len()
    }
}

/// The entries are the packages that are mentioned, in the order of discovery.
spec fn entries_match(entries: Seq<PreferenceEntry>, ms: Seq<MentionView>) -> bool {
    &&& forall|i: int| 0 <= i < entries.len() ==> (#[trigger] entries[i]).records(ms)
    &&& forall|i: int, j: int|
        0 <= i < j < entries.len() ==> first_mention(
            ms,
            (#[trigger] entries[i]).name@,
            entries[i].dep_path@,
        ) < first_mention(ms, (#[trigger] entries[j]).name@, entries[j].dep_path@)
    &&& forall|k: int|
        0 <= k < ms.len() ==> has_entry(entries, (#[trigger] ms[k]).name, ms[k].dep_path)
}

/// Some entry is that of the package under the name.
spec fn has_entry(entries: Seq<PreferenceEntry>, name: Seq<char>, dep_path: Seq<char>) -> bool {
    exists|i: int|
        0 <= i < entries.len() && (#[trigger] entries[i]).name@ == name && entries[i].dep_path@ == dep_path
}

/// The index of the entry of a package under a name.
fn find_entry(entries: &Vec<PreferenceEntry>, name: &str, dep_path: &str) -> (r: Option<usize>)
    ensures
        match r {
            Some(i) => i < entries@.len() && entries@[i as int].name@ == name@ && entries@[i as int].dep_path@
                == dep_path@,
            None => !has_entry(entries@, name@, dep_path@),
        },
{
    let mut i: usize = 0;
    while i < entries.len()
        invariant
            i <= entries@.len(),
            forall|j: int|
                0 <= j < i ==> !((#[trigger] entries@[j]).name@ == name@ && entries@[j].dep_path@ == dep_path@),
        decreases entries.len() - i,
    {
        if same_text(entries[i].name.as_str(), name) && same_text(entries[i].dep_path.as_str(), dep_path) {
            return Some(i);
        }
        i += 1;
    }
    None
}

/// A mention of one package changes nothing of another.
proof fn lemma_other_mention(ms: Seq<MentionView>, m: MentionView, name: Seq<char>, dep_path: Seq<char>)
    ensures
        ms.push(m).drop_last() == ms,
        !is_of(m, name, dep_path) ==> {
            &&& dependents(ms.push(m), name, dep_path, false) == dependents(ms, name, dep_path, false)
            &&& dependents(ms.push(m), name, dep_path, true) == dependents(ms, name, dep_path, true)
        },
        mentioned(ms, name, dep_path) ==> first_mention(ms.push(m), name, dep_path) == first_mention(
            ms,
            name,
            dep_path,
        ),
        !mentioned(ms, name, dep_path) && is_of(m, name, dep_path) ==> first_mention(ms.push(m), name, dep_path)
            == ms.len(),
{
    assert(ms.push(m).drop_last() =~= ms);
    lemma_first_mention(ms, name, dep_path, 0);
}

/// A package with no entry has no dependents yet.
proof fn lemma_not_mentioned(ms: Seq<MentionView>, name: Seq<char>, dep_path: Seq<char>)
    requires
        forall|k: int| 0 <= k < ms.len() ==> !is_of(#[trigger] ms[k], name, dep_path),
    ensures
        dependents(ms, name, dep_path, false) == Set::<Seq<char>>::empty(),
        dependents(ms, name, dep_path, true) == Set::<Seq<char>>::empty(),
        !mentioned(ms, name, dep_path),
    decreases ms.len(),
{
    if ms.len() > 0 {
        let rest = ms.drop_last();
        assert forall|k: int| 0 <= k < rest.len() implies !is_of(#[trigger] rest[k], name, dep_path) by {
            assert(rest[k] == ms[k]);
        }
        lemma_not_mentioned(rest, name, dep_path);
        assert(!is_of(ms[ms.len() - 1], name, dep_path));
        lemma_first_mention(rest, name, dep_path, 0);
    }
}

/// Count a mention.
fn count_mention(entries: &mut Vec<PreferenceEntry>, m: &Mention, Ghost(ms): Ghost<Seq<MentionView>>)
    requires
        entries_match(old(entries)@, ms),
    ensures
        entries_match(final(entries)@, ms.push(m@)),
{
    let ghost was = entries@;
    let ghost next = ms.push(m@);
    proof {
        assert forall|name: Seq<char>, dep_path: Seq<char>|
            mentioned(ms, name, dep_path) implies #[trigger] first_mention(next, name, dep_path) == first_mention(
            ms,
            name,
            dep_path,
        ) by {
            lemma_other_mention(ms, m@, name, dep_path);
        }
    }
    match find_entry(entries, m.name.as_str(), m.dep_path.as_str()) {
        Some(at) => {
            let dependent = m.dependent.clone();
            if m.peer {
                entries[at].peer_dependents.insert(dependent);
            } else {
                entries[at].dependents.insert(dependent);
            }
            proof {
                assert forall|i: int| 0 <= i < entries@.len() implies (#[trigger] entries@[i]).records(next) by {
                    assert(was[i].records(ms));
                    lemma_other_mention(ms, m@, was[i].name@, was[i].dep_path@);
                    if i != at {
                        assert(was[i].name@ != m.name@ || was[i].dep_path@ != m.dep_path@) by {
                            if i < at {
                                assert(first_mention(ms, was[i].name@, was[i].dep_path@) < first_mention(
                                    ms,
                                    was[at as int].name@,
                                    was[at as int].dep_path@,
                                ));
                            } else {
                                assert(first_mention(ms, was[at as int].name@, was[at as int].dep_path@)
                                    < first_mention(ms, was[i].name@, was[i].dep_path@));
                            }
                        }
                    }
                }
            }
        },
        None => {
            proof {
                assert forall|k: int| 0 <= k < ms.len() implies !is_of(#[trigger] ms[k], m.name@, m.dep_path@) by {
                    assert(has_entry(was, ms[k].name, ms[k].dep_path));
                }
                lemma_not_mentioned(ms, m.name@, m.dep_path@);
                lemma_other_mention(ms, m@, m.name@, m.dep_path@);
            }
            let mut entry = PreferenceEntry {
                name: m.name.clone(),
                dep_path: m.dep_path.clone(),
                dependents: StrSet::new(),
                peer_dependents: StrSet::new(),
            };
            let dependent = m.dependent.clone();
            if m.peer {
                entry.peer_dependents.insert(dependent);
            } else {
                entry.dependents.insert(dependent);
            }
            entries.push(entry);
            proof {
                assert forall|i: int| 0 <= i < entries@.len() implies (#[trigger] entries@[i]).records(next) by {
                    if i < was.len() {
                        assert(was[i].records(ms));
                        assert(has_entry(was, was[i].name@, was[i].dep_path@));
                        lemma_other_mention(ms, m@, was[i].name@, was[i].dep_path@);
                    }
                }
            }
        },
    }
    proof {
        assert forall|k: int| 0 <= k < next.len() implies has_entry(
            entries@,
            (#[trigger] next[k]).name,
            next[k].dep_path,
        ) by {
            if k < ms.len() {
                assert(has_entry(was, ms[k].name, ms[k].dep_path));
                let i = choose|i: int|
                    0 <= i < was.len() && (#[trigger] was[i]).name@ == ms[k].name && was[i].dep_path@
                        == ms[k].dep_path;
                assert(entries@[i].name@ == ms[k].name);
            } else if has_entry(was, m.name@, m.dep_path@) {
                let i = choose|i: int|
                    0 <= i < was.len() && (#[trigger] was[i]).name@ == m.name@ && was[i].dep_path@ == m.dep_path@;
                assert(entries@[i].name@ == m.name@);
            } else {
                assert(entries@[was.len() as int].name@ == m.name@);
            }
        }
        assert forall|i: int, j: int| 0 <= i < j < entries@.len() implies first_mention(
            next,
            (#[trigger] entries@[i]).name@,
            entries@[i].dep_path@,
        ) < first_mention(next, (#[trigger] entries@[j]).name@, entries@[j].dep_path@) by {
            if j < was.len() {
                assert(was[i].records(ms) && was[j].records(ms));
                assert(first_mention(ms, was[i].name@, was[i].dep_path@) < first_mention(
                    ms,
                    was[j].name@,
                    was[j].dep_path@,
                ));
            } else {
                assert(was[i].records(ms));
            }
        }
    }
}

/// Entry `at` is the best of its name among the first `n`.
spec fn best_of(entries: Seq<PreferenceEntry>, ms: Seq<MentionView>, name: Seq<char>, at: int, n: int) -> bool {
    &&& 0 <= at < n
    &&& entries[at].name@ == name
    &&& forall|i: int|
        0 <= i < n && i != at && (#[trigger] entries[i]).name@ == name ==> ranks_before(
            ms,
            name,
            entries[at].dep_path@,
            entries[i].dep_path@,
        )
}

/// The best of the first `n` entries, by name.
spec fn best_so_far(best: Map<Seq<char>, usize>, entries: Seq<PreferenceEntry>, ms: Seq<MentionView>, n: int) -> bool {
    &&& forall|name: Seq<char>| #[trigger]
        best.contains_key(name) ==> best_of(entries, ms, name, best[name] as int, n)
    &&& forall|i: int| 0 <= i < n ==> best.contains_key((#[trigger] entries[i]).name@)
}

/// The best entry of each name.
fn rank_entries(entries: &Vec<PreferenceEntry>, Ghost(ms): Ghost<Seq<MentionView>>) -> (best: StrMap<usize>)
    requires
        entries_match(entries@, ms),
        ms.len() <= usize::MAX,
    ensures
        best_so_far(best@, entries@, ms, entries@.len() as int),
{
    let mut best: StrMap<usize> = StrMap::new();
    let mut i: usize = 0;
    while i < entries.len()
        invariant
            i <= entries@.len(),
            entries_match(entries@, ms),
            ms.len() <= usize::MAX,
            best_so_far(best@, entries@, ms, i as int),
        decreases entries.len() - i,
    {
        let entry = &entries[i];
        let ghost name = entry.name@;
        let ghost was = best@;
        let better = match best.get(entry.name.as_str()) {
            None => true,
            Some(at) => {
                assert(best_of(entries@, ms, name, *at as int, i as int));
                entry.usages(Ghost(ms)) > entries[*at].usages(Ghost(ms))
            },
        };
        if better {
            best.insert(entry.name.clone(), i);
        }
        proof {
            assert forall|n: Seq<char>| #[trigger] best@.contains_key(n) implies best_of(
                entries@,
                ms,
                n,
                best@[n] as int,
                i + 1,
            ) by {
                if was.contains_key(n) {
                    assert(best_of(entries@, ms, n, was[n] as int, i as int));
                }
                if n == name && !was.contains_key(n) {
                    assert forall|j: int| 0 <= j < i implies (#[trigger] entries@[j]).name@ != n by {
                        if entries@[j].name@ == n {
                            assert(was.contains_key(entries@[j].name@));
                        }
                    }
                } else if n == name {
                    let at = was[n] as int;
                    assert(first_mention(ms, entries@[at].name@, entries@[at].dep_path@) < first_mention(
                        ms,
                        entries@[i as int].name@,
                        entries@[i as int].dep_path@,
                    ));
                    if better {
                        assert forall|j: int|
                            0 <= j < i + 1 && j != i && (#[trigger] entries@[j]).name@ == n implies ranks_before(
                            ms,
                            n,
                            entries@[i as int].dep_path@,
                            entries@[j].dep_path@,
                        ) by {
                            if j != at {
                                assert(ranks_before(ms, n, entries@[at].dep_path@, entries@[j].dep_path@));
                            }
                        }
                    }
                } else {
                    assert(best@[n] == was[n]);
                }
            }
        }
        i += 1;
    }
    best
}

/// `key` is one of the first `n` keys.
spec fn in_first(keys: Seq<Seq<char>>, n: int, key: Seq<char>) -> bool {
    exists|j: int| 0 <= j < n && keys[j] == key
}

/// The keys of the best entries.
fn best_keys(
    best: &StrMap<usize>,
    entries: &Vec<PreferenceEntry>,
    Ghost(ms): Ghost<Seq<MentionView>>,
) -> (r: StrMap<String>)
    requires
        best_so_far(best@, entries@, ms, entries@.len() as int),
    ensures
        forall|name: Seq<char>| #[trigger] text_map(r).contains_key(name) <==> best@.contains_key(name),
        forall|name: Seq<char>| #[trigger]
            text_map(r).contains_key(name) ==> text_map(r)[name] == entries@[best@[name] as int].dep_path@,
{
    let mut out: StrMap<String> = StrMap::new();
    let total = best.len();
    let mut i: usize = 0;
    while i < total
        invariant
            i <= total,
            total == best.keys().len(),
            best.wf(),
            best_so_far(best@, entries@, ms, entries@.len() as int),
            forall|name: Seq<char>| #[trigger]
                text_map(out).contains_key(name) <==> in_first(best.keys(), i as int, name),
            forall|name: Seq<char>| #[trigger]
                text_map(out).contains_key(name) ==> best@.contains_key(name) && text_map(out)[name]
                    == entries@[best@[name] as int].dep_path@,
        decreases total - i,
    {
        let name = best.key_at(i);
        let at = *best.value_at(i);
        assert(best_of(entries@, ms, name@, at as int, entries@.len() as int));
        let ghost was = text_map(out);
        out.insert(name.to_owned(), entries[at].dep_path.clone());
        proof {
            assert(text_map(out) =~= was.insert(name@, entries@[at as int].dep_path@));
            assert forall|n: Seq<char>| #[trigger]
                text_map(out).contains_key(n) <==> in_first(best.keys(), i + 1, n) by {
                if n == name@ {
                    assert(best.keys()[i as int] == n);
                } else if was.contains_key(n) {
                    assert(in_first(best.keys(), i as int, n));
                }
            }
        }
        i += 1;
    }
    proof {
        assert forall|name: Seq<char>| best@.contains_key(name) implies #[trigger] text_map(out).contains_key(name) by {
            let j = crate::str_map::lemma_key_index(*best, name);
            assert(best.keys()[j] == name);
        }
    }
    out
}

/// Set everything that `over` holds.
fn overlay(target: &mut StrMap<String>, over: &StrMap<String>)
    ensures
        text_map(*final(target)) == text_map(*old(target)).union_prefer_right(text_map(*over)),
{
    let ghost was = text_map(*target);
    let total = over.len();
    let mut i: usize = 0;
    while i < total
        invariant
            i <= total,
            total == over.keys().len(),
            over.wf(),
            forall|name: Seq<char>| #[trigger]
                text_map(*target).contains_key(name) <==> was.contains_key(name) || in_first(over.keys(), i as int, name),
            forall|name: Seq<char>| #[trigger]
                text_map(*target).contains_key(name) ==> text_map(*target)[name] == if in_first(over.keys(), i as int, name) {
                    text_map(*over)[name]
                } else {
                    was[name]
                },
        decreases total - i,
    {
        let name = over.key_at(i);
        let value = over.value_at(i);
        let ghost prior = text_map(*target);
        target.insert(name.to_owned(), value.clone());
        proof {
            assert(text_map(*target) =~= prior.insert(name@, value@));
            assert(text_map(*over)[name@] == value@);
            assert forall|n: Seq<char>| #[trigger]
                in_first(over.keys(), i + 1, n) <==> n == name@ || in_first(over.keys(), i as int, n) by {
                if n == name@ {
                    assert(over.keys()[i as int] == n);
                }
            }
        }
        i += 1;
    }
    proof {
        let goal = was.union_prefer_right(text_map(*over));
        assert forall|n: Seq<char>| text_map(*over).contains_key(n) <==> #[trigger] in_first(over.keys(), total as int, n) by {
            if text_map(*over).contains_key(n) {
                let j = crate::str_map::lemma_key_index(*over, n);
                assert(over.keys()[j] == n);
            }
            if in_first(over.keys(), total as int, n) {
                let j = choose|j: int| 0 <= j < total && over.keys()[j] == n;
                lemma_entry(*over, j);
            }
        }
        assert(text_map(*target) =~= goal);
    }
}

/// The preferred package for each name that competes for the workspace root's slot.
pub fn build_workspace_preferences(
    root_nm: &FsPath,
    importers: &Vec<HoistedWorkspaceImporter>,
    graph: &LockfileGraph,
) -> (preferred: StrMap<String>)
    ensures
        text_map(preferred) == workspace_preferences(root_nm@, importer_views(importers@), *graph),
{
    let (found, direct) = collect_mentions(root_nm, importers, graph);
    let ghost ms = views(found@);
    let count = found.len();
    let mut entries: Vec<PreferenceEntry> = Vec::new();
    let mut i: usize = 0;
    proof {
        assert(ms.take(0) =~= Seq::<MentionView>::empty());
    }
    while i < count
        invariant
            i <= count,
            count == found@.len(),
            ms == views(found@),
            entries_match(entries@, ms.take(i as int)),
        decreases count - i,
    {
        count_mention(&mut entries, &found[i], Ghost(ms.take(i as int)));
        proof {
            assert(ms.take(i + 1) =~= ms.take(i as int).push(found@[i as int]@));
        }
        i += 1;
    }
    proof {
        assert(ms.take(i as int) =~= ms);
    }
    let best = rank_entries(&entries, Ghost(ms));
    let mut preferred = best_keys(&best, &entries, Ghost(ms));
    let ghost by_usage = text_map(preferred);
    overlay(&mut preferred, &direct);
    proof {
        let goal = workspace_preferences(root_nm@, importer_views(importers@), *graph);
        let ruled = root_direct(root_nm@, importer_views(importers@));
        assert forall|name: Seq<char>| by_usage.contains_key(name) <==> name_mentioned(ms, name) by {
            if by_usage.contains_key(name) {
                let at = best@[name] as int;
                assert(best_of(entries@, ms, name, at, entries@.len() as int));
                assert(entries@[at].records(ms));
                assert(mentioned(ms, name, entries@[at].dep_path@));
            }
            if name_mentioned(ms, name) {
                let d = choose|d: Seq<char>| mentioned(ms, name, d);
                lemma_first_mention(ms, name, d, 0);
                let k = first_mention(ms, name, d);
                assert(has_entry(entries@, ms[k].name, ms[k].dep_path));
                let e = choose|e: int|
                    0 <= e < entries@.len() && (#[trigger] entries@[e]).name@ == ms[k].name && entries@[e].dep_path@
                        == ms[k].dep_path;
                assert(best@.contains_key(entries@[e].name@));
            }
        }
        assert forall|name: Seq<char>| by_usage.contains_key(name) implies is_best(ms, name, #[trigger] by_usage[name]) by {
            let at = best@[name] as int;
            assert(best_of(entries@, ms, name, at, entries@.len() as int));
            assert(entries@[at].records(ms));
            assert forall|other: Seq<char>|
                mentioned(ms, name, other) && other != by_usage[name] implies #[trigger] ranks_before(
                ms,
                name,
                by_usage[name],
                other,
            ) by {
                lemma_first_mention(ms, name, other, 0);
                let k = first_mention(ms, name, other);
                assert(has_entry(entries@, ms[k].name, ms[k].dep_path));
                let e = choose|e: int|
                    0 <= e < entries@.len() && (#[trigger] entries@[e]).name@ == ms[k].name && entries@[e].dep_path@
                        == ms[k].dep_path;
                assert(entries@[e].dep_path@ == other);
            }
        }
        assert forall|name: Seq<char>| goal.contains_key(name) implies text_map(preferred)[name] == #[trigger] goal[name] by {
            if !ruled.contains_key(name) {
                let chosen = choose|dep_path: Seq<char>| is_best(ms, name, dep_path);
                assert(is_best(ms, name, by_usage[name]));
                lemma_best_unique(ms, name, chosen, by_usage[name]);
            }
        }
        assert(text_map(preferred) =~= goal);
    }
    preferred
}

} // verus!
