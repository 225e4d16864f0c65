//! Who counts when versions compete for the workspace root's slot.
use crate::fs_path::root_part;
use crate::graph::LockfileGraph;
use crate::hoisted::need_laws::{declares, is_live_link, lemma_needs_are_declared, maps_wf};
use crate::hoisted::planner::{needs, root_reachable, ImporterView};
use crate::hoisted::preferences::{
    dependents, direct_mentions, first_mention, importer_label, importer_mentions, is_of, lemma_first_mention,
    mentioned, mentions, package_mentions, reached_mentions, root_direct, to_expand, unexpanded, usages, with_root_deps,
    workspace_preferences, MentionView,
};
use crate::text::decimal_text;
use crate::text_laws::law_decimal_text_stands_for_the_number;
use vstd::prelude::*;

verus! {

/// What a package mentions is what it declares, by the package, and as a peer
/// where it is among the package's peers.
proof fn lemma_package_mention(graph: LockfileGraph, p: Seq<char>, name: Seq<char>, target: Seq<char>)
    requires
        maps_wf(graph),
        declares(graph, p, name, target),
    ensures
        package_mentions(graph, p).contains(
            (MentionView {
                name,
                dep_path: target,
                dependent: p,
                peer: graph.packages@[p].peer_dependencies@.contains_key(name),
            }),
        ),
{
    lemma_needs_are_declared(graph, p, name, target);
    let all = needs(graph, p);
    let j = choose|j: int| 0 <= j < all.len() && all[j] == (name, target);
    let m = MentionView {
        name,
        dep_path: target,
        dependent: p,
        peer: graph.packages@[p].peer_dependencies@.contains_key(name),
    };
    assert(package_mentions(graph, p)[j] == m);
}

proof fn lemma_package_mention_is_declared(graph: LockfileGraph, p: Seq<char>, m: MentionView)
    requires
        maps_wf(graph),
        package_mentions(graph, p).contains(m),
    ensures
        declares(graph, p, m.name, m.dep_path),
        m.dependent == p,
        m.peer == graph.packages@[p].peer_dependencies@.contains_key(m.name),
{
    let all = needs(graph, p);
    let j = choose|j: int| 0 <= j < package_mentions(graph, p).len() && package_mentions(graph, p)[j] == m;
    assert(all[j] == (m.name, m.dep_path));
    lemma_needs_are_declared(graph, p, m.name, m.dep_path);
}

/// Everything that a list holds is in another.
spec fn all_in(a: Seq<MentionView>, b: Seq<MentionView>) -> bool {
    forall|m: MentionView| #[trigger] a.contains(m) ==> b.contains(m)
}

proof fn lemma_in_sum(a: Seq<MentionView>, b: Seq<MentionView>)
    ensures
        all_in(a, a + b),
        all_in(b, a + b),
        forall|m: MentionView| #[trigger] (a + b).contains(m) ==> a.contains(m) || b.contains(m),
{
    let s = a + b;
    assert forall|m: MentionView| #[trigger] a.contains(m) implies s.contains(m) by {
        let i = choose|i: int| 0 <= i < a.len() && a[i] == m;
        assert(s[i] == m);
    }
    assert forall|m: MentionView| #[trigger] b.contains(m) implies s.contains(m) by {
        let i = choose|i: int| 0 <= i < b.len() && b[i] == m;
        assert(s[a.len() + i] == m);
    }
    assert forall|m: MentionView| #[trigger] s.contains(m) implies a.contains(m) || b.contains(m) by {
        let i = choose|i: int| 0 <= i < s.len() && s[i] == m;
        if i < a.len() {
            assert(a[i] == m);
        } else {
            assert(b[i - a.len()] == m);
        }
    }
}

/// Whatever is reached is looked into: what waits, and what is found on the way.
proof fn lemma_reached_is_closed(
    graph: LockfileGraph,
    pending: Seq<Seq<char>>,
    expanded: Set<Seq<char>>,
    q: Seq<char>,
)
    requires
        !expanded.contains(q),
        pending.contains(q) || exists|m: MentionView| #[trigger]
            reached_mentions(graph, pending, expanded).contains(m) && m.dep_path == q,
    ensures
        all_in(package_mentions(graph, q), reached_mentions(graph, pending, expanded)),
    decreases unexpanded(graph, expanded), pending.len(),
{
    let all = reached_mentions(graph, pending, expanded);
    if pending.len() > 0 {
        let p = pending[0];
        let rest = pending.drop_first();
        crate::hoisted::preferences::lemma_unexpanded(graph, expanded, p);
        if expanded.contains(p) {
            if pending.contains(q) {
                let i = choose|i: int| 0 <= i < pending.len() && pending[i] == q;
                assert(rest[i - 1] == q);
            } else {
                let m = choose|m: MentionView| #[trigger] all.contains(m) && m.dep_path == q;
                assert(reached_mentions(graph, rest, expanded).contains(m));
            }
            lemma_reached_is_closed(graph, rest, expanded, q);
        } else {
            let found = package_mentions(graph, p);
            let paths = found.map_values(|m: MentionView| m.dep_path);
            let next = rest + paths;
            let more = expanded.insert(p);
            let tail = reached_mentions(graph, next, more);
            lemma_in_sum(found, tail);
            if q != p {
                if pending.contains(q) {
                    let i = choose|i: int| 0 <= i < pending.len() && pending[i] == q;
                    assert(rest[i - 1] == q);
                    assert(next[i - 1] == q);
                } else {
                    let m = choose|m: MentionView| #[trigger] all.contains(m) && m.dep_path == q;
                    if found.contains(m) {
                        let i = choose|i: int| 0 <= i < found.len() && found[i] == m;
                        assert(paths[i] == q);
                        assert(next[rest.len() + i] == q);
                    }
                }
                if !graph.packages@.contains_key(p) {
                    assert(found.len() == 0);
                    assert(next.len() < pending.len());
                }
                lemma_reached_is_closed(graph, next, more, q);
            }
        }
    }
}

/// Whatever is mentioned on the way is mentioned by a package that waited, or
/// that was itself mentioned.
proof fn lemma_reached_has_a_reason(
    graph: LockfileGraph,
    pending: Seq<Seq<char>>,
    expanded: Set<Seq<char>>,
    m: MentionView,
)
    requires
        maps_wf(graph),
        reached_mentions(graph, pending, expanded).contains(m),
    ensures
        package_mentions(graph, m.dependent).contains(m),
        pending.contains(m.dependent) || exists|n: MentionView| #[trigger]
            reached_mentions(graph, pending, expanded).contains(n) && n.dep_path == m.dependent,
    decreases unexpanded(graph, expanded), pending.len(),
{
    let all = reached_mentions(graph, pending, expanded);
    if pending.len() > 0 {
        let p = pending[0];
        let rest = pending.drop_first();
        crate::hoisted::preferences::lemma_unexpanded(graph, expanded, p);
        if expanded.contains(p) {
            lemma_reached_has_a_reason(graph, rest, expanded, m);
            if rest.contains(m.dependent) {
                let i = choose|i: int| 0 <= i < rest.len() && rest[i] == m.dependent;
                assert(pending[i + 1] == m.dependent);
            }
        } else {
            let found = package_mentions(graph, p);
            let paths = found.map_values(|m: MentionView| m.dep_path);
            let next = rest + paths;
            let more = expanded.insert(p);
            let tail = reached_mentions(graph, next, more);
            lemma_in_sum(found, tail);
            if found.contains(m) {
                lemma_package_mention_is_declared(graph, p, m);
                assert(pending[0] == p);
            } else {
                if !graph.packages@.contains_key(p) {
                    assert(found.len() == 0);
                    assert(next.len() < pending.len());
                }
                lemma_reached_has_a_reason(graph, next, more, m);
                if next.contains(m.dependent) {
                    let i = choose|i: int| 0 <= i < next.len() && next[i] == m.dependent;
                    if i < rest.len() {
                        assert(pending[i + 1] == m.dependent);
                    } else {
                        let n = found[i - rest.len()];
                        assert(paths[i - rest.len()] == m.dependent);
                        assert(found.contains(n));
                        assert(all.contains(n) && n.dep_path == m.dependent);
                    }
                } else {
                    let n = choose|n: MentionView| #[trigger] tail.contains(n) && n.dep_path == m.dependent;
                    assert(all.contains(n));
                }
            }
        }
    }
}

proof fn lemma_to_expand(ms: Seq<MentionView>, graph: LockfileGraph, q: Seq<char>)
    ensures
        to_expand(ms, graph).contains(q) <==> !is_live_link(graph, q) && exists|m: MentionView| #[trigger]
            ms.contains(m) && m.dep_path == q,
    decreases ms.len(),
{
    let all = to_expand(ms, graph);
    if ms.len() == 0 {
    } else {
        let front = ms.drop_last();
        let rest = to_expand(front, graph);
        lemma_to_expand(front, graph, q);
        assert(ms =~= front.push(ms.last()));
        if rest.contains(q) {
            let i = choose|i: int| 0 <= i < rest.len() && rest[i] == q;
            assert(all[i] == q);
            let m = choose|m: MentionView| #[trigger] front.contains(m) && m.dep_path == q;
            let j = choose|j: int| 0 <= j < front.len() && front[j] == m;
            assert(ms[j] == m);
            assert(ms.contains(m));
        }
        if all.contains(q) && !rest.contains(q) {
            let i = choose|i: int| 0 <= i < all.len() && all[i] == q;
            if i < rest.len() {
                assert(rest[i] == q);
            }
            assert(ms.contains(ms.last()));
        }
        if !is_live_link(graph, q) && exists|m: MentionView| #[trigger] ms.contains(m) && m.dep_path == q {
            let m = choose|m: MentionView| #[trigger] ms.contains(m) && m.dep_path == q;
            let j = choose|j: int| 0 <= j < ms.len() && ms[j] == m;
            if j < front.len() {
                assert(front[j] == m);
                assert(front.contains(m));
            } else {
                assert(all[all.len() - 1] == q);
            }
        }
    }
}

/// A package that is mentioned, unless it is a live link, has all that it declares
/// mentioned: by itself, and as a peer where it names it among its peers. So every
/// package that the importers reach counts, from the registry or not.
pub proof fn law_reached_packages_mention_what_they_declare(
    root_nm: Seq<Seq<char>>,
    importers: Seq<ImporterView>,
    graph: LockfileGraph,
    m: MentionView,
    name: Seq<char>,
    target: Seq<char>,
)
    requires
        maps_wf(graph),
        mentions(root_nm, importers, graph).contains(m),
        declares(graph, m.dep_path, name, target),
    ensures
        mentions(root_nm, importers, graph).contains(
            (MentionView {
                name,
                dep_path: target,
                dependent: m.dep_path,
                peer: graph.packages@[m.dep_path].peer_dependencies@.contains_key(name),
            }),
        ),
{
    let direct = direct_mentions(root_nm, importers, graph);
    let pending = to_expand(direct, graph);
    let reached = reached_mentions(graph, pending, Set::empty());
    lemma_in_sum(direct, reached);
    lemma_package_mention(graph, m.dep_path, name, target);
    if direct.contains(m) {
        lemma_to_expand(direct, graph, m.dep_path);
        assert(pending.contains(m.dep_path));
    }
    lemma_reached_is_closed(graph, pending, Set::empty(), m.dep_path);
}

/// Nothing else is mentioned: every mention is an importer's own, or that of a
/// package that is mentioned itself and declares it.
pub proof fn law_mentions_have_a_reason(
    root_nm: Seq<Seq<char>>,
    importers: Seq<ImporterView>,
    graph: LockfileGraph,
    m: MentionView,
)
    requires
        maps_wf(graph),
        mentions(root_nm, importers, graph).contains(m),
        !direct_mentions(root_nm, importers, graph).contains(m),
    ensures
        declares(graph, m.dependent, m.name, m.dep_path),
        m.peer == graph.packages@[m.dependent].peer_dependencies@.contains_key(m.name),
        exists|n: MentionView| #[trigger]
            mentions(root_nm, importers, graph).contains(n) && n.dep_path == m.dependent,
{
    let direct = direct_mentions(root_nm, importers, graph);
    let pending = to_expand(direct, graph);
    let reached = reached_mentions(graph, pending, Set::empty());
    lemma_in_sum(direct, reached);
    lemma_reached_has_a_reason(graph, pending, Set::empty(), m);
    lemma_package_mention_is_declared(graph, m.dependent, m);
    if pending.contains(m.dependent) {
        lemma_to_expand(direct, graph, m.dependent);
        let n = choose|n: MentionView| #[trigger] direct.contains(n) && n.dep_path == m.dependent;
        assert(mentions(root_nm, importers, graph).contains(n));
    } else {
        let n = choose|n: MentionView| #[trigger] reached.contains(n) && n.dep_path == m.dependent;
        assert(mentions(root_nm, importers, graph).contains(n));
    }
}

proof fn lemma_importer_mentions(
    importer: ImporterView,
    graph: LockfileGraph,
    is_root: bool,
    label: Seq<char>,
    n: int,
    m: MentionView,
)
    requires
        0 <= n <= importer.dependencies.len(),
    ensures
        importer_mentions(importer, graph, is_root, label, n).contains(m) <==> m.dependent == label && !m.peer
            && exists|d: int|
            0 <= d < n && (#[trigger] importer.dependencies[d]).name@ == m.name && importer.dependencies[d].dep_path@
                == m.dep_path && (is_root || !is_live_link(graph, m.dep_path)),
    decreases n,
{
    let all = importer_mentions(importer, graph, is_root, label, n);
    if n > 0 {
        let rest = importer_mentions(importer, graph, is_root, label, n - 1);
        lemma_importer_mentions(importer, graph, is_root, label, n - 1, m);
        let dep = importer.dependencies[n - 1];
        if rest.contains(m) {
            let i = choose|i: int| 0 <= i < rest.len() && rest[i] == m;
            assert(all[i] == m);
        }
        if all.contains(m) && !rest.contains(m) {
            let i = choose|i: int| 0 <= i < all.len() && all[i] == m;
            if i < rest.len() {
                assert(rest[i] == m);
            }
            assert(importer.dependencies[n - 1].name@ == m.name);
        }
        if m.dependent == label && !m.peer && dep.name@ == m.name && dep.dep_path@ == m.dep_path && (is_root
            || !is_live_link(graph, m.dep_path)) {
            assert(all[all.len() - 1] == m);
        }
    }
}

/// The mention is that of importer number `i`, for a direct dependency.
pub open spec fn is_importers_own(
    root_nm: Seq<Seq<char>>,
    importers: Seq<ImporterView>,
    graph: LockfileGraph,
    i: int,
    d: int,
    m: MentionView,
) -> bool {
    &&& 0 <= i < importers.len()
    &&& 0 <= d < importers[i].dependencies.len()
    &&& root_reachable(root_nm, importers[i].modules_dir)
    &&& m.name == importers[i].dependencies[d].name@
    &&& m.dep_path == importers[i].dependencies[d].dep_path@
    &&& m.dependent == importer_label(i as nat)
    &&& !m.peer
    &&& is_live_link(graph, m.dep_path) ==> importers[i].modules_dir == root_nm
}

/// The importers mention their direct dependencies, each under its own label: those
/// from which module lookup comes past the root. A live link counts for the root
/// alone.
pub proof fn law_importers_mention_their_dependencies(
    root_nm: Seq<Seq<char>>,
    importers: Seq<ImporterView>,
    graph: LockfileGraph,
    m: MentionView,
)
    ensures
        direct_mentions(root_nm, importers, graph).contains(m) <==> exists|i: int, d: int| #[trigger]
            is_importers_own(root_nm, importers, graph, i, d, m),
    decreases importers.len(),
{
    let all = direct_mentions(root_nm, importers, graph);
    if importers.len() > 0 {
        let front = importers.drop_last();
        let rest = direct_mentions(root_nm, front, graph);
        law_importers_mention_their_dependencies(root_nm, front, graph, m);
        let last = importers.len() - 1;
        let importer = importers.last();
        let is_root = importer.modules_dir == root_nm;
        let total = importer.dependencies.len() as int;
        let own = importer_mentions(importer, graph, is_root, importer_label(last as nat), total);
        lemma_in_sum(rest, own);
        lemma_importer_mentions(importer, graph, is_root, importer_label(last as nat), total, m);
        if rest.contains(m) {
            let (i, d) = choose|i: int, d: int| #[trigger] is_importers_own(root_nm, front, graph, i, d, m);
            assert(is_importers_own(root_nm, importers, graph, i, d, m));
        }
        if all.contains(m) && !rest.contains(m) {
            assert(own.contains(m));
            let d = choose|d: int|
                0 <= d < total && (#[trigger] importer.dependencies[d]).name@ == m.name
                    && importer.dependencies[d].dep_path@ == m.dep_path && (is_root || !is_live_link(
                    graph,
                    m.dep_path,
                ));
            assert(is_importers_own(root_nm, importers, graph, last, d, m));
        }
        if exists|i: int, d: int| #[trigger] is_importers_own(root_nm, importers, graph, i, d, m) {
            let (i, d) = choose|i: int, d: int| #[trigger] is_importers_own(root_nm, importers, graph, i, d, m);
            if i < last {
                assert(is_importers_own(root_nm, front, graph, i, d, m));
            } else {
                assert(importer.dependencies[d].name@ == m.name);
                assert(own.contains(m));
            }
        }
    }
}

/// The dependents of a package under a name are those that mention it so, each
/// once; peers are counted apart.
pub proof fn law_dependents_are_those_that_mention(
    ms: Seq<MentionView>,
    name: Seq<char>,
    dep_path: Seq<char>,
    peer: bool,
    who: Seq<char>,
)
    ensures
        dependents(ms, name, dep_path, peer).contains(who) <==> ms.contains(
            (MentionView { name, dep_path, dependent: who, peer }),
        ),
    decreases ms.len(),
{
    let m = MentionView { name, dep_path, dependent: who, peer };
    if ms.len() > 0 {
        let front = ms.drop_last();
        law_dependents_are_those_that_mention(front, name, dep_path, peer, who);
        if front.contains(m) {
            let i = choose|i: int| 0 <= i < front.len() && front[i] == m;
            assert(ms[i] == m);
        }
        if ms.contains(m) && !front.contains(m) {
            let i = choose|i: int| 0 <= i < ms.len() && ms[i] == m;
            if i < front.len() {
                assert(front[i] == m);
            }
            assert(ms.last() == m);
        }
        if ms.last() == m {
            assert(ms[ms.len() - 1] == m);
        }
    }
}

proof fn lemma_root_deps(known: Map<Seq<char>, Seq<char>>, importer: ImporterView, n: int, d: int)
    requires
        0 <= d < n <= importer.dependencies.len(),
        forall|e: int|
            d < e < n ==> (#[trigger] importer.dependencies[e]).name@ != importer.dependencies[d].name@,
    ensures
        with_root_deps(known, importer, n).contains_key(importer.dependencies[d].name@),
        with_root_deps(known, importer, n)[importer.dependencies[d].name@] == importer.dependencies[d].dep_path@,
    decreases n,
{
    if d < n - 1 {
        assert(importer.dependencies[n - 1].name@ != importer.dependencies[d].name@);
        lemma_root_deps(known, importer, n - 1, d);
    }
}

/// A direct dependency of the workspace root gets the root's slot for its name: the
/// package that the root itself depends on, whatever any other depends on. Of a name
/// that the root lists twice it is the last.
pub proof fn law_roots_own_dependency_is_preferred(
    root_nm: Seq<Seq<char>>,
    importers: Seq<ImporterView>,
    graph: LockfileGraph,
    i: int,
    d: int,
)
    requires
        0 <= i < importers.len(),
        importers[i].modules_dir == root_nm,
        root_reachable(root_nm, root_nm),
        forall|j: int| 0 <= j < importers.len() && j != i ==> (#[trigger] importers[j]).modules_dir != root_nm,
        0 <= d < importers[i].dependencies.len(),
        forall|e: int|
            d < e < importers[i].dependencies.len() ==> (#[trigger] importers[i].dependencies[e]).name@
                != importers[i].dependencies[d].name@,
    ensures
        workspace_preferences(root_nm, importers, graph).contains_key(importers[i].dependencies[d].name@),
        workspace_preferences(root_nm, importers, graph)[importers[i].dependencies[d].name@]
            == importers[i].dependencies[d].dep_path@,
{
    lemma_root_direct(root_nm, importers, i, d);
}

proof fn lemma_root_direct(root_nm: Seq<Seq<char>>, importers: Seq<ImporterView>, i: int, d: int)
    requires
        0 <= i < importers.len(),
        importers[i].modules_dir == root_nm,
        root_reachable(root_nm, root_nm),
        forall|j: int| 0 <= j < importers.len() && j != i ==> (#[trigger] importers[j]).modules_dir != root_nm,
        0 <= d < importers[i].dependencies.len(),
        forall|e: int|
            d < e < importers[i].dependencies.len() ==> (#[trigger] importers[i].dependencies[e]).name@
                != importers[i].dependencies[d].name@,
    ensures
        root_direct(root_nm, importers).contains_key(importers[i].dependencies[d].name@),
        root_direct(root_nm, importers)[importers[i].dependencies[d].name@] == importers[i].dependencies[d].dep_path@,
    decreases importers.len(),
{
    let front = importers.drop_last();
    let importer = importers.last();
    if i == importers.len() - 1 {
        lemma_root_deps(root_direct(root_nm, front), importer, importer.dependencies.len() as int, d);
    } else {
        assert(importers[importers.len() - 1].modules_dir != root_nm);
        assert forall|j: int| 0 <= j < front.len() && j != i implies (#[trigger] front[j]).modules_dir != root_nm by {
            assert(importers[j].modules_dir != root_nm);
        }
        lemma_root_direct(root_nm, front, i, d);
    }
}

/// Module lookup from a project comes past the root exactly where the project lies
/// in the root's directory.
pub proof fn law_projects_in_the_root_reach_it(
    root: Seq<Seq<char>>,
    project: Seq<Seq<char>>,
    a: Seq<char>,
    b: Seq<char>,
)
    requires
        a != root_part(),
        b != root_part(),
    ensures
        root_reachable(root.push(a), project.push(b)) == root.is_prefix_of(project),
{
    assert(root.push(a).drop_last() =~= root);
    assert(project.push(b).drop_last() =~= project);
}

/// A name has a preferred package exactly where the root depends on it or someone
/// mentions it.
pub proof fn law_every_mentioned_name_has_a_preference(
    root_nm: Seq<Seq<char>>,
    importers: Seq<ImporterView>,
    graph: LockfileGraph,
    name: Seq<char>,
)
    ensures
        workspace_preferences(root_nm, importers, graph).contains_key(name) <==> root_direct(
            root_nm,
            importers,
        ).contains_key(name) || exists|m: MentionView| #[trigger]
            mentions(root_nm, importers, graph).contains(m) && m.name == name,
{
    let ms = mentions(root_nm, importers, graph);
    if exists|p: Seq<char>| mentioned(ms, name, p) {
        let p = choose|p: Seq<char>| mentioned(ms, name, p);
        lemma_first_mention(ms, name, p, 0);
        assert(ms.contains(ms[first_mention(ms, name, p)]));
    }
    if exists|m: MentionView| #[trigger] ms.contains(m) && m.name == name {
        let m = choose|m: MentionView| #[trigger] ms.contains(m) && m.name == name;
        let i = choose|i: int| 0 <= i < ms.len() && ms[i] == m;
        assert(is_of(ms[i], name, m.dep_path));
        lemma_first_mention(ms, name, m.dep_path, i);
        assert(mentioned(ms, name, m.dep_path));
    }
}

/// Someone mentions the package under the name, as a peer or not.
pub open spec fn mentions_it(
    ms: Seq<MentionView>,
    who: Seq<char>,
    name: Seq<char>,
    dep_path: Seq<char>,
    peer: bool,
) -> bool {
    exists|i: int|
        0 <= i < ms.len() && (#[trigger] ms[i]).dependent == who && ms[i].name == name && ms[i].dep_path == dep_path
            && ms[i].peer == peer
}

/// A package is used once for each that mentions it, and once more for each that
/// mentions it as a peer.
pub proof fn law_usage_counts_dependents_and_peers(
    ms: Seq<MentionView>,
    name: Seq<char>,
    dep_path: Seq<char>,
    plain: Set<Seq<char>>,
    peers: Set<Seq<char>>,
)
    requires
        forall|who: Seq<char>| #[trigger] plain.contains(who) <==> mentions_it(ms, who, name, dep_path, false),
        forall|who: Seq<char>| #[trigger] peers.contains(who) <==> mentions_it(ms, who, name, dep_path, true),
    ensures
        usages(ms, name, dep_path) == plain.len() + peers.len(),
{
    assert forall|who: Seq<char>, peer: bool| mentions_it(ms, who, name, dep_path, peer) <==> #[trigger] dependents(
        ms,
        name,
        dep_path,
        peer,
    ).contains(who) by {
        law_dependents_are_those_that_mention(ms, name, dep_path, peer, who);
    }
    assert(plain =~= dependents(ms, name, dep_path, false));
    assert(peers =~= dependents(ms, name, dep_path, true));
}

/// Among packages that are used as much, the one counts that is mentioned first: no
/// mention of it comes before its first, and a package is mentioned where one is of it.
pub proof fn law_first_mention_comes_first(ms: Seq<MentionView>, name: Seq<char>, dep_path: Seq<char>, i: int)
    requires
        0 <= i < ms.len(),
        ms[i].name == name,
        ms[i].dep_path == dep_path,
    ensures
        mentioned(ms, name, dep_path),
        0 <= first_mention(ms, name, dep_path) <= i,
        ms[first_mention(ms, name, dep_path)].name == name,
        ms[first_mention(ms, name, dep_path)].dep_path == dep_path,
{
    lemma_first_mention(ms, name, dep_path, i);
}

/// Each importer counts as a dependent of its own.
pub proof fn law_importers_count_apart(a: nat, b: nat)
    requires
        importer_label(a) == importer_label(b),
    ensures
        a == b,
{
    let front = "workspace:"@;
    let n = front.len() as int;
    law_decimal_text_stands_for_the_number(a);
    law_decimal_text_stands_for_the_number(b);
    assert(importer_label(a).skip(n) =~= decimal_text(a));
    assert(importer_label(b).skip(n) =~= decimal_text(b));
}

} // verus!
