//! Whether the installed tree still looks as it was recorded.
use crate::digest::{hash_file_if_exists, tagged_digest};
use crate::fs_path::{parsed, path_joined, FsPath};
use crate::state::facts::{fact, known, look, Facts, ManifestFact, Probe, ProbeView};
use crate::state::freshness::{and_next, scan, Check, CheckView};
use crate::state::model::InstallLayoutState;
use crate::text::{concat, same_text};
use vstd::prelude::*;

verus! {

/// The digest of an empty file, which older states recorded for a manifest
/// that could not be read.
pub open spec fn empty_digest_text() -> Seq<char> {
    "blake3:af1349b9f5f9a1a6a0404dea36dcc9499bcb25c9adc112b7cc9a93cae41f3262"@
}

/// The digest of an empty file.
pub fn empty_blake3_hash() -> (r: &'static str)
    ensures
        r@ == empty_digest_text(),
{
    "blake3:af1349b9f5f9a1a6a0404dea36dcc9499bcb25c9adc112b7cc9a93cae41f3262"
}

/// A direct entry must be there. For a link that is the link itself, not what
/// it leads to.
pub open spec fn entry_check(layout: InstallLayoutState, facts: Facts, i: int, j: int) -> CheckView {
    let rel = layout.direct_entries.values()[i]@[j]@;
    match facts.entries {
        None => CheckView::Ask(ProbeView::Entries),
        Some(present) => if present@.contains(rel) {
            CheckView::Pass
        } else {
            CheckView::Stale("installed entry missing: "@ + rel)
        },
    }
}

/// The direct entries of an importer must be there.
pub open spec fn importer_check(layout: InstallLayoutState, facts: Facts, i: int) -> CheckView {
    scan(
        |j: int| entry_check(layout, facts, i, j),
        0,
        layout.direct_entries.values()[i]@.len() as int,
    )
}

/// A package's manifest must be the recorded one, or name the recorded package.
/// A live link is not looked into.
pub open spec fn package_check(
    project: Seq<Seq<char>>,
    layout: InstallLayoutState,
    facts: Facts,
    i: int,
) -> CheckView {
    let pkg = layout.packages.values()[i];
    let p = path_joined(project, pkg.package_json_path@);
    if pkg.link {
        CheckView::Pass
    } else if !known(facts.content, p) {
        CheckView::Ask(ProbeView::Content(p))
    } else if fact(facts.content, p) is Some && pkg.package_json_hash@.len() > 0 && pkg.package_json_hash@
        != empty_digest_text() && tagged_digest(fact(facts.content, p)->0@) == pkg.package_json_hash@ {
        CheckView::Pass
    } else if !known(facts.manifest, p) {
        CheckView::Ask(ProbeView::Manifest(p))
    } else {
        match fact(facts.manifest, p) {
            ManifestFact::Missing => CheckView::Stale(
                "installed package metadata missing: "@ + pkg.package_json_path@,
            ),
            ManifestFact::Unreadable => CheckView::Stale(
                "installed package metadata unreadable: "@ + pkg.package_json_path@,
            ),
            ManifestFact::Found { name, version } => if name@ == pkg.name@ && version@ == pkg.version@ {
                CheckView::Pass
            } else {
                CheckView::Stale("installed package metadata changed: "@ + pkg.package_json_path@)
            },
        }
    }
}

/// A link inside a shared store entry must lead where it was recorded to.
pub open spec fn link_check(layout: InstallLayoutState, facts: Facts, i: int) -> CheckView {
    let links = layout.gvs_nested_links->0;
    let rel = links.keys()[i];
    match facts.links {
        None => CheckView::Ask(ProbeView::Links),
        Some(found) => if !found@.contains_key(rel) {
            CheckView::Stale("global virtual store link missing: "@ + rel)
        } else if parsed(found@[rel]@) == parsed(links.values()[i]@) {
            CheckView::Pass
        } else {
            CheckView::Stale("global virtual store link changed: "@ + rel)
        },
    }
}

/// Every recorded link must lead where it was recorded to.
pub open spec fn links_check(layout: InstallLayoutState, facts: Facts) -> CheckView {
    match layout.gvs_nested_links {
        None => CheckView::Pass,
        Some(links) => scan(|i: int| link_check(layout, facts, i), 0, links.keys().len() as int),
    }
}

/// The tree must look as it was recorded.
pub open spec fn layout_check(project: Seq<Seq<char>>, layout: InstallLayoutState, facts: Facts) -> CheckView {
    and_next(
        scan(|i: int| importer_check(layout, facts, i), 0, layout.direct_entries.keys().len() as int),
        and_next(
            scan(
                |i: int| package_check(project, layout, facts, i),
                0,
                layout.packages.keys().len() as int,
            ),
            links_check(layout, facts),
        ),
    )
}

fn check_importer(layout: &InstallLayoutState, facts: &Facts, i: usize) -> (r: Check)
    requires
        i < layout.direct_entries.keys().len(),
    ensures
        r@ == importer_check(*layout, *facts, i as int),
{
    let entries = layout.direct_entries.value_at(i);
    let ghost f = |j: int| entry_check(*layout, *facts, i as int, j);
    let mut j: usize = 0;
    while j < entries.len()
        invariant
            j <= entries@.len(),
            *entries == layout.direct_entries.values()[i as int],
            f == (|j: int| entry_check(*layout, *facts, i as int, j)),
            importer_check(*layout, *facts, i as int) == scan(f, j as int, entries@.len() as int),
        decreases entries.len() - j,
    {
        match &facts.entries {
            None => {
                return Check::Ask(Probe::Entries);
            },
            Some(present) => {
                if !present.contains(entries[j].as_str()) {
                    return Check::Stale(concat("installed entry missing: ", entries[j].as_str()));
                }
            },
        }
        j += 1;
    }
    Check::Pass
}

fn check_package(project_dir: &FsPath, layout: &InstallLayoutState, facts: &Facts, i: usize) -> (r: Check)
    requires
        i < layout.packages.keys().len(),
    ensures
        r@ == package_check(project_dir@, *layout, *facts, i as int),
{
    let pkg = layout.packages.value_at(i);
    if pkg.link {
        return Check::Pass;
    }
    let p = project_dir.join(pkg.package_json_path.as_str());
    let recorded = pkg.package_json_hash.as_str();
    match look(&facts.content, &p) {
        None => {
            return Check::Ask(Probe::Content(p));
        },
        Some(content) => {
            if let Some(hash) = hash_file_if_exists(content) {
                proof {
                    reveal_strlit("");
                    if recorded@.len() == 0 {
                        assert(recorded@ =~= ""@);
                    }
                }
                if !same_text(recorded, "") && !same_text(recorded, empty_blake3_hash()) && same_text(
                    hash.as_str(),
                    recorded,
                ) {
                    return Check::Pass;
                }
            }
        },
    }
    match look(&facts.manifest, &p) {
        None => Check::Ask(Probe::Manifest(p)),
        Some(ManifestFact::Missing) => Check::Stale(
            concat("installed package metadata missing: ", pkg.package_json_path.as_str()),
        ),
        Some(ManifestFact::Unreadable) => Check::Stale(
            concat("installed package metadata unreadable: ", pkg.package_json_path.as_str()),
        ),
        Some(ManifestFact::Found { name, version }) => if same_text(name.as_str(), pkg.name.as_str()) && same_text(
            version.as_str(),
            pkg.version.as_str(),
        ) {
            Check::Pass
        } else {
            Check::Stale(concat("installed package metadata changed: ", pkg.package_json_path.as_str()))
        },
    }
}

/// Whether a link inside a shared store entry has moved.
pub fn stale_gvs_nested_link(layout: &InstallLayoutState, facts: &Facts) -> (r: Check)
    ensures
        r@ == links_check(*layout, *facts),
{
    let links = match &layout.gvs_nested_links {
        None => {
            return Check::Pass;
        },
        Some(l) => l,
    };
    let ghost f = |i: int| link_check(*layout, *facts, i);
    let total = links.len();
    let mut i: usize = 0;
    while i < total
        invariant
            i <= total,
            layout.gvs_nested_links == Some(*links),
            total == links.keys().len(),
            f == (|i: int| link_check(*layout, *facts, i)),
            links_check(*layout, *facts) == scan(f, i as int, total as int),
        decreases total - i,
    {
        let rel = links.key_at(i);
        let expected = links.value_at(i);
        match &facts.links {
            None => {
                return Check::Ask(Probe::Links);
            },
            Some(found) => match found.get(rel) {
                None => {
                    return Check::Stale(concat("global virtual store link missing: ", rel));
                },
                Some(actual) => {
                    let a = FsPath::parse(actual.as_str());
                    let e = FsPath::parse(expected.as_str());
                    if !a.same(&e) {
                        return Check::Stale(concat("global virtual store link changed: ", rel));
                    }
                },
            },
        }
        i += 1;
    }
    Check::Pass
}

/// Whether the recorded store links were recorded at all and lead where they
/// were recorded to. None while more has to be known.
pub fn gvs_nested_links_are_current(layout: &InstallLayoutState, facts: &Facts) -> (r: Option<bool>)
    ensures
        match r {
            Some(b) => !(links_check(*layout, *facts) is Ask) && b == (layout.gvs_nested_links is Some && links_check(
                *layout,
                *facts,
            ) is Pass),
            None => links_check(*layout, *facts) is Ask,
        },
{
    match stale_gvs_nested_link(layout, facts) {
        Check::Pass => Some(layout.gvs_nested_links.is_some()),
        Check::Stale(_) => Some(false),
        Check::Ask(_) => None,
    }
}

/// Whether the installed tree looks as it was recorded. Without a record
/// there is nothing to compare.
pub fn verify_install_layout(
    project_dir: &FsPath,
    layout: Option<&InstallLayoutState>,
    facts: &Facts,
) -> (r: Check)
    ensures
        match layout {
            None => r@ is Pass,
            Some(l) => r@ == layout_check(project_dir@, *l, *facts),
        },
{
    let tree = match layout {
        None => {
            return Check::Pass;
        },
        Some(l) => l,
    };
    let ghost f = |i: int| importer_check(*tree, *facts, i);
    let ghost g = |i: int| package_check(project_dir@, *tree, *facts, i);
    let importers = tree.direct_entries.len();
    let packages = tree.packages.len();
    let ghost rest = and_next(scan(g, 0, packages as int), links_check(*tree, *facts));
    let mut i: usize = 0;
    while i < importers
        invariant
            i <= importers,
            layout == Some(tree),
            importers == tree.direct_entries.keys().len(),
            f == (|i: int| importer_check(*tree, *facts, i)),
            layout_check(project_dir@, *tree, *facts) == and_next(scan(f, i as int, importers as int), rest),
        decreases importers - i,
    {
        let c = check_importer(tree, facts, i);
        match c {
            Check::Pass => {},
            other => {
                return other;
            },
        }
        i += 1;
    }
    let mut k: usize = 0;
    while k < packages
        invariant
            k <= packages,
            layout == Some(tree),
            packages == tree.packages.keys().len(),
            g == (|i: int| package_check(project_dir@, *tree, *facts, i)),
            layout_check(project_dir@, *tree, *facts) == and_next(
                scan(g, k as int, packages as int),
                links_check(*tree, *facts),
            ),
        decreases packages - k,
    {
        let c = check_package(project_dir, tree, facts, k);
        match c {
            Check::Pass => {},
            other => {
                return other;
            },
        }
        k += 1;
    }
    stale_gvs_nested_link(tree, facts)
}

} // verus!
