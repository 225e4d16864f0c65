use aube::graph::{LocalSource, LockedPackage, LockfileGraph};
use aube::lockfile_policy::{
    is_excluded, merge_times, minimum_release_age_violations, missing_time_entries, policy_error_code,
    policy_help, policy_report, start_policy_check, time_key, verify_frozen_lockfile_policy, AgeViolation,
    MinimumReleaseAge, PolicyStep,
};
use aube::str_map::{StrMap, StrSet};

fn graph_with(name: &str, version: &str, published_at: &str) -> LockfileGraph {
    let mut graph = LockfileGraph::default();
    let dep_path = format!("{name}@{version}");
    graph.packages.insert(
        dep_path.clone(),
        LockedPackage {
            name: name.to_string(),
            version: version.to_string(),
            dep_path: dep_path.clone(),
            ..LockedPackage::default()
        },
    );
    graph.times.insert(dep_path, published_at.to_string());
    graph
}

fn age(exclude: &[&str]) -> MinimumReleaseAge {
    let mut names = StrSet::new();
    for name in exclude {
        names.insert(name.to_string());
    }
    MinimumReleaseAge { minutes: 1, exclude: names, strict: false }
}

#[test]
fn flags_locked_package_inside_cutoff() {
    let graph = graph_with("demo", "1.0.0", "2026-05-28T08:12:56.230Z");
    let mra = age(&[]);
    let violations = minimum_release_age_violations(&graph, &mra, "2026-05-25T17:04:21.482Z", &graph.times);
    assert_eq!(violations.len(), 1);
    assert_eq!(violations[0].name, "demo");
}

#[test]
fn exclude_skips_locked_package() {
    let graph = graph_with("demo", "1.0.0", "2026-05-28T08:12:56.230Z");
    let mra = age(&["demo"]);
    let violations = minimum_release_age_violations(&graph, &mra, "2026-05-25T17:04:21.482Z", &graph.times);
    assert!(violations.is_empty());
}

#[test]
fn a_package_at_the_cutoff_is_old_enough() {
    let graph = graph_with("demo", "1.0.0", "2026-05-25T17:04:21.482Z");
    assert!(minimum_release_age_violations(&graph, &age(&[]), "2026-05-25T17:04:21.482Z", &graph.times).is_empty());
}

#[test]
fn an_alias_is_excluded_by_either_name() {
    assert!(is_excluded(&age(&["alias"]), "alias", "real"));
    assert!(is_excluded(&age(&["real"]), "alias", "real"));
    assert!(!is_excluded(&age(&["other"]), "alias", "real"));
}

#[test]
fn the_peer_variants_of_a_version_are_reported_once() {
    let mut graph = graph_with("demo", "1.0.0", "2026-05-28");
    graph.packages.insert(
        "demo@1.0.0(peer@2.0.0)".to_string(),
        LockedPackage {
            name: "demo".to_string(),
            version: "1.0.0".to_string(),
            dep_path: "demo@1.0.0(peer@2.0.0)".to_string(),
            ..LockedPackage::default()
        },
    );
    assert_eq!(minimum_release_age_violations(&graph, &age(&[]), "2026-05-25", &graph.times).len(), 1);
}

#[test]
fn missing_times_are_asked_for_by_package() {
    let mut graph = graph_with("demo", "1.0.0", "2026-05-28");
    for (name, version) in [("left", "1.0.0"), ("left", "2.0.0"), ("@s/right", "1.0.0"), ("skipped", "1.0.0")] {
        let key = format!("{name}@{version}");
        graph.packages.insert(
            key.clone(),
            LockedPackage {
                name: name.to_string(),
                version: version.to_string(),
                dep_path: key,
                ..LockedPackage::default()
            },
        );
    }
    graph.packages.insert(
        "local@file:./l".to_string(),
        LockedPackage {
            name: "local".to_string(),
            version: "1.0.0".to_string(),
            local_source: Some(LocalSource::Directory("l".to_string())),
            ..LockedPackage::default()
        },
    );
    let missing = missing_time_entries(&graph, &age(&["skipped"]), &graph.times);
    assert_eq!(missing.len(), 2);
    assert!(missing.get("left").unwrap().contains("left@1.0.0"));
    assert!(missing.get("left").unwrap().contains("left@2.0.0"));
    assert!(missing.get("@s/right").unwrap().contains("@s/right@1.0.0"));
}

#[test]
fn fetched_times_are_taken_over_by_version() {
    let mut times = StrMap::new();
    let mut keys = StrSet::new();
    keys.insert(time_key("@s/right", "1.0.0"));
    keys.insert(time_key("@s/right", "3.0.0"));
    let mut fetched = StrMap::new();
    fetched.insert("1.0.0".to_string(), "2026-01-01".to_string());
    fetched.insert("2.0.0".to_string(), "2026-02-01".to_string());
    merge_times(&mut times, &keys, &fetched);
    assert_eq!(times.len(), 1);
    assert_eq!(times.get("@s/right@1.0.0"), Some(&"2026-01-01".to_string()));
}

fn violation(i: usize) -> AgeViolation {
    AgeViolation { name: format!("p{i}"), version: "1.0.0".to_string(), published_at: "2026-05-28".to_string() }
}

#[test]
fn reports_name_twelve_packages() {
    assert_eq!(
        policy_report(&vec![violation(0)], "2026-05-25"),
        "lockfile failed supply-chain policy check (1 entry):\n  p0@1.0.0 was published at 2026-05-28, within the minimumReleaseAge cutoff (2026-05-25)"
    );
    let twelve = policy_report(&(0..12).map(violation).collect(), "2026-05-25");
    assert!(twelve.starts_with("lockfile failed supply-chain policy check (12 entries):\n  p0@1.0.0"));
    assert!(!twelve.contains("more"));
    let many = policy_report(&(0..15).map(violation).collect(), "2026-05-25");
    assert!(many.contains("p11@1.0.0"));
    assert!(!many.contains("p12@1.0.0"));
    assert!(many.ends_with("\n  ... and 3 more"));
}

#[test]
fn a_lockfile_is_checked_only_under_a_policy() {
    let graph = graph_with("demo", "1.0.0", "2026-05-28");
    assert!(matches!(start_policy_check(None, true, &graph), PolicyStep::Pass));
    assert!(matches!(start_policy_check(Some(&age(&[])), false, &graph), PolicyStep::Pass));
    match start_policy_check(Some(&age(&[])), true, &graph) {
        PolicyStep::Fetch(missing) => assert_eq!(missing.len(), 0),
        PolicyStep::Pass => panic!("there is a policy"),
    }
    assert!(verify_frozen_lockfile_policy(&graph, &age(&["demo"]), "2026-05-25", &graph.times).is_ok());
    let error = verify_frozen_lockfile_policy(&graph, &age(&[]), "2026-05-25", &graph.times).unwrap_err();
    assert!(error.contains("demo@1.0.0"));
}

#[test]
fn a_young_lockfile_has_a_code_and_an_advice() {
    assert_eq!(policy_error_code(), "ERR_AUBE_LOCKFILE_POLICY");
    assert_eq!(
        policy_help(),
        "inspect recent lockfile changes before trusting them; if expected, regenerate the lockfile from a fresh resolution or relax minimumReleaseAge"
    );
}
