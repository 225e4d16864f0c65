use aube::fetch::exact::{exact_fallback, fetch_exact_optional_packument, ExactDocument, ExactNext};
use aube::fetch::packument::{
    cache_lookup, cache_lookup_limit, fetch_one_packument, fetched_document, lookup_error, permit_record,
    rewrite_tarballs, settle_network, Answer, FetchError, FetchSource, Fetched, Looked, NetworkFailure, NetworkRequest, Packument,
    PermitRecord, VersionMetadata,
};
use aube::fetch::scheduler::{FetchInputs, FetchKey, FetchScheduler, FetchSettings};
use aube::str_map::StrMap;

fn settings(needs_time: bool) -> FetchSettings {
    FetchSettings {
        cache_dir: None,
        full_cache_dir: None,
        force_metadata_primer: false,
        needs_time,
    }
}

fn packument(name: &str, versions: &[&str]) -> Packument<u16> {
    let mut map = StrMap::new();
    for v in versions {
        map.insert(
            v.to_string(),
            VersionMetadata { name: name.to_string(), version: v.to_string(), tarball: None, rest: 0 },
        );
    }
    Packument {
        name: name.to_string(),
        modified: None,
        versions: map,
        dist_tags: StrMap::new(),
        time: StrMap::new(),
    }
}

fn fetched(versions: &[&str], source: FetchSource) -> Fetched<u16, u8> {
    Fetched { name: "shared".to_string(), packument: packument("shared", versions), source, history: None }
}

#[test]
fn completed_full_fetch_can_force_refresh_a_fresh_disk_entry() {
    let name = "lodash";
    let mut scheduler = FetchScheduler::new(FetchSettings {
        full_cache_dir: Some("/cache".to_string()),
        force_metadata_primer: true,
        ..settings(true)
    });
    let key = FetchKey::Full(name.to_string());

    // The entry on disk is fresh.
    let inputs = scheduler.ensure_fetch(name, false, None, false, false).expect("nothing runs yet");
    scheduler.task_started(1, &key);
    let lookup = cache_lookup(&inputs).unwrap();
    assert!(!lookup.invalidate);
    let answer = fetch_one_packument(&inputs, Some(Looked { hit: true, stale: false }), false, true);
    assert_eq!(answer.source(), FetchSource::Disk);
    scheduler.join_next(1, Some(&key));

    let inputs = scheduler.ensure_fetch(name, false, None, false, true).expect("forced full refresh did not restart");
    scheduler.task_started(2, &key);
    let lookup = cache_lookup(&inputs).unwrap();
    assert!(lookup.invalidate && lookup.full);
    // The entry was dropped, so the lookup finds nothing.
    let answer = fetch_one_packument(&inputs, Some(Looked { hit: false, stale: false }), false, true);
    assert_eq!(answer.source(), FetchSource::Network);
    assert!(matches!(answer, Answer::Network(NetworkRequest::FullCached(dir)) if dir == "/cache"));
}

#[test]
fn disk_metadata_does_not_wait_for_a_network_permit() {
    let mut scheduler =
        FetchScheduler::new(FetchSettings { cache_dir: Some("/cache".to_string()), ..settings(false) });
    let inputs = scheduler.ensure_fetch("lodash", false, None, false, false).unwrap();
    let answer = fetch_one_packument(&inputs, Some(Looked { hit: true, stale: false }), true, true);
    assert!(!answer.needs_permit());
    assert_eq!(answer.source(), FetchSource::Disk);
}

#[test]
fn primer_metadata_does_not_wait_for_a_network_permit() {
    let mut scheduler =
        FetchScheduler::new(FetchSettings { force_metadata_primer: true, ..settings(false) });
    let inputs = scheduler.ensure_fetch("lodash", false, None, false, false).unwrap();
    assert!(cache_lookup(&inputs).is_none());
    let answer = fetch_one_packument(&inputs, None, true, true);
    assert!(!answer.needs_permit());
    assert_eq!(answer.source(), FetchSource::Primer);
    assert!(matches!(answer, Answer::Primer { rewrite_tarballs: true, keep_in: None }));
}

#[test]
fn missing_exact_version_fallback_returns_a_terminal_error() {
    let mut scheduler = FetchScheduler::new(settings(true));
    let inputs = scheduler.ensure_exact_optional_fetch("shared", "2.0.0", false, None, false).unwrap();
    let (record, answer) = fetch_exact_optional_packument::<u16, u8>("shared", "2.0.0", None);
    assert_eq!(record, PermitRecord::Cancelled);
    assert!(answer.is_none());
    match exact_fallback(inputs, "2.0.0", false, Ok(fetched(&["1.0.0"], FetchSource::Network))) {
        ExactNext::Failed(error) => {
            assert_eq!(error.name, "shared");
            assert!(error.message.contains("version 2.0.0 is missing"));
        }
        _ => panic!("missing exact version did not return a terminal registry error"),
    }
}

#[test]
fn exact_fallback_refreshes_an_incomplete_disk_entry() {
    let mut scheduler =
        FetchScheduler::new(FetchSettings { full_cache_dir: Some("/cache".to_string()), ..settings(true) });
    let inputs = scheduler.ensure_exact_optional_fetch("shared", "2.0.0", false, None, false).unwrap();
    let again = match exact_fallback(inputs, "2.0.0", false, Ok(fetched(&["1.0.0"], FetchSource::Disk))) {
        ExactNext::Refresh(inputs) => inputs,
        _ => panic!("an incomplete disk entry is not final"),
    };
    assert!(again.force_refresh);
    let refreshed = fetched(&["1.0.0", "2.0.0"], FetchSource::Network);
    match exact_fallback(again, "2.0.0", true, Ok(refreshed)) {
        ExactNext::Done(f) => {
            assert!(f.packument.versions.contains_key("2.0.0"));
            assert_eq!(f.source, FetchSource::Network);
        }
        _ => panic!("forced exact fallback refresh did not complete"),
    }
}

#[test]
fn an_entry_that_is_still_incomplete_after_a_refresh_is_final() {
    let mut scheduler = FetchScheduler::new(settings(false));
    for source in [FetchSource::Disk, FetchSource::Primer, FetchSource::Network] {
        let inputs = scheduler.ensure_exact_optional_fetch("shared", &format!("{source:?}"), false, None, false).unwrap();
        assert!(matches!(exact_fallback(inputs, "2.0.0", true, Ok(fetched(&[], source))), ExactNext::Failed(_)));
    }
}

#[test]
fn a_failed_fallback_keeps_its_error() {
    let mut scheduler = FetchScheduler::new(settings(false));
    let inputs = scheduler.ensure_exact_optional_fetch("shared", "1.0.0", false, None, false).unwrap();
    let error = FetchError { name: "shared".to_string(), message: "gone".to_string() };
    match exact_fallback::<u16, u8>(inputs, "1.0.0", false, Err(error)) {
        ExactNext::Failed(e) => assert_eq!(e.message, "gone"),
        _ => panic!("the error was lost"),
    }
}

#[test]
fn join_error_releases_the_active_fetch_key() {
    let mut scheduler = FetchScheduler::new(settings(false));
    let key = FetchKey::Full("shared".to_string());
    scheduler.ensure_fetch("shared", false, None, false, false).unwrap();
    scheduler.task_started(7, &key);
    assert_eq!(scheduler.in_flight_count(), 1);

    scheduler.join_next(7, None);
    assert!(!scheduler.is_active(&key));
    assert_eq!(scheduler.in_flight_count(), 0);
}

#[test]
fn joining_every_task_leaves_none() {
    let mut scheduler = FetchScheduler::new(settings(false));
    assert!(!scheduler.has_task());
    for (id, name) in [(1, "a"), (2, "b"), (3, "c")] {
        scheduler.ensure_fetch(name, false, None, false, false).unwrap();
        scheduler.task_started(id, &FetchKey::Full(name.to_string()));
    }
    let mut left = 3;
    for (id, name) in [(2, Some("b")), (1, None), (3, Some("c"))] {
        assert!(scheduler.has_task());
        assert_eq!(scheduler.in_flight_count(), left);
        scheduler.join_next(id, name.map(|n| FetchKey::Full(n.to_string())).as_ref());
        left -= 1;
        // A task that is gone changes nothing more.
        scheduler.join_next(id, None);
        assert_eq!(scheduler.in_flight_count(), left);
    }
    assert!(!scheduler.has_task());
    assert!(!scheduler.is_active(&FetchKey::Full("a".to_string())));
}

#[test]
fn active_exact_fetch_is_reported_by_package_name() {
    let mut scheduler = FetchScheduler::new(settings(false));
    scheduler.ensure_exact_optional_fetch("shared", "1.0.0", false, None, false).unwrap();

    assert!(scheduler.has_active_exact_fetch("shared"));
    assert!(!scheduler.has_active_exact_fetch("other"));
}

#[test]
fn what_is_being_fetched_is_not_fetched_again() {
    let mut scheduler = FetchScheduler::new(settings(false));
    assert!(scheduler.ensure_fetch("a", false, None, false, false).is_some());
    assert!(scheduler.ensure_fetch("a", false, None, false, true).is_none());
    assert!(scheduler.ensure_exact_optional_fetch("a", "1.0.0", false, None, false).is_some());
    assert!(scheduler.ensure_exact_optional_fetch("a", "1.0.0", false, None, false).is_none());
    assert!(scheduler.ensure_exact_optional_fetch("a", "2.0.0", false, None, false).is_some());
    assert!(!scheduler.has_active_exact_fetch("b"));
}

#[test]
fn the_cutoff_decides_whether_the_primer_will_do() {
    let mut scheduler = FetchScheduler::new(settings(false));
    assert!(scheduler.ensure_fetch("trusted", true, Some("2026"), false, false).unwrap().primer_covers_cutoff);
    assert!(!scheduler.ensure_fetch("a", false, Some("2026"), false, false).unwrap().primer_covers_cutoff);
    assert!(scheduler.ensure_fetch("b", false, Some("2026"), true, false).unwrap().primer_covers_cutoff);
    assert!(scheduler.ensure_fetch("c", false, None, false, false).unwrap().primer_covers_cutoff);
}

#[test]
fn primer_seeded_packages_are_forgotten_once_asked_for() {
    let mut scheduler = FetchScheduler::new(settings(false));
    scheduler.note_primer_seeded("a".to_string());
    assert!(!scheduler.take_primer_seeded("b"));
    assert!(scheduler.take_primer_seeded("a"));
    assert!(!scheduler.take_primer_seeded("a"));
}

fn plain_inputs() -> FetchInputs {
    FetchInputs {
        name: "a".to_string(),
        cache_dir: Some("/abbreviated".to_string()),
        full_cache_dir: Some("/full".to_string()),
        primer_covers_cutoff: true,
        force_metadata_primer: false,
        needs_time: false,
        force_refresh: false,
    }
}

#[test]
fn the_primer_answers_for_the_default_registry_alone() {
    let miss = Some(Looked { hit: false, stale: false });
    let inputs = plain_inputs();
    match fetch_one_packument(&inputs, miss, true, true) {
        Answer::Primer { rewrite_tarballs: false, keep_in: Some(slot) } => {
            assert_eq!(slot.dir, "/abbreviated");
            assert!(!slot.full);
        }
        other => panic!("{other:?}"),
    }
    assert_eq!(fetch_one_packument(&inputs, miss, false, true).source(), FetchSource::Network);
    assert_eq!(fetch_one_packument(&inputs, miss, true, false).source(), FetchSource::Network);
    let stale = Some(Looked { hit: false, stale: true });
    assert_eq!(fetch_one_packument(&inputs, stale, true, true).source(), FetchSource::Network);
    let young = FetchInputs { primer_covers_cutoff: false, ..plain_inputs() };
    assert_eq!(fetch_one_packument(&young, miss, true, true).source(), FetchSource::Network);
    let forced = FetchInputs { force_refresh: true, ..plain_inputs() };
    let answer = fetch_one_packument(&forced, miss, true, true);
    assert!(answer.needs_permit());
    assert!(matches!(answer, Answer::Network(NetworkRequest::Cached(dir)) if dir == "/abbreviated"));
    let bare = FetchInputs { cache_dir: None, ..plain_inputs() };
    assert!(matches!(fetch_one_packument(&bare, None, false, false), Answer::Network(NetworkRequest::Plain)));
    let full = FetchInputs { needs_time: true, ..plain_inputs() };
    assert_eq!(cache_lookup(&full).unwrap().dir, "/full");
}

#[test]
fn permits_are_given_back_as_the_request_went() {
    assert_eq!(permit_record(None), PermitRecord::Success);
    let (record, error) = settle_network(&plain_inputs(), None);
    assert_eq!(record, PermitRecord::Success);
    assert!(error.is_none());
    for (throttled, expected) in [(true, PermitRecord::Throttle), (false, PermitRecord::Cancelled)] {
        let failure = NetworkFailure { throttled, message: "503".to_string() };
        let (record, error) = settle_network(&plain_inputs(), Some(failure));
        assert_eq!(record, expected);
        assert_eq!(error, Some(FetchError { name: "a".to_string(), message: "503".to_string() }));
    }
    assert_eq!(lookup_error(&plain_inputs(), "join").message, "packument cache lookup: join");
}

#[test]
fn lookups_are_bounded() {
    assert_eq!(cache_lookup_limit(None), 4);
    assert_eq!(cache_lookup_limit(Some(1)), 4);
    assert_eq!(cache_lookup_limit(Some(12)), 12);
    assert_eq!(cache_lookup_limit(Some(64)), 32);
}

#[test]
fn tarballs_of_distributed_versions_are_pointed_elsewhere() {
    let mut versions = StrMap::new();
    for (v, tarball, rest) in [("1.0.0", Some("https://a/1".to_string()), 10u16), ("2.0.0", None, 20u16)] {
        versions.insert(
            v.to_string(),
            VersionMetadata { name: "a".to_string(), version: v.to_string(), tarball, rest },
        );
    }
    let out = rewrite_tarballs(versions, &vec!["https://b/1".to_string(), "https://b/2".to_string()]);
    assert_eq!(out.get("1.0.0").unwrap().tarball, Some("https://b/1".to_string()));
    assert_eq!(out.get("2.0.0").unwrap().tarball, None);
    assert_eq!(out.get("1.0.0").unwrap().rest, 10);
    assert_eq!(out.get("2.0.0").unwrap().rest, 20);
    assert_eq!(out.len(), 2);
}

#[test]
fn an_exact_answer_holds_one_version() {
    let mut time = StrMap::new();
    time.insert("1.0.0".to_string(), "2024-01-01".to_string());
    let mut history = StrMap::new();
    history.insert("0.9.0".to_string(), 1u8);
    let doc = ExactDocument {
        metadata: VersionMetadata { name: "a".to_string(), version: "1.0.0".to_string(), tarball: None, rest: 7u16 },
        time,
        history,
    };
    let (record, answer) = fetch_exact_optional_packument("a", "1.0.0", Some(doc));
    assert_eq!(record, PermitRecord::Success);
    let answer = answer.unwrap();
    assert_eq!(answer.name, "a");
    assert_eq!(answer.source, FetchSource::Exact);
    assert_eq!(answer.packument.name, "a");
    assert_eq!(answer.packument.versions.len(), 1);
    assert_eq!(answer.packument.versions.get("1.0.0").unwrap().rest, 7);
    assert_eq!(answer.packument.time.get("1.0.0"), Some(&"2024-01-01".to_string()));
    assert_eq!(answer.history.unwrap().get("0.9.0"), Some(&1u8));
}

#[test]
fn a_whole_document_comes_with_its_name_and_source() {
    let inputs = plain_inputs();
    let answer = fetch_one_packument(&inputs, Some(Looked { hit: true, stale: false }), false, false);
    let given: Fetched<u16, u8> = fetched_document(&inputs, &answer, packument("b", &["1.0.0"]));
    assert_eq!((given.name.as_str(), given.packument.name.as_str()), ("a", "b"));
    assert_eq!(given.source, FetchSource::Disk);
    assert!(given.packument.versions.contains_key("1.0.0"));
    assert!(given.history.is_none());
    let answer = fetch_one_packument(&inputs, None, false, false);
    let given: Fetched<u16, u8> = fetched_document(&inputs, &answer, packument("a", &[]));
    assert_eq!(given.source, FetchSource::Network);
}

#[test]
fn a_forced_refresh_without_times_still_takes_a_cache_hit() {
    let forced = FetchInputs { force_refresh: true, ..plain_inputs() };
    assert!(!cache_lookup(&forced).unwrap().invalidate);
    let answer = fetch_one_packument(&forced, Some(Looked { hit: true, stale: false }), true, true);
    assert_eq!(answer.source(), FetchSource::Disk);
}
