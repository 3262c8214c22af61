use latest::cache::Cache;
use latest::lookup::{lookup, query_source, FixedSource, LookupMode, SourceEntry, Status};
use latest::sources::{Ecosystem, SourceInfo};

fn mock(
    name: &str,
    packages: &[(&str, &str)],
    local: bool,
    ecosystem: Ecosystem,
) -> SourceEntry<FixedSource> {
    SourceEntry {
        info: SourceInfo { name: name.to_string(), local, ecosystem },
        adapter: FixedSource {
            packages: packages
                .iter()
                .map(|(p, v)| (p.to_string(), v.to_string()))
                .collect(),
        },
    }
}

#[test]
fn test_lookup_up_to_date() {
    let sources = vec![
        mock("path", &[("node", "25.0.0")], true, Ecosystem::System),
        mock("brew", &[("node", "25.0.0")], false, Ecosystem::System),
    ];
    let mut cache = Cache::new();
    let r = lookup("node", &sources, LookupMode::Default, &mut cache, false, 0);
    assert_eq!(r.status, Status::UpToDate);
}

#[test]
fn test_lookup_outdated_same_ecosystem() {
    let sources = vec![
        mock("path", &[("node", "24.0.0")], true, Ecosystem::System),
        mock("brew", &[("node", "25.0.0")], false, Ecosystem::System),
    ];
    let mut cache = Cache::new();
    let r = lookup("node", &sources, LookupMode::Default, &mut cache, false, 0);
    assert_eq!(r.status, Status::Outdated);
}

#[test]
fn test_lookup_not_outdated_different_ecosystem() {
    let sources = vec![
        mock("path", &[("mcs", "0.7.0")], true, Ecosystem::System),
        mock("npm", &[("mcs", "2.0.0")], false, Ecosystem::Npm),
    ];
    let mut cache = Cache::new();
    let r = lookup("mcs", &sources, LookupMode::Default, &mut cache, false, 0);
    assert_eq!(r.status, Status::UpToDate); // Different ecosystem, not compared
}

#[test]
fn test_lookup_not_installed() {
    let sources = vec![
        mock("path", &[], true, Ecosystem::System),
        mock("npm", &[("express", "5.0.0")], false, Ecosystem::Npm),
    ];
    let mut cache = Cache::new();
    let r = lookup("express", &sources, LookupMode::Default, &mut cache, false, 0);
    assert_eq!(r.status, Status::NotInstalled);
    assert_eq!(r.available.len(), 1);
}

#[test]
fn test_lookup_not_found() {
    let sources = vec![mock("path", &[], true, Ecosystem::System)];
    let mut cache = Cache::new();
    let r = lookup("nonexistent", &sources, LookupMode::Default, &mut cache, false, 0);
    assert_eq!(r.status, Status::NotFound);
}

#[test]
fn test_lookup_all_mode() {
    let sources = vec![
        mock("path", &[("node", "25.0.0")], true, Ecosystem::System),
        mock("npm", &[("node", "24.0.0")], false, Ecosystem::Npm),
    ];
    let mut cache = Cache::new();
    let r = lookup("node", &sources, LookupMode::All, &mut cache, false, 0);
    assert_eq!(r.available.len(), 2);
    assert_eq!(r.status, Status::UpToDate);
}

#[test]
fn test_lookup_outdated_reports_versions() {
    let sources = vec![
        mock("path", &[("node", "24.0.0")], true, Ecosystem::System),
        mock("brew", &[("node", "25.0.0")], false, Ecosystem::System),
    ];
    let mut cache = Cache::new();
    let r = lookup("node", &sources, LookupMode::Default, &mut cache, false, 0);
    assert_eq!(r.status, Status::Outdated);
    assert_eq!(r.installed.as_ref().unwrap().version, "24.0.0");
    assert_eq!(r.installed.as_ref().unwrap().source, "path");
    assert_eq!(r.latest.as_ref().unwrap().version, "25.0.0");
    assert_eq!(r.latest.as_ref().unwrap().source, "brew");
}

#[test]
fn test_lookup_up_to_date_repeats_installed() {
    let sources = vec![
        mock("path", &[("node", "25.0.0")], true, Ecosystem::System),
        mock("brew", &[("node", "25.0.0")], false, Ecosystem::System),
    ];
    let mut cache = Cache::new();
    let r = lookup("node", &sources, LookupMode::Default, &mut cache, false, 0);
    assert_eq!(r.status, Status::UpToDate);
    assert_eq!(r.installed.as_ref().unwrap().version, "25.0.0");
    assert_eq!(r.latest.as_ref().unwrap().version, "25.0.0");
}

#[test]
fn test_lookup_cross_ecosystem_collision_reported() {
    let sources = vec![
        mock("path", &[("mcs", "0.7.0")], true, Ecosystem::System),
        mock("npm", &[("mcs", "2.0.0")], false, Ecosystem::Npm),
    ];
    let mut cache = Cache::new();
    let r = lookup("mcs", &sources, LookupMode::Default, &mut cache, false, 0);
    assert_eq!(r.status, Status::UpToDate);
    assert_eq!(r.also_found_in, vec!["npm".to_string()]);
}

#[test]
fn test_lookup_newest_candidate_wins() {
    let sources = vec![
        mock("path", &[("tool", "1.0.0")], true, Ecosystem::System),
        mock("brew", &[("tool", "1.5.0")], false, Ecosystem::System),
        mock("apt", &[("tool", "2.0.0")], false, Ecosystem::System),
    ];
    let mut cache = Cache::new();
    let r = lookup("tool", &sources, LookupMode::Default, &mut cache, false, 0);
    assert_eq!(r.status, Status::Outdated);
    assert_eq!(r.latest.as_ref().unwrap().version, "2.0.0");
    assert_eq!(r.latest.as_ref().unwrap().source, "apt");
}

#[test]
fn test_lookup_not_installed_takes_first_as_latest() {
    let sources = vec![
        mock("npm", &[("pkg", "5.0.0")], false, Ecosystem::Npm),
        mock("cargo", &[("pkg", "6.0.0")], false, Ecosystem::Cargo),
    ];
    let mut cache = Cache::new();
    let r = lookup("pkg", &sources, LookupMode::Default, &mut cache, false, 0);
    assert_eq!(r.status, Status::NotInstalled);
    assert_eq!(r.latest.as_ref().unwrap().version, "5.0.0");
    assert_eq!(r.available.len(), 2);
}

#[test]
fn test_lookup_explicit_mode() {
    let sources = vec![mock("cargo", &[("serde", "1.0.200")], false, Ecosystem::Cargo)];
    let mut cache = Cache::new();
    let r = lookup("serde", &sources, LookupMode::Explicit, &mut cache, false, 0);
    assert_eq!(r.status, Status::UpToDate);
    assert_eq!(r.installed.as_ref().unwrap().version, "1.0.200");
    assert_eq!(r.latest.as_ref().unwrap().version, "1.0.200");
}

#[test]
fn test_lookup_empty_source_set_is_not_found() {
    // An unknown source name resolves to no adapters at all.
    assert!(latest::sources::source_by_name("not_a_source").is_none());
    let sources: Vec<SourceEntry<FixedSource>> = Vec::new();
    let mut cache = Cache::new();
    for mode in [LookupMode::Default, LookupMode::Explicit, LookupMode::All] {
        let r = lookup("anything", &sources, mode, &mut cache, true, 0);
        assert_eq!(r.status, Status::NotFound);
    }
}

#[test]
fn test_query_source_local_never_touches_cache() {
    let local = mock("path", &[("node", "1.0.0")], true, Ecosystem::System);
    let mut cache = Cache::new();
    // A conflicting entry sits in the cache under the same key.
    cache.set("path", "node", "9.9.9", 0);
    let r = query_source(&local, "node", &mut cache, true, 0);
    // The answer comes from the source, and the cache entry is untouched.
    assert_eq!(r, Some("1.0.0".to_string()));
    assert_eq!(cache.len(), 1);
    assert_eq!(cache.get("path", "node", 0), Some("9.9.9".to_string()));
}

#[test]
fn test_query_source_local_never_writes_cache() {
    let local = mock("path", &[("node", "1.0.0")], true, Ecosystem::System);
    let mut cache = Cache::new();
    let r = query_source(&local, "node", &mut cache, true, 0);
    assert_eq!(r, Some("1.0.0".to_string()));
    assert_eq!(cache.len(), 0);
}

#[test]
fn test_query_source_writes_through_and_serves_hits() {
    let registry = mock("npm", &[("express", "5.0.0")], false, Ecosystem::Npm);
    let mut cache = Cache::new();
    let r = query_source(&registry, "express", &mut cache, true, 10);
    assert_eq!(r, Some("5.0.0".to_string()));
    // A source that no longer answers is still served from the cache.
    let gone = mock("npm", &[], false, Ecosystem::Npm);
    let r2 = query_source(&gone, "express", &mut cache, true, 20);
    assert_eq!(r2, Some("5.0.0".to_string()));
    // With the cache disabled the empty source answers nothing.
    let r3 = query_source(&gone, "express", &mut cache, false, 20);
    assert_eq!(r3, None);
}

#[test]
fn test_query_source_failure_is_not_cached() {
    let gone = mock("npm", &[], false, Ecosystem::Npm);
    let mut cache = Cache::new();
    assert_eq!(query_source(&gone, "express", &mut cache, true, 0), None);
    assert_eq!(cache.len(), 0);
}

#[test]
fn test_outdated_exit_code() {
    // Exit codes are derived by the caller from statuses; the Outdated
    // verdict that drives the distinct code is checked here.
    let sources = vec![
        mock("path", &[("node", "24.0.0")], true, Ecosystem::System),
        mock("brew", &[("node", "25.0.0")], false, Ecosystem::System),
    ];
    let mut cache = Cache::new();
    let r = lookup("node", &sources, LookupMode::Default, &mut cache, false, 0);
    assert_eq!(r.status, Status::Outdated);
}

#[test]
fn test_lookup_tied_candidates_first_wins() {
    let sources = vec![
        mock("path", &[("tool", "1.0.0")], true, Ecosystem::System),
        mock("brew", &[("tool", "2.0.0")], false, Ecosystem::System),
        mock("apt", &[("tool", "2.0.0")], false, Ecosystem::System),
    ];
    let mut cache = Cache::new();
    let r = lookup("tool", &sources, LookupMode::Default, &mut cache, false, 0);
    assert_eq!(r.status, Status::Outdated);
    assert_eq!(r.latest.as_ref().unwrap().version, "2.0.0");
    // Ties between equal candidates go to the earlier source.
    assert_eq!(r.latest.as_ref().unwrap().source, "brew");
}
