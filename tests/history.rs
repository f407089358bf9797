use panamax_search::krate::{is_manifest_path, manifest_description, Crate, HistoryEntry, HistoryError, HistoryScan};

fn entry(name: &str, vers: &str, yanked: bool) -> HistoryEntry {
    HistoryEntry { name: name.to_string(), vers: vers.to_string(), yanked }
}

fn record(name: &str, ny: Option<&str>, y: Option<&str>) -> Crate {
    Crate {
        name: name.to_string(),
        description: None,
        latest_ny: ny.map(|s| s.to_string()),
        latest: y.map(|s| s.to_string()),
    }
}

#[test]
fn first_non_yanked_ends_the_scan() {
    // Most recent first: two yanked, then a non-yanked, then older lines.
    let es = vec![
        entry("foo", "1.3.0", true),
        entry("foo", "1.2.0", true),
        entry("foo", "1.1.0", false),
        entry("foo", "1.0.0", false),
        entry("foo", "not a version", true),
    ];
    let c = Crate::new(&es).unwrap();
    assert_eq!(c.name, "foo");
    assert_eq!(c.latest_ny.as_deref(), Some("1.1.0"));
    assert_eq!(c.latest.as_deref(), Some("1.3.0"));
    assert_eq!(c.description, None);
}

#[test]
fn non_yanked_most_recent_records_no_yanked() {
    let es = vec![entry("foo", "2.0.0", false), entry("foo", "1.9.0", true)];
    let c = Crate::new(&es).unwrap();
    assert_eq!(c.latest_ny.as_deref(), Some("2.0.0"));
    assert_eq!(c.latest, None);
}

#[test]
fn only_yanked_history() {
    let es = vec![entry("bar", "0.3.0", true), entry("bar", "0.2.0", true), entry("bar", "0.1.0", true)];
    let c = Crate::new(&es).unwrap();
    assert_eq!(c.name, "bar");
    assert_eq!(c.latest_ny, None);
    assert_eq!(c.latest.as_deref(), Some("0.3.0"));
}

#[test]
fn invalid_version_before_stop_is_an_error() {
    let es = vec![entry("foo", "1.x", true), entry("foo", "1.0.0", false)];
    assert!(matches!(Crate::new(&es), Err(HistoryError::InvalidVersion)));
}

#[test]
fn empty_history_has_no_name() {
    assert!(matches!(Crate::new(&vec![]), Err(HistoryError::NoName)));
}

#[test]
fn version_text_is_canonical() {
    let es = vec![entry("foo", "1.2.3-alpha.1+build.5", false)];
    let c = Crate::new(&es).unwrap();
    assert_eq!(c.latest_ny.as_deref(), Some("1.2.3-alpha.1+build.5"));
}

#[test]
fn scan_fed_step_by_step() {
    let mut scan = HistoryScan::new();
    assert!(scan.feed(&entry("baz", "0.2.0", true)));
    assert!(!scan.feed(&entry("baz", "0.1.0", false)));
    assert!(!scan.feed(&entry("baz", "0.0.1", false)));
    let c = scan.finish().unwrap();
    assert_eq!(c.latest_ny.as_deref(), Some("0.1.0"));
    assert_eq!(c.latest.as_deref(), Some("0.2.0"));
}

fn components(p: &str) -> Vec<String> {
    p.split('/').map(|s| s.to_string()).collect()
}

#[test]
fn archive_path_shards() {
    let cases = [
        ("a", "m/index/1/a", "m/crates/1/a/a/0.1.0/a-0.1.0.crate"),
        ("ab", "m/index/2/ab", "m/crates/2/ab/ab/0.1.0/ab-0.1.0.crate"),
        ("abc", "m/index/3/a/abc", "m/crates/3/a/abc/0.1.0/abc-0.1.0.crate"),
        ("abcd", "m/index/ab/cd/abcd", "m/crates/ab/cd/abcd/0.1.0/abcd-0.1.0.crate"),
        ("serde_json", "m/index/se/rd/serde_json", "m/crates/se/rd/serde_json/0.1.0/serde_json-0.1.0.crate"),
    ];
    for (name, index_file, expected) in cases {
        let c = record(name, Some("0.1.0"), None);
        let (path, version) = c.crate_file_and_version(&components(index_file));
        assert_eq!(version, "0.1.0");
        assert_eq!(path.join("/"), expected);
    }
}

#[test]
fn archive_path_uses_yanked_version_when_no_other() {
    let c = record("abcd", None, Some("0.0.7"));
    let (path, version) = c.crate_file_and_version(&components("m/index/ab/cd/abcd"));
    assert_eq!(version, "0.0.7");
    assert_eq!(path.join("/"), "m/crates/ab/cd/abcd/0.0.7/abcd-0.0.7.crate");
}

#[test]
fn description_from_package_section() {
    let d = manifest_description(Some(Some("pkg".to_string())), Some(Some("proj".to_string())));
    assert_eq!(d.as_deref(), Some("pkg"));
}

#[test]
fn description_from_legacy_project_section() {
    let d = manifest_description(None, Some(Some("proj".to_string())));
    assert_eq!(d.as_deref(), Some("proj"));
}

#[test]
fn description_absent_or_unparsable() {
    assert_eq!(manifest_description(Some(None), Some(Some("proj".to_string()))), None);
    assert_eq!(manifest_description(None, None), None);
    assert_eq!(manifest_description(None, Some(None)), None);
}

#[test]
fn add_description_sets_only_when_given() {
    let mut c = record("foo", Some("1.0.0"), None);
    c.add_description(None);
    assert_eq!(c.description, None);
    c.add_description(Some("text".to_string()));
    assert_eq!(c.description.as_deref(), Some("text"));
}

#[test]
fn manifest_path_in_archive() {
    assert!(is_manifest_path("foo-1.0.0/Cargo.toml", "foo", "1.0.0"));
    assert!(is_manifest_path("foo-1.0.0/cargo.toml", "foo", "1.0.0"));
    assert!(!is_manifest_path("foo-1.0.0/src/Cargo.toml", "foo", "1.0.0"));
    assert!(!is_manifest_path("foo-1.0.1/Cargo.toml", "foo", "1.0.0"));
}
