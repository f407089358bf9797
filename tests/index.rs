use panamax_search::functions::{ensure_directory, filter_entries, path_parent, DirectoryError};
use panamax_search::index::{cache_is_fresh, CacheEntry, Index};
use panamax_search::krate::Crate;
use panamax_search::order::name_less;

fn record(name: &str, d: Option<&str>, ny: Option<&str>, y: Option<&str>) -> Crate {
    Crate {
        name: name.to_string(),
        description: d.map(|s| s.to_string()),
        latest_ny: ny.map(|s| s.to_string()),
        latest: y.map(|s| s.to_string()),
    }
}

fn sample() -> Index {
    let mut ix = Index::new();
    ix.insert(record("zeta", None, Some("1.0.0"), None));
    ix.insert(record("alpha", Some("first \"one\""), Some("0.1.0"), Some("0.2.0")));
    ix.insert(record("mid", Some("middle"), None, Some("3.0.0")));
    ix
}

fn names(ix: &Index) -> Vec<String> {
    ix.crates().iter().map(|c| c.name.clone()).collect()
}

#[test]
fn index_is_sorted_and_keys_unique() {
    let mut ix = sample();
    assert_eq!(names(&ix), vec!["alpha", "mid", "zeta"]);
    ix.insert(record("mid", None, Some("4.0.0"), None));
    assert_eq!(names(&ix), vec!["alpha", "mid", "zeta"]);
    assert_eq!(ix.crates()[1].latest_ny.as_deref(), Some("4.0.0"));
}

#[test]
fn cache_text_one_member_per_line() {
    let text = sample().to_json();
    assert_eq!(
        text,
        "{\"alpha\":{\"d\":\"first \\\"one\\\"\",\"v\":\"0.1.0\",\"y\":\"0.2.0\"},\n\"mid\":{\"d\":\"middle\",\"y\":\"3.0.0\"},\n\"zeta\":{\"v\":\"1.0.0\"}}"
    );
}

#[test]
fn cache_text_two_packages() {
    let mut ix = Index::new();
    ix.insert(record("b", Some("x"), None, Some("0.1.0")));
    ix.insert(record("a", None, Some("1.0.0"), None));
    assert_eq!(ix.to_json(), "{\"a\":{\"v\":\"1.0.0\"},\n\"b\":{\"d\":\"x\",\"y\":\"0.1.0\"}}");
}

#[test]
fn cache_text_escapes_control_characters() {
    let mut ix = Index::new();
    ix.insert(record("a", Some("t\u{1}\t\\/\u{7f}é"), Some("1.0.0"), None));
    assert_eq!(ix.to_json(), "{\"a\":{\"d\":\"t\\u0001\\t\\\\/\u{7f}é\",\"v\":\"1.0.0\"}}");
    let back = Index::from_json(&ix.to_json()).unwrap();
    assert_eq!(back.crates()[0].description.as_deref(), Some("t\u{1}\t\\/\u{7f}é"));
}

#[test]
fn cache_round_trip() {
    let ix = sample();
    let text = ix.to_json();
    let back = Index::from_json(&text).unwrap();
    let a: Vec<_> = ix.crates().iter().map(|c| format!("{c:?}")).collect();
    let b: Vec<_> = back.crates().iter().map(|c| format!("{c:?}")).collect();
    assert_eq!(a, b);
}

#[test]
fn cache_text_not_json_is_rejected() {
    assert!(Index::from_json("not json").is_none());
    assert!(Index::from_json("{\"a\":{\"v\":1}}").is_none());
}

#[test]
fn cache_entry_without_version_is_rejected() {
    assert!(Index::from_json("{\"a\":{\"d\":\"x\"}}").is_none());
    assert!(Index::from_json("{\"a\":{\"v\":\"1.x\"}}").is_none());
    assert!(Index::from_json("{\"a\":{\"v\":\"1.0.0\",\"y\":\"bad\"}}").is_none());
    assert!(Index::from_json("{\"\":{\"v\":\"1.0.0\"}}").is_none());
    let es = vec![CacheEntry { name: "a".to_string(), fields: vec![("v".to_string(), "1.0.0".to_string())] }];
    assert_eq!(names(&Index::from_entries(&es).unwrap()), vec!["a"]);
}

#[test]
fn stale_cache_is_not_used() {
    assert!(!cache_is_fresh(true, true, 100, 200));
    assert!(!cache_is_fresh(true, true, 200, 200));
    assert!(cache_is_fresh(true, true, 201, 200));
    assert!(!cache_is_fresh(false, true, 201, 200));
    assert!(!cache_is_fresh(true, false, 201, 200));
}

#[test]
fn parent_levels() {
    let p: Vec<String> = ["m", "index", "ab", "cd", "abcd"].iter().map(|s| s.to_string()).collect();
    assert_eq!(path_parent(&p, 0), p);
    assert_eq!(path_parent(&p, 3), vec!["m".to_string(), "index".to_string()]);
    assert!(path_parent(&p, 5).is_empty());
}

#[test]
fn directory_checks() {
    assert_eq!(ensure_directory(false, false), Err(DirectoryError::Missing));
    assert_eq!(ensure_directory(true, false), Err(DirectoryError::NotADirectory));
    assert_eq!(ensure_directory(true, true), Ok(()));
}

#[test]
fn walk_filter() {
    assert!(!filter_entries(true, ".git", 1));
    assert!(filter_entries(true, "ab", 1));
    assert!(!filter_entries(false, "config.json", 1));
    assert!(filter_entries(false, "abcd", 3));
}

#[test]
fn name_order_is_byte_order() {
    assert!(name_less(&"abc".to_string(), &"abd".to_string()));
    assert!(name_less(&"ab".to_string(), &"abc".to_string()));
    assert!(!name_less(&"abc".to_string(), &"abc".to_string()));
    assert!(name_less(&"Zed".to_string(), &"alpha".to_string()));
    assert!(!name_less(&"b".to_string(), &"a_long_name".to_string()));
}
