use panamax_search::index::Index;
use panamax_search::krate::Crate;
use panamax_search::render::escape_line_breaks;

fn record(name: &str, d: Option<&str>, ny: Option<&str>, y: Option<&str>) -> Crate {
    Crate {
        name: name.to_string(),
        description: d.map(|s| s.to_string()),
        latest_ny: ny.map(|s| s.to_string()),
        latest: y.map(|s| s.to_string()),
    }
}

fn names(v: &[Crate]) -> Vec<String> {
    v.iter().map(|c| c.name.clone()).collect()
}

fn q(v: &[&str]) -> Vec<String> {
    v.iter().map(|s| s.to_string()).collect()
}

fn foo_index() -> Index {
    let mut ix = Index::new();
    ix.insert(record("foo", None, Some("1.0.0"), None));
    ix.insert(record("foobar", Some("unrelated"), Some("0.1.0"), None));
    ix.insert(record("bar", Some("has foo in it"), Some("2.0.0"), None));
    ix.insert(record("baz", Some("nothing"), Some("0.0.1"), None));
    ix
}

#[test]
fn search_tiers() {
    let s = foo_index().search(&q(&["foo"]), true).unwrap();
    assert_eq!(names(&s.name_exact), vec!["foo"]);
    assert_eq!(names(&s.name_contains), vec!["foobar"]);
    assert_eq!(names(&s.desc_contains), vec!["bar"]);
    assert_eq!(names(&s.to_vec()), vec!["foo", "foobar", "bar"]);
}

#[test]
fn search_case_sensitivity() {
    let s = foo_index().search(&q(&["FOO"]), false).unwrap();
    assert!(s.to_vec().is_empty());
    let s = foo_index().search(&q(&["FOO"]), true).unwrap();
    assert!(s.name_exact.is_empty());
    assert_eq!(names(&s.name_contains), vec!["foo", "foobar"]);
}

#[test]
fn exact_tier_follows_query_order() {
    let s = foo_index().search(&q(&["bar", "foo"]), true).unwrap();
    assert_eq!(names(&s.name_exact), vec!["bar", "foo"]);
    assert_eq!(names(&s.name_contains), vec!["foobar"]);
    assert!(s.desc_contains.is_empty());
}

#[test]
fn repeated_query_listed_once() {
    let s = foo_index().search(&q(&["foo", "foo"]), true).unwrap();
    assert_eq!(names(&s.name_exact), vec!["foo"]);
}

#[test]
fn invalid_pattern_gives_none() {
    assert!(foo_index().search(&q(&["("]), true).is_none());
}

#[test]
fn description_marker_column_is_shared() {
    let s = foo_index().search(&q(&["foo", "ba"]), true).unwrap();
    let text = s.to_string(false, false);
    let lines: Vec<&str> = text.lines().collect();
    assert_eq!(lines.len(), 4);
    let cols: Vec<usize> = lines.iter().filter_map(|l| l.find('#')).collect();
    assert_eq!(cols.len(), 3);
    assert!(cols.iter().all(|c| *c == cols[0]));
    assert_eq!(
        text,
        "foo = \"1.0.0\"    \n\
         bar = \"2.0.0\"       # has foo in it\n\
         baz = \"0.0.1\"       # nothing\n\
         foobar = \"0.1.0\"    # unrelated\n"
    );
}

#[test]
fn yanked_version_shown_when_asked() {
    let mut ix = Index::new();
    ix.insert(record("alpha", None, Some("1.0.0"), Some("1.1.0")));
    ix.insert(record("alpine", None, None, Some("0.5.0")));
    let s = ix.search(&q(&["alp"]), true).unwrap();
    assert_eq!(s.to_string(true, false), "alpha = \"1.1.0\"    \nalpine = \"0.5.0\"    \n");
    assert_eq!(s.to_string(false, false), "alpha = \"1.0.0\"    \nalpine = \"0.0.0\"    \n");
}

#[test]
fn highlighting_marks_matches() {
    let mut ix = Index::new();
    ix.insert(record("foo", Some("a foo\nline"), Some("1.0.0"), None));
    let s = ix.search(&q(&["foo"]), true).unwrap();
    let plain = s.to_string(false, false);
    assert_eq!(plain, "foo = \"1.0.0\"    # a foo\nline\n");
    let lit = s.to_string(false, true);
    assert_ne!(lit, plain);
    assert!(lit.starts_with("\x1b[1m\x1b[32mfoo\x1b[39m\x1b[0m = \"1.0.0\"    "));
    assert!(lit.contains("\\n"));
    assert!(!lit.contains("foo\nline"));
}

#[test]
fn line_breaks_escaped() {
    assert_eq!(escape_line_breaks("a\nb\r\nc"), "a\\nb\\r\\nc");
    assert_eq!(escape_line_breaks(""), "");
}

#[test]
fn each_match_wrapped_once() {
    let mut ix = Index::new();
    ix.insert(record("zero0", None, Some("1.0.0"), None));
    let s = ix.search(&q(&["0"]), true).unwrap();
    let on = "\x1b[1m\x1b[32m";
    let off = "\x1b[39m\x1b[0m";
    let expected = format!("zero{on}0{off} = \"1.{on}0{off}.{on}0{off}\"    \n");
    assert_eq!(s.to_string(false, true), expected);
}

#[test]
fn overlapping_matches_form_one_run() {
    let mut ix = Index::new();
    ix.insert(record("abcd", None, Some("1.0.0"), None));
    let s = ix.search(&q(&["abc", "bcd"]), true).unwrap();
    let text = s.to_string(false, true);
    assert!(text.starts_with("\x1b[1m\x1b[32mabcd\x1b[39m\x1b[0m = "));
}
