use clash_cli::models::{ProxiesResponse, ProxyInfo};
use clash_cli::select::{pick_group, select_group, SelectError};

fn node(kind: &str, now: &str) -> ProxyInfo {
    ProxyInfo {
        proxy_type: kind.to_string(),
        all: Vec::new(),
        now: now.to_string(),
        history: Vec::new(),
    }
}

fn snapshot(entries: Vec<(&str, &str)>) -> ProxiesResponse {
    ProxiesResponse {
        proxies: entries.into_iter().map(|(n, k)| (n.to_string(), node(k, ""))).collect(),
    }
}

fn strings(v: &[&str]) -> Vec<String> {
    v.iter().map(|s| s.to_string()).collect()
}

#[test]
fn group_names_sorted_and_filtered() {
    let s = snapshot(vec![
        ("Zeta", "Selector"),
        ("DIRECT", "Direct"),
        ("Auto", "URLTest"),
        ("GLOBAL", "Selector"),
        ("Fallback", "Fallback"),
    ]);
    assert_eq!(s.group_names(), strings(&["Auto", "GLOBAL", "Zeta"]));
    assert_eq!(s.selector_names(), strings(&["GLOBAL", "Zeta"]));
}

#[test]
fn select_by_index() {
    let s = snapshot(vec![("b", "Selector"), ("a", "URLTest"), ("c", "Selector")]);
    assert_eq!(select_group(&s, "1").unwrap(), "a");
    assert_eq!(select_group(&s, "3").unwrap(), "c");
    assert_eq!(select_group(&s, "+2").unwrap(), "b");
}

#[test]
fn select_index_out_of_range() {
    let s = snapshot(vec![("b", "Selector"), ("a", "URLTest")]);
    assert!(matches!(select_group(&s, "0"), Err(SelectError::IndexOutOfRange)));
    assert!(matches!(select_group(&s, "3"), Err(SelectError::IndexOutOfRange)));
}

#[test]
fn select_ambiguous_prefix_lists_both() {
    let s = snapshot(vec![("GLOBAL2", "Selector"), ("GLOBAL", "Selector")]);
    match select_group(&s, "GLOB") {
        Err(SelectError::AmbiguousMatch(c)) => assert_eq!(c, strings(&["GLOBAL", "GLOBAL2"])),
        other => panic!("unexpected {:?}", other),
    }
}

#[test]
fn select_exact_name_wins() {
    let s = snapshot(vec![("GLOBALX", "Selector"), ("GLOBAL", "Selector")]);
    assert_eq!(select_group(&s, "GLOBAL").unwrap(), "GLOBAL");
}

#[test]
fn select_unique_prefix() {
    let s = snapshot(vec![("Streaming", "Selector"), ("GLOBAL", "Selector")]);
    assert_eq!(select_group(&s, "Str").unwrap(), "Streaming");
}

#[test]
fn select_case_insensitive_fallback() {
    let s = snapshot(vec![("Streaming", "Selector"), ("GLOBAL", "Selector")]);
    assert_eq!(select_group(&s, "glo").unwrap(), "GLOBAL");
}

#[test]
fn select_case_sensitive_preferred() {
    let s = snapshot(vec![("abc", "Selector"), ("ABD", "Selector")]);
    assert_eq!(select_group(&s, "ab").unwrap(), "abc");
    assert!(matches!(select_group(&s, "Ab"), Err(SelectError::AmbiguousMatch(_))));
}

#[test]
fn select_no_match_and_non_groups_ignored() {
    let s = snapshot(vec![("DIRECT", "Direct"), ("GLOBAL", "Selector")]);
    assert!(matches!(select_group(&s, "DIR"), Err(SelectError::NoMatch)));
    assert!(matches!(select_group(&s, "xyz"), Err(SelectError::NoMatch)));
}

#[test]
fn select_huge_number_is_a_name() {
    let s = snapshot(vec![("GLOBAL", "Selector")]);
    assert!(matches!(
        select_group(&s, "99999999999999999999999"),
        Err(SelectError::NoMatch)
    ));
}

#[test]
fn pick_group_with_given_folding() {
    let groups = strings(&["Alpha", "Beta"]);
    let folded = strings(&["alpha", "beta"]);
    assert_eq!(pick_group(&groups, &folded, "BE", "be").unwrap(), "Beta");
    assert_eq!(pick_group(&groups, &folded, "2", "2").unwrap(), "Beta");
    assert!(matches!(pick_group(&groups, &folded, "q", "q"), Err(SelectError::NoMatch)));
}
