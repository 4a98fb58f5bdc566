use clash_cli::chain::{resolve, ChainError};
use clash_cli::models::{ProxiesResponse, ProxyInfo};

fn node(kind: &str, all: &[&str], now: &str) -> ProxyInfo {
    ProxyInfo {
        proxy_type: kind.to_string(),
        all: all.iter().map(|s| s.to_string()).collect(),
        now: now.to_string(),
        history: Vec::new(),
    }
}

fn snapshot(entries: Vec<(&str, ProxyInfo)>) -> ProxiesResponse {
    ProxiesResponse {
        proxies: entries.into_iter().map(|(n, i)| (n.to_string(), i)).collect(),
    }
}

#[test]
fn resolve_global_to_leaf() {
    let s = snapshot(vec![
        ("GLOBAL", node("Selector", &["Proxy-A", "Proxy-B"], "Proxy-A")),
        ("Proxy-A", node("Shadowsocks", &[], "")),
    ]);
    let chain = resolve(&s, "GLOBAL").unwrap();
    assert_eq!(chain, vec!["GLOBAL".to_string(), "Proxy-A".to_string()]);
    let last = s.position(&chain[chain.len() - 1]).unwrap();
    assert_eq!(s.proxies[last].1.proxy_type, "Shadowsocks");
    assert!(!s.proxies[last].1.is_group());
}

#[test]
fn resolve_through_nested_groups() {
    let s = snapshot(vec![
        ("GLOBAL", node("Selector", &["Auto"], "Auto")),
        ("Auto", node("URLTest", &["HK", "JP"], "JP")),
        ("JP", node("Vmess", &[], "")),
    ]);
    assert_eq!(resolve(&s, "GLOBAL").unwrap(), vec!["GLOBAL", "Auto", "JP"]);
}

#[test]
fn resolve_root_missing() {
    let s = snapshot(vec![("DIRECT", node("Direct", &[], ""))]);
    assert_eq!(resolve(&s, "GLOBAL"), Err(ChainError::RootNotFound));
}

#[test]
fn resolve_empty_selection_ends_at_root() {
    let s = snapshot(vec![("GLOBAL", node("Selector", &["A"], ""))]);
    assert_eq!(resolve(&s, "GLOBAL").unwrap(), vec!["GLOBAL"]);
}

#[test]
fn resolve_dangling_reference_is_last() {
    let s = snapshot(vec![("GLOBAL", node("Selector", &["Gone"], "Gone"))]);
    assert_eq!(resolve(&s, "GLOBAL").unwrap(), vec!["GLOBAL", "Gone"]);
}

#[test]
fn resolve_two_cycle_detected() {
    let s = snapshot(vec![
        ("A", node("Selector", &["B"], "B")),
        ("B", node("Selector", &["A"], "A")),
    ]);
    assert_eq!(resolve(&s, "A"), Err(ChainError::CycleDetected));
}

#[test]
fn resolve_self_cycle_detected() {
    let s = snapshot(vec![("A", node("URLTest", &["A"], "A"))]);
    assert_eq!(resolve(&s, "A"), Err(ChainError::CycleDetected));
}

#[test]
fn resolve_chain_within_bound() {
    let s = snapshot(vec![
        ("A", node("Selector", &["B"], "B")),
        ("B", node("Selector", &["C"], "C")),
        ("C", node("Selector", &["D"], "D")),
    ]);
    let chain = resolve(&s, "A").unwrap();
    assert_eq!(chain, vec!["A", "B", "C", "D"]);
    assert!(chain.len() <= s.proxies.len() + 1);
    assert_eq!(chain[0], "A");
}

#[test]
fn resolve_first_entry_of_a_name_counts() {
    let s = snapshot(vec![
        ("GLOBAL", node("Selector", &["X"], "X")),
        ("X", node("Direct", &[], "")),
        ("X", node("Selector", &["Y"], "Y")),
    ]);
    assert_eq!(resolve(&s, "GLOBAL").unwrap(), vec!["GLOBAL", "X"]);
}

#[test]
fn position_finds_first_entry() {
    let s = snapshot(vec![
        ("A", node("Direct", &[], "")),
        ("B", node("Direct", &[], "")),
        ("B", node("Reject", &[], "")),
    ]);
    assert_eq!(s.position("B"), Some(1));
    assert_eq!(s.position("C"), None);
}
