use clash_cli::models::ProxyInfo;
use clash_cli::switch::{nth_choice, plan_switch, shows_chain, SwitchError};

fn node(kind: &str, all: &[&str], now: &str) -> ProxyInfo {
    ProxyInfo {
        proxy_type: kind.to_string(),
        all: all.iter().map(|s| s.to_string()).collect(),
        now: now.to_string(),
        history: Vec::new(),
    }
}

#[test]
fn switch_to_member() {
    let g = node("Selector", &["Proxy-A", "Proxy-B"], "Proxy-A");
    let req = plan_switch(&g, "Proxy-B").unwrap();
    assert_eq!(req.name, "Proxy-B");
}

#[test]
fn switch_target_not_member_lists_members_in_order() {
    let g = node("Selector", &["Proxy-B", "Proxy-A", "DIRECT"], "Proxy-A");
    match plan_switch(&g, "Proxy-C") {
        Err(SwitchError::TargetNotMember { members, current }) => {
            assert_eq!(members, vec!["Proxy-B", "Proxy-A", "DIRECT"]);
            assert_eq!(current, "Proxy-A");
        }
        other => panic!("unexpected {:?}", other.map(|r| r.name)),
    }
}

#[test]
fn switch_url_test_is_not_a_selector() {
    let g = node("URLTest", &["Proxy-A"], "Proxy-A");
    assert!(matches!(plan_switch(&g, "Proxy-A"), Err(SwitchError::NotASelector)));
}

#[test]
fn nth_choice_counts_from_one() {
    let opts = vec!["a".to_string(), "b".to_string()];
    assert_eq!(nth_choice(&opts, 1), Some("a".to_string()));
    assert_eq!(nth_choice(&opts, 2), Some("b".to_string()));
    assert_eq!(nth_choice(&opts, 0), None);
    assert_eq!(nth_choice(&opts, 3), None);
}

#[test]
fn shows_chain_only_for_root() {
    assert!(shows_chain("GLOBAL"));
    assert!(!shows_chain("Proxy"));
}
