use clash_cli::mode::{mode_from_folded, parse_mode, Mode, ModeError};

#[test]
fn parse_mode_any_case() {
    assert_eq!(parse_mode("global").unwrap(), Mode::Global);
    assert_eq!(parse_mode("RULE").unwrap(), Mode::Rule);
    assert_eq!(parse_mode("Direct").unwrap(), Mode::Direct);
}

#[test]
fn parse_mode_invalid() {
    match parse_mode("proxy") {
        Err(ModeError::InvalidMode(t)) => assert_eq!(t, "proxy"),
        other => panic!("unexpected {:?}", other),
    }
}

#[test]
fn mode_from_folded_exact() {
    assert_eq!(mode_from_folded("rule"), Some(Mode::Rule));
    assert_eq!(mode_from_folded("Rule"), None);
}

#[test]
fn mode_names_and_numbers() {
    assert_eq!(Mode::Global.name(), "Global");
    assert_eq!(Mode::from_number(2), Some(Mode::Rule));
    assert_eq!(Mode::from_number(3), Some(Mode::Direct));
    assert_eq!(Mode::from_number(4), None);
    assert_eq!(Mode::from_number(0), None);
    assert_eq!(Mode::Direct.request().mode, "Direct");
}

#[test]
fn mode_is_current() {
    assert!(Mode::Rule.is_current("Rule"));
    assert!(!Mode::Rule.is_current("rule"));
}
