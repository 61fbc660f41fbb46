use trackly_app::printer::{
    detect_alert_type, identify_vendor, parse_toner_level, poll_decision, prune_cutoffs,
    PollOutcome, SnmpValue,
};

#[test]
fn test_toner_percent() {
    assert_eq!(parse_toner_level(45, 100, "level_over_max"), Some(45));
    assert_eq!(parse_toner_level(-2, -2, "level_over_max"), None);
    assert_eq!(parse_toner_level(75, 0, "percent"), Some(75));
    assert_eq!(parse_toner_level(0, 100, "level_over_max"), Some(0));
    assert_eq!(parse_toner_level(110, 100, "level_over_max"), Some(100));
}

#[test]
fn test_vendor_identify() {
    assert_eq!(identify_vendor("1.3.6.1.4.1.40093.1"), Some("pantum"));
    assert_eq!(identify_vendor("1.3.6.1.4.1.1347.42.1"), Some("kyocera"));
    assert_eq!(identify_vendor("1.3.6.1.4.1.11.2.3.9.1"), Some("hp"));
    assert_eq!(identify_vendor("1.3.6.1.4.1.1602.1.1"), Some("canon"));
    assert_eq!(identify_vendor("1.3.6.1.4.1.99999.1"), None);
    assert_eq!(identify_vendor(""), None);
}

#[test]
fn test_detect_alert_type() {
    assert_eq!(detect_alert_type("error"), Some("error"));
    assert_eq!(detect_alert_type("offline"), Some("offline"));
    assert_eq!(detect_alert_type("ok"), None);
    assert_eq!(detect_alert_type("warning"), None);
    assert_eq!(detect_alert_type("unknown"), None);
}

#[test]
fn toner_rounds_half_up_and_caps_percent() {
    assert_eq!(parse_toner_level(1, 200, "level_over_max"), Some(1));
    assert_eq!(parse_toner_level(2, 3, "level_over_max"), Some(67));
    assert_eq!(parse_toner_level(999, 1000, "level_over_max"), Some(100));
    assert_eq!(parse_toner_level(5, 0, "level_over_max"), None);
    assert_eq!(parse_toner_level(300, 0, "percent"), Some(100));
    assert_eq!(parse_toner_level(256, 0, "percent"), Some(100));
    assert_eq!(parse_toner_level(250, 0, "percent"), Some(100));
    assert_eq!(parse_toner_level(10, 100, "dots"), None);
}

#[test]
fn poll_decisions_follow_outcome() {
    let ok = poll_decision(&PollOutcome::Answered(vec![SnmpValue::Integer(4)])).unwrap();
    assert_eq!(ok.status, "ok");
    assert_eq!(ok.alert, None);
    let unknown = poll_decision(&PollOutcome::Answered(vec![SnmpValue::Integer(1)])).unwrap();
    assert_eq!(unknown.status, "unknown");
    let empty = poll_decision(&PollOutcome::Answered(vec![])).unwrap();
    assert_eq!(empty.status, "unknown");
    let other = poll_decision(&PollOutcome::Answered(vec![SnmpValue::Other])).unwrap();
    assert_eq!(other.status, "ok");
    let offline = poll_decision(&PollOutcome::NoAnswer).unwrap();
    assert_eq!(offline.status, "offline");
    assert_eq!(offline.alert.as_deref(), Some("offline"));
    assert!(poll_decision(&PollOutcome::Failed).is_none());
}

#[test]
fn prune_windows_are_ninety_and_thirty_days() {
    assert_eq!(prune_cutoffs(10_000_000), (10_000_000 - 7_776_000, 10_000_000 - 2_592_000));
}

#[test]
fn toner_ratio_rounds_exact_halves_up() {
    assert_eq!(parse_toner_level(23, 40, "level_over_max"), Some(58));
    assert_eq!(parse_toner_level(1, 3, "level_over_max"), Some(33));
    assert_eq!(parse_toner_level(2, 3, "level_over_max"), Some(67));
}
