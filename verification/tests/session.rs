use std::time::Duration;
use welly_rs::session::{anti_idle_due, anti_idle_payload, login_panel_shown};

#[test]
fn anti_idle_payload_matches_welly_nul_bytes() {
    assert_eq!(anti_idle_payload(), vec![0, 0, 0, 0, 0, 0]);
}

#[test]
fn anti_idle_stays_quiet_before_threshold() {
    assert!(!anti_idle_due(Duration::from_secs(58).as_nanos()));
}

#[test]
fn anti_idle_fires_after_welly_idle_window() {
    assert!(anti_idle_due(Duration::from_secs(59).as_nanos()));
}

#[test]
fn anti_idle_threshold_is_exact_to_the_nanosecond() {
    assert!(!anti_idle_due(Duration::from_secs(59).as_nanos() - 1));
    assert!(anti_idle_due(Duration::from_secs(3600).as_nanos()));
}

#[test]
fn login_panel_shows_only_when_idle_and_needing_credentials() {
    assert!(login_panel_shown(false, false, true, false));
    assert!(login_panel_shown(false, false, false, true));
    assert!(!login_panel_shown(false, false, false, false));
    assert!(!login_panel_shown(true, false, true, true));
    assert!(!login_panel_shown(false, true, true, true));
}
