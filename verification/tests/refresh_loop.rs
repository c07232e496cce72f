use morningstar::refresh::{
    seconds_until, RefreshAction, RefreshCoordinator, RefreshState, DEFAULT_TTL_SECS,
};

fn deadline_of(c: &RefreshCoordinator) -> i64 {
    match c.state {
        RefreshState::Waiting { deadline } => deadline,
        RefreshState::Reimporting => panic!("expected a waiting coordinator"),
    }
}

#[test]
fn deadline_follows_extraction_instant() {
    let c = RefreshCoordinator::with_default_ttl(1000);
    assert_eq!(deadline_of(&c), 1000 + DEFAULT_TTL_SECS);
    let c2 = RefreshCoordinator::new(90, 5000);
    assert_eq!(deadline_of(&c2), 5090);
}

#[test]
fn poll_before_deadline_sleeps() {
    let mut c = RefreshCoordinator::with_default_ttl(1000);
    match c.poll(1100) {
        RefreshAction::Sleep { until } => assert_eq!(until, 2200),
        RefreshAction::StartImport => panic!("the deadline has not elapsed"),
    }
    assert!(matches!(c.state, RefreshState::Waiting { .. }));
}

#[test]
fn poll_at_deadline_starts_import() {
    let mut c = RefreshCoordinator::with_default_ttl(1000);
    assert!(matches!(c.poll(2200), RefreshAction::StartImport));
    assert!(matches!(c.state, RefreshState::Reimporting));
}

#[test]
fn success_installs_new_extraction_instant() {
    let mut c = RefreshCoordinator::with_default_ttl(1000);
    assert!(matches!(c.poll(2200), RefreshAction::StartImport));
    c.import_succeeded(50_000);
    assert_eq!(deadline_of(&c), 50_000 + DEFAULT_TTL_SECS);
    assert_eq!(c.failures, 0);
}

#[test]
fn failures_back_off_and_are_bounded() {
    let mut c = RefreshCoordinator::new(1200, 0);
    let mut now = 1200;
    let expected_delays = [30, 60, 120, 240, 480, 960, 960];
    for delay in expected_delays {
        assert!(matches!(c.poll(now), RefreshAction::StartImport));
        c.import_failed(now);
        let d = deadline_of(&c);
        assert_eq!(d - now, delay);
        assert!(d > now, "retry must never be immediate");
        now = d;
    }
    assert_eq!(c.failures, expected_delays.len() as u32);
    // A success resets the backoff.
    assert!(matches!(c.poll(now), RefreshAction::StartImport));
    c.import_succeeded(now);
    assert_eq!(c.failures, 0);
}

#[test]
fn backoff_is_capped_by_the_ttl() {
    let mut c = RefreshCoordinator::new(100, 0);
    let mut now = 100;
    for expected in [30, 60, 100, 100] {
        assert!(matches!(c.poll(now), RefreshAction::StartImport));
        c.import_failed(now);
        assert_eq!(deadline_of(&c) - now, expected);
        now = deadline_of(&c);
    }
}

#[test]
fn sleep_time_is_clamped_at_zero() {
    assert_eq!(seconds_until(100, 250), 150);
    assert_eq!(seconds_until(250, 250), 0);
    assert_eq!(seconds_until(300, 250), 0);
}
