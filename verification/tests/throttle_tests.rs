use kt_resolver::throttle::{throttled_warn, WarnThrottle, MAX_DEPTH_REPORTS, WARN_WINDOW_SECS};

#[test]
fn lifetime_budget_logs_the_first_reports_only() {
    let mut counter = 0usize;
    let mut logged = Vec::new();
    for _ in 0..5 {
        logged.push(throttled_warn(&mut counter, 3));
    }
    assert_eq!(
        logged,
        vec![Some(""), Some(""), Some(" Further reports suppressed."), None, None]
    );
    assert_eq!(counter, 5);
}

#[test]
fn lifetime_counter_wraps_like_an_atomic() {
    let mut counter = usize::MAX;
    assert_eq!(throttled_warn(&mut counter, 3), None);
    assert_eq!(counter, 0);
}

#[test]
fn window_budget_refills_after_the_window() {
    let mut t = WarnThrottle::new(2);
    assert_eq!(t.warn(10), Some(""));
    assert_eq!(
        t.warn(20),
        Some(" Further reports from here suppressed until the next window.")
    );
    assert_eq!(t.warn(30), None);
    assert_eq!(t.warn(WARN_WINDOW_SECS - 1), None);
    assert_eq!(t.warn(WARN_WINDOW_SECS), Some(""));
}

#[test]
fn default_budget_logs_five_per_window() {
    let mut t = WarnThrottle::new(MAX_DEPTH_REPORTS);
    let logged = (0..7).filter(|i| t.warn(*i).is_some()).count();
    assert_eq!(logged, 5);
}
