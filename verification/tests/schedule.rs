use i2c_int_monitor::schedule::Ticker;

#[test]
fn ticker_waits_until_the_deadline() {
    let t = Ticker::new(100, 1000);
    assert_eq!(t.next_ms, 1100);
    assert_eq!(t.interval_ms, 1000);
    assert_eq!(t.timeout(100), 1000);
    assert_eq!(t.timeout(600), 500);
    assert_eq!(t.timeout(1099), 1);
    assert_eq!(t.timeout(1100), 0);
    assert_eq!(t.timeout(5000), 0);
    assert!(!t.is_due(0));
    assert!(!t.is_due(1099));
    assert!(t.is_due(1100));
    assert!(t.is_due(1101));
}

#[test]
fn ticker_rearms_from_the_time_of_the_sample() {
    let mut t = Ticker::new(0, 250);
    assert!(t.is_due(300));
    t.rearm(320);
    assert_eq!(t.next_ms, 570);
    assert_eq!(t.interval_ms, 250);
    assert!(!t.is_due(569));
    assert!(t.is_due(570));
}

#[test]
fn ticker_without_interval_is_always_due() {
    let mut t = Ticker::new(7, 0);
    assert!(t.is_due(7));
    assert_eq!(t.timeout(7), 0);
    t.rearm(9);
    assert!(t.is_due(9));
}

#[test]
fn ticker_deadline_is_held_at_the_largest_time() {
    let mut t = Ticker::new(u64::MAX - 5, 10);
    assert_eq!(t.next_ms, u64::MAX);
    assert_eq!(t.timeout(u64::MAX - 5), 5);
    t.rearm(u64::MAX);
    assert_eq!(t.next_ms, u64::MAX);
    assert!(t.is_due(u64::MAX));
}
