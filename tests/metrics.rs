use matrix::metrics::{uptime_interval, Interval, Metrics};
use matrix::text::{compare_str, str_eq};
use std::cmp::Ordering;

#[test]
fn window_forgets_old_requests() {
    let mut m = Metrics::new();
    m.read(0);
    m.read(30_000);
    m.write(40_000);
    m.read(70_000);
    assert_eq!(m.reads_in_window(70_000), 2);
    assert_eq!(m.reads_in_window(90_000), 2);
    assert_eq!(m.reads_in_window(90_001), 1);
    assert_eq!(m.writes_in_window(100_000), 1);
    assert_eq!(m.writes_in_window(100_001), 0);
    assert_eq!(m.get_total_requests(), 4);
    m.fail();
    assert_eq!(m.get_total_fails(), 1);
    assert_eq!(m.get_total_requests(), 4);
}

#[test]
fn uptime_splits_into_months_days_micros() {
    let day: u64 = 86_400_000_000;
    assert_eq!(uptime_interval(0), Interval { months: 0, days: 0, microseconds: 0 });
    assert_eq!(uptime_interval(31 * day + 5), Interval { months: 1, days: 1, microseconds: 5 });
    assert_eq!(uptime_interval(day - 1), Interval { months: 0, days: 0, microseconds: (day - 1) as i64 });
    assert_eq!(uptime_interval(65 * day), Interval { months: 2, days: 5, microseconds: 0 });
    let top = uptime_interval(u64::MAX);
    assert_eq!(top.months as u64 * 30 + top.days as u64, u64::MAX / day);
}

#[test]
fn strings_order_like_str() {
    for (a, b) in [("a", "b"), ("", "a"), ("ab", "abc"), ("b", "ab"), ("same", "same"), ("é", "z"), ("Z", "a")] {
        assert_eq!(compare_str(a, b), a.cmp(b));
        assert_eq!(str_eq(a, b), a == b);
    }
    assert_eq!(compare_str("m", "m"), Ordering::Equal);
}
