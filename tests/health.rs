use matrix::backoff::{advance_cap, jitter, DEFAULT_BACKOFF, MAX_BACKOFF};
use matrix::errors::MongoErr;
use matrix::health::{ConnectionManager, GuardPhase, GuardStep, RetryGuard};
use matrix::hook::MongoHook;

#[test]
fn jitter_stays_in_range() {
    for m in [0u64, 499, 500, 501, 1_000, 149_999, 150_000, 200_000, 300_000, u64::MAX] {
        let expected = std::cmp::min(2 * std::cmp::max(m, DEFAULT_BACKOFF) as u128, MAX_BACKOFF as u128) as u64;
        for _ in 0..50 {
            let (cap, sleep) = jitter(m);
            assert_eq!(cap, expected);
            assert!(DEFAULT_BACKOFF <= sleep && sleep <= cap);
        }
    }
}

#[test]
fn cap_doubles_then_saturates() {
    assert_eq!(advance_cap(500), 1_000);
    assert_eq!(advance_cap(0), 1_000);
    assert_eq!(advance_cap(100_000), 200_000);
    assert_eq!(advance_cap(200_000), 300_000);
    let mut cap = 500u64;
    for _ in 0..10 {
        cap = advance_cap(cap);
    }
    assert_eq!(cap, 300_000);
    assert_eq!(advance_cap(cap), 300_000);
}

#[test]
fn failure_fails_fast_until_probe_succeeds() {
    let mut m = ConnectionManager::new("x".to_string(), Some(7u32));
    assert_eq!(m.acquire(), Ok(&7));
    let (err, started) = m.report_failure();
    assert_eq!(err, MongoErr::Unreachable("x".to_string()));
    assert!(started);
    assert_eq!(m.acquire().err(), Some(MongoErr::Unreachable("x".to_string())));
    let (_, started_again) = m.report_failure();
    assert!(!started_again);
    m.mark_recovered();
    assert_eq!(m.acquire(), Ok(&7));
    assert!(m.is_healthy());
}

#[test]
fn missing_handle_is_invalid_configuration() {
    let mut m: ConnectionManager<u32> = ConnectionManager::new("bad".to_string(), None);
    assert_eq!(m.acquire().err(), Some(MongoErr::InvalidUrl("bad".to_string())));
    let (err, started) = m.report_failure();
    assert_eq!(err, MongoErr::InvalidUrl("bad".to_string()));
    assert!(!started);
    assert!(m.is_healthy());
}

#[test]
fn guard_sleeps_probes_and_stops() {
    let (mut g, first) = RetryGuard::start();
    assert_eq!(first, GuardStep::Sleep(500));
    assert_eq!(g.after_sleep(false), GuardStep::Probe);
    match g.after_probe(false) {
        GuardStep::Sleep(ms) => assert!((500..=1_000).contains(&ms)),
        other => panic!("unexpected {:?}", other),
    }
    assert_eq!(g.cap_ms, 1_000);
    assert_eq!(g.phase, GuardPhase::Sleeping);
    assert_eq!(g.after_sleep(false), GuardStep::Probe);
    assert_eq!(g.after_probe(true), GuardStep::Recovered);
    assert_eq!(g.phase, GuardPhase::Finished);
    let (mut h, _) = RetryGuard::start();
    assert_eq!(h.after_sleep(true), GuardStep::Retired);
    assert_eq!(h.phase, GuardPhase::Finished);
}

#[test]
fn dropping_hook_signals() {
    let (tx, rx) = std::sync::mpsc::channel();
    let hook = MongoHook::new(tx);
    assert!(rx.try_recv().is_err());
    drop(hook);
    assert!(rx.try_recv().is_ok());
}
