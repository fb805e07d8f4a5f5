//! Request metrics: totals, and sliding windows of recent reads and writes.
//! Times are milliseconds on a clock that the caller supplies.

use std::collections::VecDeque;
use vstd::prelude::*;

verus! {

/// How long a request stays in a window, in milliseconds.
pub const METRIC_TTL_MS: u64 = 60_000;

/// The same span in seconds: the divisor of a per-second rate.
pub const METRIC_TTL_SECS: u64 = 60;

/// Whether a request at `ts` has left the window at time `now`.
pub open spec fn expired(ts: u64, now: u64) -> bool {
    now > ts + METRIC_TTL_MS
}

/// `s` without its leading run of expired entries.
pub open spec fn drop_expired(s: Seq<u64>, now: u64) -> Seq<u64>
    decreases s.len(),
{
    if s.len() > 0 && expired(s[0], now) {
        drop_expired(s.drop_first(), now)
    } else {
        s
    }
}

/// The number of entries of `s` still in the window at `now`.
pub open spec fn recent_count(s: Seq<u64>, now: u64) -> nat
    decreases s.len(),
{
    if s.len() == 0 {
        0
    } else {
        recent_count(s.drop_last(), now) + if expired(s.last(), now) { 0nat } else { 1nat }
    }
}

/// Microseconds in a day.
pub const MICROS_PER_DAY: u64 = 86_400_000_000;

/// Days in a month, by the convention of the metrics store.
pub const DAYS_PER_MONTH: u64 = 30;

/// An uptime split as the metrics store keeps it.
#[derive(Debug, Clone, Copy, PartialEq, Eq)]
pub struct Interval {
    pub months: i32,
    pub days: i32,
    pub microseconds: i64,
}

/// Splits `total_micros` into whole months of thirty days, the remaining whole
/// days, and the remaining microseconds.
pub fn uptime_interval(total_micros: u64) -> (r: Interval)
    ensures
        r.microseconds == total_micros % MICROS_PER_DAY,
        0 <= r.days < DAYS_PER_MONTH,
        r.months >= 0,
        r.months * DAYS_PER_MONTH + r.days == total_micros / MICROS_PER_DAY,
{
    let total_days: u64 = total_micros / MICROS_PER_DAY;
    assert(total_days <= 213_503_982) by {
        assert(total_micros <= u64::MAX);
    }
    let months = total_days / DAYS_PER_MONTH;
    let days = total_days % DAYS_PER_MONTH;
    let micros = total_micros % MICROS_PER_DAY;
    Interval { months: months as i32, days: days as i32, microseconds: micros as i64 }
}

/// Request counters and windows of one worker.
#[derive(Debug)]
pub struct Metrics {
    reads: VecDeque<u64>,
    writes: VecDeque<u64>,
    total_requests: u64,
    total_failed_requests: u64,
}

/// Records a request at `now`: drops the expired entries at the front, then
/// appends `now`.
fn insert_metric(window: &mut VecDeque<u64>, now: u64)
    ensures
        final(window)@ == drop_expired(old(window)@, now).push(now),
{
    loop
        invariant
            drop_expired(window@, now) == drop_expired(old(window)@, now),
        ensures
            window@ == drop_expired(old(window)@, now),
        decreases window@.len(),
    {
        if window.len() == 0 || window[0] >= now || now - window[0] <= METRIC_TTL_MS {
            break;
        }
        let ghost before = window@;
        let _ = window.pop_front();
        assert(window@ =~= before.drop_first());
    }
    window.push_back(now);
}

/// Counts the entries of `window` that are still in it at `now`.
fn count_recent(window: &VecDeque<u64>, now: u64) -> (r: usize)
    ensures
        r == recent_count(window@, now),
{
    let mut count: usize = 0;
    let mut i: usize = 0;
    while i < window.len()
        invariant
            i <= window@.len(),
            count == recent_count(window@.take(i as int), now),
            count <= i,
        decreases window@.len() - i,
    {
        assert(window@.take(i + 1).drop_last() =~= window@.take(i as int));
        let ts = window[i];
        if ts >= now || now - ts <= METRIC_TTL_MS {
            count = count + 1;
        }
        i = i + 1;
    }
    assert(window@.take(i as int) =~= window@);
    count
}

impl Metrics {
    pub closed spec fn spec_reads(&self) -> Seq<u64> {
        self.reads@
    }

    pub closed spec fn spec_writes(&self) -> Seq<u64> {
        self.writes@
    }

    pub closed spec fn spec_total(&self) -> u64 {
        self.total_requests
    }

    pub closed spec fn spec_failed(&self) -> u64 {
        self.total_failed_requests
    }

    /// Empty windows and zero totals.
    pub fn new() -> (r: Metrics)
        ensures
            r.spec_reads().len() == 0,
            r.spec_writes().len() == 0,
            r.spec_total() == 0,
            r.spec_failed() == 0,
    {
        Metrics { reads: VecDeque::new(), writes: VecDeque::new(), total_requests: 0, total_failed_requests: 0 }
    }

    /// Counts a read at `now`. The total wraps around like an atomic counter.
    pub fn read(&mut self, now: u64)
        ensures
            final(self).spec_total() == (old(self).spec_total() + 1) % 0x1_0000_0000_0000_0000,
            final(self).spec_failed() == old(self).spec_failed(),
            final(self).spec_reads() == drop_expired(old(self).spec_reads(), now).push(now),
            final(self).spec_writes() == old(self).spec_writes(),
    {
        self.total_requests = self.total_requests.wrapping_add(1);
        insert_metric(&mut self.reads, now);
    }

    /// Counts a write at `now`. The total wraps around like an atomic counter.
    pub fn write(&mut self, now: u64)
        ensures
            final(self).spec_total() == (old(self).spec_total() + 1) % 0x1_0000_0000_0000_0000,
            final(self).spec_failed() == old(self).spec_failed(),
            final(self).spec_writes() == drop_expired(old(self).spec_writes(), now).push(now),
            final(self).spec_reads() == old(self).spec_reads(),
    {
        self.total_requests = self.total_requests.wrapping_add(1);
        insert_metric(&mut self.writes, now);
    }

    /// Counts a failed request.
    pub fn fail(&mut self)
        ensures
            final(self).spec_failed() == (old(self).spec_failed() + 1) % 0x1_0000_0000_0000_0000,
            final(self).spec_total() == old(self).spec_total(),
            final(self).spec_reads() == old(self).spec_reads(),
            final(self).spec_writes() == old(self).spec_writes(),
    {
        self.total_failed_requests = self.total_failed_requests.wrapping_add(1);
    }

    /// The reads still in the window at `now`.
    pub fn reads_in_window(&self, now: u64) -> (r: usize)
        ensures
            r == recent_count(self.spec_reads(), now),
    {
        count_recent(&self.reads, now)
    }

    /// The writes still in the window at `now`.
    pub fn writes_in_window(&self, now: u64) -> (r: usize)
        ensures
            r == recent_count(self.spec_writes(), now),
    {
        count_recent(&self.writes, now)
    }

    pub fn get_total_requests(&self) -> (r: u64)
        ensures
            r == self.spec_total(),
    {
        self.total_requests
    }

    pub fn get_total_fails(&self) -> (r: u64)
        ensures
            r == self.spec_failed(),
    {
        self.total_failed_requests
    }
}

} // verus!
