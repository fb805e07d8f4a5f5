//! Randomised exponential backoff used between retries of a failed shard.

use vstd::prelude::*;

verus! {

/// Lower bound of every backoff, in milliseconds.
pub const DEFAULT_BACKOFF: u64 = 500;

/// Upper bound of every backoff cap, in milliseconds (five minutes).
pub const MAX_BACKOFF: u64 = 300_000;

/// The cap that follows `current`: the current cap, clamped to at least the
/// default, doubled, and saturated at the maximum.
pub open spec fn next_cap(current: int) -> int {
    let clamped = if current < DEFAULT_BACKOFF { DEFAULT_BACKOFF as int } else { current };
    if 2 * clamped < MAX_BACKOFF { 2 * clamped } else { MAX_BACKOFF as int }
}

/// The cap reached after `k` successive applications of `next_cap`.
pub open spec fn cap_after(current: int, k: nat) -> int
    decreases k,
{
    if k == 0 {
        current
    } else {
        next_cap(cap_after(current, (k - 1) as nat))
    }
}

/// Relies on `rand::random_range` over an inclusive range: it panics only on
/// an empty range and otherwise returns a value inside it.
#[verifier::external_body]
fn random_between(low: u64, high: u64) -> (r: u64)
    requires
        low <= high,
    ensures
        low <= r <= high,
{
    rand::random_range(low..=high)
}

/// Computes the next backoff cap from `current` (milliseconds).
pub fn advance_cap(current: u64) -> (r: u64)
    ensures
        r == next_cap(current as int),
{
    if current >= MAX_BACKOFF / 2 {
        MAX_BACKOFF
    } else if current < DEFAULT_BACKOFF {
        2 * DEFAULT_BACKOFF
    } else {
        2 * current
    }
}

/// Returns the new backoff cap and a sleep, in milliseconds, drawn uniformly
/// from `[DEFAULT_BACKOFF, new cap]`.
pub fn jitter(current: u64) -> (r: (u64, u64))
    ensures
        r.0 == next_cap(current as int),
        DEFAULT_BACKOFF <= r.1 <= r.0,
{
    let cap = advance_cap(current);
    let sleep = random_between(DEFAULT_BACKOFF, cap);
    (cap, sleep)
}

/// Every cap lies within `[2 * DEFAULT_BACKOFF, MAX_BACKOFF]`, and a cap of at
/// least the default is doubled unless that passes the maximum.
pub proof fn lemma_next_cap_bounds(m: int)
    ensures
        2 * DEFAULT_BACKOFF <= next_cap(m) <= MAX_BACKOFF,
        m >= DEFAULT_BACKOFF ==> next_cap(m) == if 2 * m < MAX_BACKOFF {
            2 * m
        } else {
            MAX_BACKOFF as int
        },
{
}

/// Repeated application of the backoff step reaches the maximum after at most
/// ten steps, from any start, and stays there.
pub proof fn lemma_cap_saturates(m: int, k: nat)
    requires
        k >= 10,
    ensures
        cap_after(m, k) == MAX_BACKOFF,
        cap_after(m, k + 1) == MAX_BACKOFF,
    decreases k,
{
    if k == 10 {
        lemma_ten_steps(m);
    } else {
        lemma_cap_saturates(m, (k - 1) as nat);
    }
    assert(cap_after(m, k + 1) == next_cap(cap_after(m, k)));
}

/// Ten steps suffice: each step at least doubles the cap until it saturates.
proof fn lemma_ten_steps(m: int)
    ensures
        cap_after(m, 10) == MAX_BACKOFF,
{
    assert(cap_after(m, 1) >= 1_000);
    assert(cap_after(m, 2) >= 2_000);
    assert(cap_after(m, 3) >= 4_000);
    assert(cap_after(m, 4) >= 8_000);
    assert(cap_after(m, 5) >= 16_000);
    assert(cap_after(m, 6) >= 32_000);
    assert(cap_after(m, 7) >= 64_000);
    assert(cap_after(m, 8) >= 128_000);
    assert(cap_after(m, 9) >= 256_000);
    assert(cap_after(m, 10) == MAX_BACKOFF);
}

} // verus!
