//! Connection health: the fail-fast gate in front of one shard connection,
//! and the retry guard that probes a degraded shard until it recovers.

use crate::backoff::{jitter, next_cap, DEFAULT_BACKOFF};
use crate::errors::MongoErr;
use vstd::prelude::*;

verus! {

/// One shard connection: its url, the connection handle if one could be
/// made, and whether the shard is currently degraded.
pub struct ConnectionManager<H> {
    url: String,
    handle: Option<H>,
    degraded: bool,
}

impl<H> ConnectionManager<H> {
    /// The url that identifies the shard.
    pub closed spec fn spec_url(&self) -> Seq<char> {
        self.url@
    }

    /// The connection handle, absent when the connection string was unusable.
    pub closed spec fn spec_handle(&self) -> Option<H> {
        self.handle
    }

    /// Whether the shard is degraded: calls fail fast while a guard retries.
    pub closed spec fn spec_degraded(&self) -> bool {
        self.degraded
    }

    /// A manager without a handle is never degraded: there is nothing to retry.
    pub open spec fn wf(&self) -> bool {
        self.spec_handle() is None ==> !self.spec_degraded()
    }

    #[verifier::type_invariant]
    closed spec fn inv(&self) -> bool {
        self.wf()
    }

    /// Failure reports and recoveries keep the url and the handle.
    pub proof fn lemma_transitions_keep_identity(self)
        ensures
            self.after_failure().spec_url() == self.spec_url(),
            self.after_failure().spec_handle() == self.spec_handle(),
            self.after_recovery().spec_url() == self.spec_url(),
            self.after_recovery().spec_handle() == self.spec_handle(),
    {
    }

    /// The state after a transport failure is reported.
    pub closed spec fn after_failure(self) -> Self {
        if self.handle is Some {
            ConnectionManager { degraded: true, ..self }
        } else {
            self
        }
    }

    /// The state after a liveness probe succeeded.
    pub closed spec fn after_recovery(self) -> Self {
        ConnectionManager { degraded: false, ..self }
    }

    /// A healthy manager for `url`.
    pub fn new(url: String, handle: Option<H>) -> (r: Self)
        ensures
            r.spec_url() == url@,
            r.spec_handle() == handle,
            !r.spec_degraded(),
            r.wf(),
    {
        ConnectionManager { url, handle, degraded: false }
    }

    /// The shard's url.
    pub fn url(&self) -> (r: &str)
        ensures
            r@ == self.spec_url(),
    {
        self.url.as_str()
    }

    /// Whether the shard is currently healthy.
    pub fn is_healthy(&self) -> (r: bool)
        ensures
            r == !self.spec_degraded(),
    {
        !self.degraded
    }

    /// The live handle, or a fail-fast error: `Unreachable` while degraded,
    /// `InvalidUrl` when no handle could be made.
    pub fn acquire(&self) -> (r: Result<&H, MongoErr>)
        ensures
            self.wf(),
            self.spec_degraded() ==> (r matches Err(MongoErr::Unreachable(u)) && u@ == self.spec_url()),
            !self.spec_degraded() && self.spec_handle() is None ==> (r matches Err(
                MongoErr::InvalidUrl(u),
            ) && u@ == self.spec_url()),
            !self.spec_degraded() && self.spec_handle() is Some ==> (r matches Ok(h)
                && self.spec_handle() == Some(*h)),
    {
        proof {
            use_type_invariant(self);
        }
        if self.degraded {
            return Err(MongoErr::Unreachable(self.url.clone()));
        }
        match &self.handle {
            Some(h) => Ok(h),
            None => Err(MongoErr::InvalidUrl(self.url.clone())),
        }
    }

    /// Reports a transport failure of an operation on this shard. A manager
    /// with a handle becomes degraded and the error is `Unreachable`; the flag
    /// says whether this report moved it from healthy to degraded, so that
    /// exactly one guard is started. A manager without a handle stays as it
    /// is and the error is `InvalidUrl`.
    pub fn report_failure(&mut self) -> (r: (MongoErr, bool))
        ensures
            *final(self) == old(self).after_failure(),
            final(self).wf(),
            final(self).spec_url() == old(self).spec_url(),
            final(self).spec_handle() == old(self).spec_handle(),
            final(self).spec_degraded() == (old(self).spec_degraded() || old(self).spec_handle() is Some),
            old(self).spec_handle() is Some ==> (r.0 matches MongoErr::Unreachable(u) && u@
                == old(self).spec_url()),
            old(self).spec_handle() is Some ==> r.1 == !old(self).spec_degraded(),
            old(self).spec_handle() is None ==> (r.0 matches MongoErr::InvalidUrl(u) && u@
                == old(self).spec_url()),
            old(self).spec_handle() is None ==> !r.1,
    {
        proof {
            use_type_invariant(&*self);
        }
        if self.handle.is_none() {
            return (MongoErr::InvalidUrl(self.url.clone()), false);
        }
        let started = !self.degraded;
        self.degraded = true;
        (MongoErr::Unreachable(self.url.clone()), started)
    }

    /// Records that a liveness probe succeeded: the shard is healthy again.
    pub fn mark_recovered(&mut self)
        ensures
            *final(self) == old(self).after_recovery(),
            final(self).wf(),
            final(self).spec_url() == old(self).spec_url(),
            final(self).spec_handle() == old(self).spec_handle(),
            !final(self).spec_degraded(),
    {
        self.degraded = false;
    }
}

/// A failure on a shard with a handle makes the very next access fail fast
/// with `Unreachable`, with no network attempt, until a probe succeeds; after
/// that, access hands out the same handle again.
pub proof fn lemma_fail_fast_until_recovered<H>(m: ConnectionManager<H>)
    requires
        m.wf(),
        m.spec_handle() is Some,
    ensures
        m.after_failure().spec_degraded(),
        m.after_failure().spec_url() == m.spec_url(),
        m.after_failure().after_failure().spec_degraded(),
        !m.after_failure().after_recovery().spec_degraded(),
        m.after_failure().after_recovery().spec_handle() == m.spec_handle(),
{
}

/// A shard without a handle is never degraded by a failure report.
pub proof fn lemma_no_handle_never_degrades<H>(m: ConnectionManager<H>)
    requires
        m.wf(),
        m.spec_handle() is None,
    ensures
        m.after_failure() == m,
        !m.after_failure().spec_degraded(),
{
}

/// Where the retry guard of a degraded shard stands.
#[derive(Debug, Clone, Copy, PartialEq, Eq, Structural)]
pub enum GuardPhase {
    /// Waiting for a sleep to end.
    Sleeping,
    /// Waiting for the result of a liveness probe.
    Probing,
    /// Done: the shard recovered, or its manager was retired.
    Finished,
}

/// What the caller of a retry guard does next.
#[derive(Debug, Clone, Copy, PartialEq, Eq, Structural)]
pub enum GuardStep {
    /// Sleep this many milliseconds, then call `after_sleep`.
    Sleep(u64),
    /// Send a liveness probe, then call `after_probe` with its outcome.
    Probe,
    /// The probe succeeded: mark the shard recovered and stop.
    Recovered,
    /// The manager was retired: stop.
    Retired,
}

/// The retry loop of one degraded shard: sleep, probe, and on failure sleep
/// again with a randomised, growing backoff.
#[derive(Debug, Clone, Copy, PartialEq, Eq, Structural)]
pub struct RetryGuard {
    /// The current backoff cap, in milliseconds.
    pub cap_ms: u64,
    pub phase: GuardPhase,
}

impl RetryGuard {
    /// A guard at the default backoff, whose first step is a default sleep.
    pub fn start() -> (r: (RetryGuard, GuardStep))
        ensures
            r.0.cap_ms == DEFAULT_BACKOFF,
            r.0.phase == GuardPhase::Sleeping,
            r.1 == GuardStep::Sleep(DEFAULT_BACKOFF),
    {
        (RetryGuard { cap_ms: DEFAULT_BACKOFF, phase: GuardPhase::Sleeping }, GuardStep::Sleep(DEFAULT_BACKOFF))
    }

    /// A sleep ended. A retired manager stops the guard; otherwise probe.
    pub fn after_sleep(&mut self, retired: bool) -> (r: GuardStep)
        requires
            old(self).phase == GuardPhase::Sleeping,
        ensures
            final(self).cap_ms == old(self).cap_ms,
            retired ==> r == GuardStep::Retired && final(self).phase == GuardPhase::Finished,
            !retired ==> r == GuardStep::Probe && final(self).phase == GuardPhase::Probing,
    {
        if retired {
            self.phase = GuardPhase::Finished;
            GuardStep::Retired
        } else {
            self.phase = GuardPhase::Probing;
            GuardStep::Probe
        }
    }

    /// A probe ended. Success stops the guard; failure advances the cap and
    /// asks for a sleep drawn from `[DEFAULT_BACKOFF, new cap]`.
    pub fn after_probe(&mut self, alive: bool) -> (r: GuardStep)
        requires
            old(self).phase == GuardPhase::Probing,
        ensures
            alive ==> r == GuardStep::Recovered && final(self).phase == GuardPhase::Finished
                && final(self).cap_ms == old(self).cap_ms,
            !alive ==> final(self).phase == GuardPhase::Sleeping && final(self).cap_ms == next_cap(
                old(self).cap_ms as int,
            ) && (r matches GuardStep::Sleep(ms) && DEFAULT_BACKOFF <= ms <= final(self).cap_ms),
    {
        if alive {
            self.phase = GuardPhase::Finished;
            GuardStep::Recovered
        } else {
            let (cap, sleep) = jitter(self.cap_ms);
            self.cap_ms = cap;
            self.phase = GuardPhase::Sleeping;
            GuardStep::Sleep(sleep)
        }
    }
}

} // verus!
