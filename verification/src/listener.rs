//! The connection-bounded listener and shutdown coordinator, as an
//! explicit state machine. The runtime loop around it performs the
//! network work and feeds events in; every admission, backoff and
//! shutdown decision is taken here, where it is checked.

use vstd::prelude::*;

verus! {

/// Ceiling on simultaneously served connections.
pub const MAX_CONNECTIONS: usize = 250;

/// Lifecycle phase of the listener.
#[derive(Clone, Copy, Debug, PartialEq, Eq, Structural)]
pub enum Phase {
    /// Not yet accepting.
    Idle,
    /// Accepting new connections.
    Accepting,
    /// Shutdown signalled: no new admissions, in-flight work finishing.
    Draining,
    /// All in-flight work has ended.
    Stopped,
}

/// Exponential backoff for failed accepts: the delay starts at one time
/// unit and doubles after every failure; past the ceiling of 64 units
/// the next failure is fatal.
pub struct Backoff {
    pub delay: u64,
}

impl Backoff {
    pub open spec fn wf(self) -> bool {
        1 <= self.delay <= 128
    }

    pub fn new() -> (r: Backoff)
        ensures
            r.wf(),
            r.delay == 1,
    {
        Backoff { delay: 1 }
    }

    /// The decision after one failed accept: `Some(d)` tells the caller
    /// to retry after `d` time units; `None` declares the failure fatal.
    pub fn on_failure(&mut self) -> (r: Option<u64>)
        requires
            old(self).wf(),
        ensures
            final(self).wf(),
            old(self).delay > 64 ==> r is None && final(self).delay == old(self).delay,
            old(self).delay <= 64 ==> r == Some(old(self).delay) && final(self).delay == old(
                self,
            ).delay * 2,
    {
        if self.delay > 64 {
            None
        } else {
            let d = self.delay;
            self.delay = self.delay * 2;
            Some(d)
        }
    }
}

/// Admission and shutdown bookkeeping of the listener.
pub struct ListenerState {
    pub phase: Phase,
    /// Connections currently being served.
    pub active: usize,
    /// Admission ceiling.
    pub max_connections: usize,
}

impl ListenerState {
    /// The listener invariant: in-flight work never exceeds the
    /// ceiling, and a stopped listener has none left.
    pub open spec fn wf(self) -> bool {
        &&& self.active <= self.max_connections
        &&& self.phase == Phase::Stopped ==> self.active == 0
    }

    /// A connection may be admitted: the listener is accepting and a
    /// permit is free.
    pub open spec fn can_admit(self) -> bool {
        self.phase == Phase::Accepting && self.active < self.max_connections
    }

    pub fn new(max_connections: usize) -> (r: ListenerState)
        ensures
            r.wf(),
            r.phase == Phase::Idle,
            r.active == 0,
            r.max_connections == max_connections,
    {
        ListenerState { phase: Phase::Idle, active: 0, max_connections }
    }

    /// Begin accepting connections.
    pub fn start(&mut self)
        requires
            old(self).wf(),
            old(self).phase == Phase::Idle,
        ensures
            final(self).wf(),
            final(self).phase == Phase::Accepting,
            final(self).active == old(self).active,
            final(self).max_connections == old(self).max_connections,
    {
        self.phase = Phase::Accepting;
    }

    /// Try to admit one connection. Admission happens exactly below the
    /// ceiling, which is what bounds concurrent serving work.
    pub fn try_admit(&mut self) -> (admitted: bool)
        requires
            old(self).wf(),
            old(self).phase == Phase::Accepting,
        ensures
            final(self).wf(),
            final(self).phase == Phase::Accepting,
            final(self).max_connections == old(self).max_connections,
            admitted == old(self).can_admit(),
            admitted ==> final(self).active == old(self).active + 1,
            !admitted ==> final(self).active == old(self).active,
    {
        if self.active < self.max_connections {
            self.active = self.active + 1;
            true
        } else {
            false
        }
    }

    /// One connection's serving work has ended — whether the exchange
    /// finished or cancellation won the race — and its permit returns.
    /// A draining listener whose last connection ends stops.
    pub fn connection_closed(&mut self)
        requires
            old(self).wf(),
            old(self).active > 0,
        ensures
            final(self).wf(),
            final(self).active == old(self).active - 1,
            final(self).max_connections == old(self).max_connections,
            final(self).phase == (if old(self).phase == Phase::Draining && old(self).active == 1 {
                Phase::Stopped
            } else {
                old(self).phase
            }),
    {
        self.active = self.active - 1;
        if self.phase == Phase::Draining && self.active == 0 {
            self.phase = Phase::Stopped;
        }
    }

    /// A shutdown signal: admission stops at once; with no in-flight
    /// work the listener stops immediately, otherwise it drains.
    pub fn begin_shutdown(&mut self)
        requires
            old(self).wf(),
        ensures
            final(self).wf(),
            final(self).active == old(self).active,
            final(self).max_connections == old(self).max_connections,
            !final(self).can_admit(),
            final(self).phase == (if old(self).active == 0 {
                Phase::Stopped
            } else {
                Phase::Draining
            }),
    {
        if self.active == 0 {
            self.phase = Phase::Stopped;
        } else {
            self.phase = Phase::Draining;
        }
    }

    /// Whether the listener may report completion.
    pub fn is_stopped(&self) -> (r: bool)
        ensures
            r == (self.phase == Phase::Stopped),
    {
        self.phase == Phase::Stopped
    }
}

/// Concurrency bound: in every well-formed listener state, the number
/// of simultaneously served connections is at most the ceiling.
pub proof fn lemma_concurrency_bound(s: ListenerState)
    requires
        s.wf(),
    ensures
        s.active <= s.max_connections,
{
}

/// Graceful drain: once draining or stopped, no connection is admitted,
/// and a listener that reports completion has no in-flight work left.
pub proof fn lemma_graceful_drain(s: ListenerState)
    requires
        s.wf(),
    ensures
        s.phase == Phase::Draining || s.phase == Phase::Stopped ==> !s.can_admit(),
        s.phase == Phase::Stopped ==> s.active == 0,
{
}

} // verus!
