//! Counters of the controller.

use vstd::prelude::*;

verus! {

/// Adds, starting again from zero past the largest number.
pub open spec fn wrapped_sum(a: u64, b: u64) -> u64 {
    if a + b > u64::MAX {
        (a + b - 0x1_0000_0000_0000_0000) as u64
    } else {
        (a + b) as u64
    }
}

/// How long mode changes hold up each other.
#[derive(Clone, Copy, Debug, PartialEq, Eq, Structural)]
pub struct ContentionMetrics {
    /// Times that the guard was taken.
    pub transition_guard_acquires: u64,
    /// Nanoseconds that it was held in all.
    pub transition_guard_hold_ns: u64,
}

impl ContentionMetrics {
    /// Nothing recorded.
    pub fn new() -> (m: ContentionMetrics)
        ensures
            m == (ContentionMetrics { transition_guard_acquires: 0, transition_guard_hold_ns: 0 }),
    {
        ContentionMetrics { transition_guard_acquires: 0, transition_guard_hold_ns: 0 }
    }

    /// Record that the guard was held so long.
    pub fn record_guard_hold(&mut self, nanos: u64)
        ensures
            *final(self) == (ContentionMetrics {
                transition_guard_acquires: wrapped_sum(old(self).transition_guard_acquires, 1),
                transition_guard_hold_ns: wrapped_sum(old(self).transition_guard_hold_ns, nanos),
            }),
    {
        self.transition_guard_acquires = self.transition_guard_acquires.wrapping_add(1);
        self.transition_guard_hold_ns = self.transition_guard_hold_ns.wrapping_add(nanos);
    }
}

impl Default for ContentionMetrics {
    fn default() -> (m: Self)
        ensures
            m == (ContentionMetrics { transition_guard_acquires: 0, transition_guard_hold_ns: 0 }),
    {
        ContentionMetrics::new()
    }
}

/// Failures of formation that would otherwise go unseen.
#[derive(Clone, Copy, Debug, PartialEq, Eq, Structural)]
pub struct BootstrapCounters {
    /// The consensus instance was published and nobody waited for it.
    pub raft_publish_no_subscribers: u64,
    /// The first membership could not be written.
    pub raft_initialize_failures: u64,
    /// No leader was elected in time.
    pub leader_election_timeouts: u64,
    /// A cluster formed with fewer nodes than replicas are asked for.
    pub formation_reduced_durability: u64,
}

/// A failure of formation.
#[derive(Clone, Copy, Debug, PartialEq, Eq, Structural)]
pub enum BootstrapFailure {
    NoSubscribers,
    InitializeFailed,
    ElectionTimedOut,
    ReducedDurability,
}

impl BootstrapCounters {
    /// Nothing counted.
    pub fn new() -> (c: BootstrapCounters)
        ensures
            c == (BootstrapCounters {
                raft_publish_no_subscribers: 0,
                raft_initialize_failures: 0,
                leader_election_timeouts: 0,
                formation_reduced_durability: 0,
            }),
    {
        BootstrapCounters {
            raft_publish_no_subscribers: 0,
            raft_initialize_failures: 0,
            leader_election_timeouts: 0,
            formation_reduced_durability: 0,
        }
    }

    /// The counts after a failure.
    pub open spec fn with(self, failure: BootstrapFailure) -> BootstrapCounters {
        match failure {
            BootstrapFailure::NoSubscribers => BootstrapCounters {
                raft_publish_no_subscribers: wrapped_sum(self.raft_publish_no_subscribers, 1),
                ..self
            },
            BootstrapFailure::InitializeFailed => BootstrapCounters {
                raft_initialize_failures: wrapped_sum(self.raft_initialize_failures, 1),
                ..self
            },
            BootstrapFailure::ElectionTimedOut => BootstrapCounters {
                leader_election_timeouts: wrapped_sum(self.leader_election_timeouts, 1),
                ..self
            },
            BootstrapFailure::ReducedDurability => BootstrapCounters {
                formation_reduced_durability: wrapped_sum(self.formation_reduced_durability, 1),
                ..self
            },
        }
    }

    /// Count a failure.
    pub fn record(&mut self, failure: BootstrapFailure)
        ensures
            *final(self) == old(self).with(failure),
    {
        match failure {
            BootstrapFailure::NoSubscribers => {
                self.raft_publish_no_subscribers = self.raft_publish_no_subscribers.wrapping_add(1);
            },
            BootstrapFailure::InitializeFailed => {
                self.raft_initialize_failures = self.raft_initialize_failures.wrapping_add(1);
            },
            BootstrapFailure::ElectionTimedOut => {
                self.leader_election_timeouts = self.leader_election_timeouts.wrapping_add(1);
            },
            BootstrapFailure::ReducedDurability => {
                self.formation_reduced_durability = self.formation_reduced_durability.wrapping_add(
                    1,
                );
            },
        }
    }
}

/// The counts of publications that nobody waited for, of memberships that could
/// not be written, and of elections that came to nothing.
pub fn bootstrap_silent_failure_counts(counters: &BootstrapCounters) -> (r: (u64, u64, u64))
    ensures
        r == (
            counters.raft_publish_no_subscribers,
            counters.raft_initialize_failures,
            counters.leader_election_timeouts,
        ),
{
    (
        counters.raft_publish_no_subscribers,
        counters.raft_initialize_failures,
        counters.leader_election_timeouts,
    )
}

/// A failure is counted on its own counter, and on no other.
pub proof fn failures_are_counted_apart(c: BootstrapCounters)
    ensures
        ({
            let a = c.with(BootstrapFailure::NoSubscribers);
            let b = c.with(BootstrapFailure::InitializeFailed);
            let d = c.with(BootstrapFailure::ElectionTimedOut);
            let e = c.with(BootstrapFailure::ReducedDurability);
            &&& c.raft_publish_no_subscribers < u64::MAX ==> a.raft_publish_no_subscribers
                == c.raft_publish_no_subscribers + 1
            &&& c.raft_publish_no_subscribers == u64::MAX ==> a.raft_publish_no_subscribers == 0
            &&& a.raft_initialize_failures == c.raft_initialize_failures
            &&& a.leader_election_timeouts == c.leader_election_timeouts
            &&& a.formation_reduced_durability == c.formation_reduced_durability
            &&& c.raft_initialize_failures < u64::MAX ==> b.raft_initialize_failures
                == c.raft_initialize_failures + 1
            &&& c.raft_initialize_failures == u64::MAX ==> b.raft_initialize_failures == 0
            &&& b.raft_publish_no_subscribers == c.raft_publish_no_subscribers
            &&& b.leader_election_timeouts == c.leader_election_timeouts
            &&& b.formation_reduced_durability == c.formation_reduced_durability
            &&& c.leader_election_timeouts < u64::MAX ==> d.leader_election_timeouts
                == c.leader_election_timeouts + 1
            &&& c.leader_election_timeouts == u64::MAX ==> d.leader_election_timeouts == 0
            &&& d.raft_publish_no_subscribers == c.raft_publish_no_subscribers
            &&& d.raft_initialize_failures == c.raft_initialize_failures
            &&& d.formation_reduced_durability == c.formation_reduced_durability
            &&& c.formation_reduced_durability < u64::MAX ==> e.formation_reduced_durability
                == c.formation_reduced_durability + 1
            &&& c.formation_reduced_durability == u64::MAX ==> e.formation_reduced_durability == 0
            &&& e.raft_publish_no_subscribers == c.raft_publish_no_subscribers
            &&& e.raft_initialize_failures == c.raft_initialize_failures
            &&& e.leader_election_timeouts == c.leader_election_timeouts
        }),
{
}

/// Sums start again from zero past the largest number, and are exact below it.
pub proof fn sums_wrap_round(a: u64, b: u64)
    ensures
        a + b <= u64::MAX ==> wrapped_sum(a, b) == a + b,
        a + b > u64::MAX ==> wrapped_sum(a, b) == a + b - u64::MAX - 1,
{
}

} // verus!
