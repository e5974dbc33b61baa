//! Asking an existing cluster for admission.
//!
//! A node that waited for a leader in vain asks the members of the cluster, one
//! after the other, to add it. Rounds are repeated with growing pauses; when
//! the last one fails, the failure is counted and reported.

use vstd::prelude::*;

use crate::raft::{copied_text, NodeInfo, NodeState};

verus! {

/// Rounds of asking.
pub const MAX_REJOIN_ATTEMPTS: u32 = 10;

/// First pause in seconds.
pub const BACKOFF_INITIAL_SECS: u64 = 1;

/// Longest pause in seconds.
pub const BACKOFF_MAX_SECS: u64 = 60;

/// Why a node was not admitted.
#[derive(Clone, Copy, Debug, PartialEq, Eq, Structural)]
pub enum RejoinError {
    /// Every member refused in every round, or there was nobody to ask.
    Exhausted,
}

impl RejoinError {
    /// The message of this error.
    pub fn message(&self) -> (m: String)
        ensures
            m@ == "cluster_rejoin: all 10 JoinNode attempts exhausted"@,
    {
        "cluster_rejoin: all 10 JoinNode attempts exhausted".to_owned()
    }
}

/// Counts over all attempts of a process.
#[derive(Clone, Copy, Debug, PartialEq, Eq, Structural)]
pub struct RejoinCounters {
    /// Times that a node began to ask, whatever came of it.
    pub attempts_total: u64,
    /// Times that no round succeeded.
    pub failures_total: u64,
}

impl RejoinCounters {
    /// Nothing counted.
    pub fn new() -> (c: RejoinCounters)
        ensures
            c == (RejoinCounters { attempts_total: 0, failures_total: 0 }),
    {
        RejoinCounters { attempts_total: 0, failures_total: 0 }
    }

    /// One attempt more.
    pub open spec fn with_attempt(self) -> RejoinCounters {
        RejoinCounters {
            attempts_total: if self.attempts_total == u64::MAX {
                0
            } else {
                (self.attempts_total + 1) as u64
            },
            ..self
        }
    }

    /// One failure more.
    pub open spec fn with_failure(self) -> RejoinCounters {
        RejoinCounters {
            failures_total: if self.failures_total == u64::MAX {
                0
            } else {
                (self.failures_total + 1) as u64
            },
            ..self
        }
    }

    fn count_attempt(&mut self)
        ensures
            *final(self) == old(self).with_attempt(),
    {
        self.attempts_total = self.attempts_total.wrapping_add(1);
    }

    fn count_failure(&mut self)
        ensures
            *final(self) == old(self).with_failure(),
    {
        self.failures_total = self.failures_total.wrapping_add(1);
    }
}

/// Attempts so far, whatever came of them.
pub fn cluster_rejoin_attempts_total(counters: &RejoinCounters) -> (n: u64)
    ensures
        n == counters.attempts_total,
{
    counters.attempts_total
}

/// Failures so far.
pub fn cluster_rejoin_failures_total(counters: &RejoinCounters) -> (n: u64)
    ensures
        n == counters.failures_total,
{
    counters.failures_total
}

/// The pause after a pause of this length: twice as long, up to the longest.
pub open spec fn doubled(secs: u64) -> u64 {
    if 2 * secs < BACKOFF_MAX_SECS {
        (2 * secs) as u64
    } else {
        BACKOFF_MAX_SECS
    }
}

/// The pause after a pause of this length.
pub fn next_backoff(secs: u64) -> (next: u64)
    requires
        2 * secs <= u64::MAX,
    ensures
        next == doubled(secs),
{
    if 2 * secs < BACKOFF_MAX_SECS {
        2 * secs
    } else {
        BACKOFF_MAX_SECS
    }
}

/// The pause after a round, counted from one.
pub open spec fn backoff_after(round: nat) -> u64
    decreases round,
{
    if round <= 1 {
        BACKOFF_INITIAL_SECS
    } else {
        doubled(backoff_after((round - 1) as nat))
    }
}

/// Pauses never shorten, grow until they reach the longest, and never pass it.
pub proof fn backoff_grows_to_its_cap(round: nat)
    requires
        round >= 1,
    ensures
        BACKOFF_INITIAL_SECS <= backoff_after(round) <= BACKOFF_MAX_SECS,
        backoff_after(round) <= backoff_after(round + 1),
        backoff_after(round) < BACKOFF_MAX_SECS ==> backoff_after(round) < backoff_after(round + 1),
        round >= 7 ==> backoff_after(round) == BACKOFF_MAX_SECS,
    decreases round,
{
    if round > 1 {
        backoff_grows_to_its_cap((round - 1) as nat);
    }
    if round == 7 {
        reveal_with_fuel(backoff_after, 8);
    }
}

/// Asking for admission: which round it is, and who is asked.
#[derive(Clone, Copy, Debug, PartialEq, Eq, Structural)]
pub struct Rejoin {
    /// Members to ask.
    pub peers: usize,
    /// The round, counted from one.
    pub attempt: u32,
    /// The member that is asked.
    pub peer: usize,
    /// The next pause.
    pub backoff_secs: u64,
}

/// What to do next.
#[derive(Clone, Copy, Debug, PartialEq, Eq, Structural)]
pub enum RejoinStep {
    /// Ask a member.
    Ask { peer: usize },
    /// Pause, then ask a member.
    AskAfter { secs: u64, peer: usize },
    /// The node was admitted.
    Accepted,
    /// Nobody admitted it.
    Exhausted,
}

impl Rejoin {
    /// The round and the member exist, and the pause is that of the round.
    pub open spec fn wf(self) -> bool {
        &&& 1 <= self.attempt <= MAX_REJOIN_ATTEMPTS
        &&& self.peer < self.peers
        &&& self.backoff_secs == backoff_after(self.attempt as nat)
        &&& self.backoff_secs <= BACKOFF_MAX_SECS
    }

    /// The state after a refusal.
    pub open spec fn refused(self) -> Rejoin {
        if self.peer + 1 < self.peers {
            Rejoin { peer: (self.peer + 1) as usize, ..self }
        } else if self.attempt < MAX_REJOIN_ATTEMPTS {
            Rejoin {
                peer: 0,
                attempt: (self.attempt + 1) as u32,
                backoff_secs: doubled(self.backoff_secs),
                ..self
            }
        } else {
            self
        }
    }

    /// What follows a reply.
    pub open spec fn next_step(self, accepted: bool) -> RejoinStep {
        if accepted {
            RejoinStep::Accepted
        } else if self.peer + 1 < self.peers {
            RejoinStep::Ask { peer: (self.peer + 1) as usize }
        } else if self.attempt < MAX_REJOIN_ATTEMPTS {
            RejoinStep::AskAfter { secs: self.backoff_secs, peer: 0 }
        } else {
            RejoinStep::Exhausted
        }
    }

    /// The counts after a reply.
    pub open spec fn counted(self, accepted: bool, counters: RejoinCounters) -> RejoinCounters {
        match self.next_step(accepted) {
            RejoinStep::Exhausted => counters.with_failure(),
            _ => counters,
        }
    }

    /// How many questions are left, this one with them.
    pub open spec fn questions_left(self) -> nat {
        ((MAX_REJOIN_ATTEMPTS - self.attempt) * self.peers + (self.peers - self.peer)) as nat
    }

    /// Begin to ask so many members: the attempt is counted, and the first member
    /// is asked. With nobody to ask, the failure is counted too.
    pub fn start(peers: usize, counters: &mut RejoinCounters) -> (r: Result<Rejoin, RejoinError>)
        ensures
            match r {
                Ok(rejoin) => {
                    &&& peers > 0
                    &&& rejoin == (Rejoin {
                        peers,
                        attempt: 1,
                        peer: 0,
                        backoff_secs: BACKOFF_INITIAL_SECS,
                    })
                    &&& rejoin.wf()
                    &&& *final(counters) == old(counters).with_attempt()
                },
                Err(e) => {
                    &&& peers == 0
                    &&& e == RejoinError::Exhausted
                    &&& *final(counters) == old(counters).with_attempt().with_failure()
                },
            },
    {
        counters.count_attempt();
        if peers == 0 {
            counters.count_failure();
            return Err(RejoinError::Exhausted);
        }
        Ok(Rejoin { peers, attempt: 1, peer: 0, backoff_secs: BACKOFF_INITIAL_SECS })
    }

    /// Record a member's reply, and say what comes next. The failure is counted
    /// where nobody is left to ask; the attempt has been counted when it began.
    pub fn record(&mut self, accepted: bool, counters: &mut RejoinCounters) -> (step: RejoinStep)
        requires
            old(self).wf(),
        ensures
            step == old(self).next_step(accepted),
            *final(self) == (if accepted {
                *old(self)
            } else {
                old(self).refused()
            }),
            final(self).wf(),
            *final(counters) == old(self).counted(accepted, *old(counters)),
            final(counters).attempts_total == old(counters).attempts_total,
    {
        if accepted {
            return RejoinStep::Accepted;
        }
        if self.peer + 1 < self.peers {
            self.peer = self.peer + 1;
            return RejoinStep::Ask { peer: self.peer };
        }
        if self.attempt < MAX_REJOIN_ATTEMPTS {
            let secs: u64 = self.backoff_secs;
            proof {
                backoff_grows_to_its_cap(self.attempt as nat);
                backoff_grows_to_its_cap((self.attempt + 1) as nat);
            }
            self.attempt = self.attempt + 1;
            self.peer = 0;
            self.backoff_secs = next_backoff(secs);
            return RejoinStep::AskAfter { secs, peer: 0 };
        }
        counters.count_failure();
        RejoinStep::Exhausted
    }
}

/// Asking ends: each refusal leaves one question less, the last one reports
/// failure, and in all no more than the rounds times the members are asked.
pub proof fn rejoin_is_bounded(r: Rejoin)
    requires
        r.wf(),
    ensures
        1 <= r.questions_left() <= MAX_REJOIN_ATTEMPTS * r.peers,
        r.next_step(false) == RejoinStep::Exhausted <==> r.questions_left() == 1,
        r.next_step(false) != RejoinStep::Exhausted ==> r.refused().questions_left() + 1
            == r.questions_left(),
{
    let n = r.peers as int;
    let a = MAX_REJOIN_ATTEMPTS - r.attempt;
    assert(0 <= a * n <= 9 * n) by (nonlinear_arith)
        requires
            0 <= a <= 9,
            n >= 0,
    ;
    if a > 0 {
        assert(a * n == (a - 1) * n + n) by (nonlinear_arith);
        assert((a - 1) * n >= 0) by (nonlinear_arith)
            requires
                a >= 1,
                n >= 0,
        ;
    } else {
        assert(a * n == 0) by (nonlinear_arith)
            requires
                a == 0,
        ;
    }
}

/// The record with which a node asks for admission: not serving yet.
pub fn rejoin_node_info(
    host_id: u128,
    addr: &str,
    data_center: &str,
    rack: &str,
    cql_broadcast: Option<&str>,
) -> (n: NodeInfo)
    ensures
        n@ == (crate::raft::NodeInfoView {
            host_id,
            addr: addr@,
            data_center: data_center@,
            rack: rack@,
            state: NodeState::Joining,
            cql_broadcast: crate::raft::str_view(cql_broadcast),
        }),
{
    NodeInfo {
        host_id,
        addr: addr.to_owned(),
        data_center: data_center.to_owned(),
        rack: rack.to_owned(),
        state: NodeState::Joining,
        cql_broadcast: copied_text(cql_broadcast),
    }
}

/// Pauses begin at a second and double up to a minute.
pub proof fn pauses_double_up_to_a_minute(round: nat)
    ensures
        backoff_after(1) == 1,
        round >= 1 && 2 * backoff_after(round) <= 60 ==> backoff_after(round + 1) == 2
            * backoff_after(round),
        round >= 1 && 2 * backoff_after(round) > 60 ==> backoff_after(round + 1) == 60,
{
}

/// Members are asked one after the other, and after the last one the first again, after a
/// pause; after ten rounds nobody is. A member that admits the node ends it.
pub proof fn members_are_asked_in_turn(r: Rejoin)
    requires
        r.wf(),
    ensures
        r.next_step(true) == RejoinStep::Accepted,
        r.peer + 1 < r.peers ==> r.next_step(false) == (RejoinStep::Ask {
            peer: (r.peer + 1) as usize,
        }) && r.refused().peer == r.peer + 1 && r.refused().attempt == r.attempt
            && r.refused().backoff_secs == r.backoff_secs,
        r.peer + 1 == r.peers && r.attempt < 10 ==> r.next_step(false) == (RejoinStep::AskAfter {
            secs: r.backoff_secs,
            peer: 0,
        }) && r.refused().peer == 0 && r.refused().attempt == r.attempt + 1,
        r.peer + 1 == r.peers && r.attempt >= 10 ==> r.next_step(false) == RejoinStep::Exhausted,
        r.refused().peers == r.peers,
{
}

/// A beginning is counted as an attempt and an end without admission as a failure, each on
/// its own counter; no other reply is counted.
pub proof fn attempts_and_failures_are_counted_apart(r: Rejoin, c: RejoinCounters)
    ensures
        c.attempts_total < u64::MAX ==> c.with_attempt().attempts_total == c.attempts_total + 1,
        c.attempts_total == u64::MAX ==> c.with_attempt().attempts_total == 0,
        c.with_attempt().failures_total == c.failures_total,
        c.failures_total < u64::MAX ==> c.with_failure().failures_total == c.failures_total + 1,
        c.failures_total == u64::MAX ==> c.with_failure().failures_total == 0,
        c.with_failure().attempts_total == c.attempts_total,
        r.counted(true, c) == c,
        r.peer + 1 < r.peers || r.attempt < 10 ==> r.counted(false, c) == c,
        r.peer + 1 >= r.peers && r.attempt >= 10 ==> r.counted(false, c) == c.with_failure(),
{
}

/// The next pause is twice as long, but never more than a minute.
pub proof fn next_pauses_are_twice_as_long(secs: u64)
    ensures
        2 * secs <= 60 ==> doubled(secs) == 2 * secs,
        2 * secs > 60 ==> doubled(secs) == 60,
{
}

} // verus!
