//! The waits of cluster formation: bounded, and decided step by step from what
//! each attempt brought. Times are in milliseconds.

use vstd::prelude::*;

verus! {

/// Attempts to deliver an invite.
pub const INVITE_ATTEMPTS: u32 = 10;

/// Pause between attempts to deliver an invite.
pub const INVITE_PAUSE_MS: u64 = 500;

/// What to do after an attempt.
#[derive(Clone, Copy, Debug, PartialEq, Eq, Structural)]
pub enum Next {
    /// It worked: go on.
    Proceed,
    /// Try again after a pause.
    RetryAfter { ms: u64 },
    /// It will not work: stop trying.
    GiveUp,
}

/// What to do after an attempt to deliver an invite, counted from zero.
pub open spec fn invite_next(attempt: u32, delivered: bool) -> Next {
    if delivered {
        Next::Proceed
    } else if attempt + 1 < INVITE_ATTEMPTS {
        Next::RetryAfter { ms: INVITE_PAUSE_MS }
    } else {
        Next::GiveUp
    }
}

/// What to do after an attempt to deliver an invite, counted from zero.
pub fn after_invite_attempt(attempt: u32, delivered: bool) -> (next: Next)
    ensures
        next == invite_next(attempt, delivered),
{
    if delivered {
        Next::Proceed
    } else if attempt < INVITE_ATTEMPTS - 1 {
        Next::RetryAfter { ms: INVITE_PAUSE_MS }
    } else {
        Next::GiveUp
    }
}

/// How often something is polled while a peer joins.
pub const JOIN_POLLS: u32 = 60;

/// The pause after a poll, counted from zero: short at first, longer later.
pub open spec fn poll_pause(attempt: u32) -> u64 {
    if attempt < 10 {
        100
    } else {
        500
    }
}

/// The pause after a poll, counted from zero.
pub fn poll_backoff(attempt: u32) -> (ms: u64)
    ensures
        ms == poll_pause(attempt),
{
    if attempt < 10 {
        100
    } else {
        500
    }
}

/// The time spent in the pauses after the first polls.
pub open spec fn time_polling(polls: nat) -> nat
    decreases polls,
{
    if polls == 0 {
        0
    } else {
        time_polling((polls - 1) as nat) + poll_pause((polls - 1) as u32) as nat
    }
}

/// All polls for one thing while a peer joins take some 26 seconds.
pub proof fn join_polling_takes_seconds()
    ensures
        time_polling(JOIN_POLLS as nat) == 26_000,
{
    lemma_time_polling(60);
}

proof fn lemma_time_polling(polls: nat)
    requires
        polls <= 60,
    ensures
        time_polling(polls) == (if polls <= 10 {
            (100 * polls) as int
        } else {
            1000 + 500 * (polls - 10)
        }),
    decreases polls,
{
    if polls > 0 {
        lemma_time_polling((polls - 1) as nat);
    }
}

/// Time to wait for connections to all peers.
pub const LANE_WAIT_MS: u64 = 10_000;

/// What to do after looking for a connection to a peer: go on once it is there
/// or once the time is over, else look again soon.
pub fn after_lane_check(live: bool, now: u64, deadline: u64) -> (next: Next)
    ensures
        next == (if live {
            Next::Proceed
        } else if now > deadline {
            Next::GiveUp
        } else {
            Next::RetryAfter { ms: 100 }
        }),
{
    if live {
        Next::Proceed
    } else if now > deadline {
        Next::GiveUp
    } else {
        Next::RetryAfter { ms: 100 }
    }
}

/// The time for an election in seconds: the configured time for formation, at
/// least one second; thirty where none is configured.
pub open spec fn formation_secs(configured: Option<u64>) -> u64 {
    match configured {
        Some(s) => if s < 1 {
            1
        } else {
            s
        },
        None => 30,
    }
}

/// The time for an election in seconds.
pub fn formation_deadline_secs(configured: Option<u64>) -> (secs: u64)
    ensures
        secs == formation_secs(configured),
{
    match configured {
        Some(s) => if s < 1 {
            1
        } else {
            s
        },
        None => 30,
    }
}

/// How waiting for a leader goes on.
#[derive(Clone, Copy, Debug, PartialEq, Eq, Structural)]
pub enum ElectionStep {
    /// A leader is known.
    Elected { leader: u64 },
    /// The time is over.
    TimedOut,
    /// Ask again after a pause.
    AskAgainAfter { ms: u64 },
}

/// How waiting for a leader goes on after asking, counted from zero. A leader
/// that is known counts, even at the last moment.
pub open spec fn election_next(leader: Option<u64>, attempt: u32, now: u64, deadline: u64) -> ElectionStep {
    match leader {
        Some(leader) => ElectionStep::Elected { leader },
        None => if now >= deadline {
            ElectionStep::TimedOut
        } else {
            ElectionStep::AskAgainAfter { ms: poll_pause(attempt) }
        },
    }
}

/// How waiting for a leader goes on after asking.
pub fn after_leader_poll(leader: Option<u64>, attempt: u32, now: u64, deadline: u64) -> (step: ElectionStep)
    ensures
        step == election_next(leader, attempt, now, deadline),
{
    match leader {
        Some(leader) => ElectionStep::Elected { leader },
        None => if now >= deadline {
            ElectionStep::TimedOut
        } else {
            ElectionStep::AskAgainAfter { ms: poll_backoff(attempt) }
        },
    }
}

/// Time to let senders finish before the queue counts as empty once more.
pub const DRAIN_COOL_DOWN_MS: u64 = 50;

/// How often in a row the queue must be found empty.
pub const DRAIN_REQUIRED_EMPTY: usize = 3;

/// Longest time to drain.
pub const DRAIN_DEADLINE_MS: u64 = 5_000;

/// What a look into the queue brought.
#[derive(Clone, Copy, Debug, PartialEq, Eq, Structural)]
pub enum QueueLook {
    /// A change, which was processed with this result.
    Processed { ok: bool },
    /// Nothing.
    Empty,
    /// Nothing, and nobody can send any more.
    Disconnected,
}

/// What to do next with the queue.
#[derive(Clone, Copy, Debug, PartialEq, Eq, Structural)]
pub enum DrainStep {
    /// Look again at once.
    LookAgain,
    /// Look again after a pause.
    LookAgainAfter { ms: u64 },
    /// The queue is drained.
    Done,
}

/// Draining a queue: changes sent during the drain must not be lost, so it is
/// over only when the queue was found empty several times in a row, nobody can
/// send, or the time is over.
#[derive(Clone, Copy, Debug, PartialEq, Eq, Structural)]
pub struct QueueDrain {
    /// Changes replayed.
    pub replayed: usize,
    /// Times in a row that the queue was found empty.
    pub consecutive_empty: usize,
    /// Nobody can send.
    pub disconnected: bool,
    /// When to stop.
    pub deadline: u64,
}

impl QueueDrain {
    /// The count of empty looks never passes what is required.
    pub open spec fn wf(self) -> bool {
        self.consecutive_empty <= DRAIN_REQUIRED_EMPTY
    }

    /// Shall the queue be looked at?
    pub open spec fn spec_wants_look(self, now: u64) -> bool {
        !self.disconnected && self.consecutive_empty < DRAIN_REQUIRED_EMPTY && now < self.deadline
    }

    /// A drain that begins now.
    pub fn start(now: u64) -> (d: QueueDrain)
        requires
            now + DRAIN_DEADLINE_MS <= u64::MAX,
        ensures
            d.wf(),
            d == (QueueDrain {
                replayed: 0,
                consecutive_empty: 0,
                disconnected: false,
                deadline: (now + DRAIN_DEADLINE_MS) as u64,
            }),
            d.deadline == now + 5_000,
    {
        QueueDrain {
            replayed: 0,
            consecutive_empty: 0,
            disconnected: false,
            deadline: now + DRAIN_DEADLINE_MS,
        }
    }

    /// Shall the queue be looked at?
    pub fn wants_look(&self, now: u64) -> (b: bool)
        ensures
            b == self.spec_wants_look(now),
    {
        !self.disconnected && self.consecutive_empty < DRAIN_REQUIRED_EMPTY && now < self.deadline
    }

    /// The drain after a look.
    pub open spec fn looked(self, look: QueueLook) -> QueueDrain {
        match look {
            QueueLook::Processed { ok } => QueueDrain {
                replayed: if ok {
                    (self.replayed + 1) as usize
                } else {
                    self.replayed
                },
                consecutive_empty: 0,
                ..self
            },
            QueueLook::Empty => QueueDrain {
                consecutive_empty: (self.consecutive_empty + 1) as usize,
                ..self
            },
            QueueLook::Disconnected => QueueDrain { disconnected: true, ..self },
        }
    }

    /// Record a look, and say what comes next.
    pub fn record(&mut self, look: QueueLook) -> (step: DrainStep)
        requires
            old(self).wf(),
            old(self).consecutive_empty < DRAIN_REQUIRED_EMPTY,
            old(self).replayed < usize::MAX,
        ensures
            final(self).wf(),
            *final(self) == old(self).looked(look),
            step == match look {
                QueueLook::Processed { .. } => DrainStep::LookAgain,
                QueueLook::Empty => DrainStep::LookAgainAfter { ms: DRAIN_COOL_DOWN_MS },
                QueueLook::Disconnected => DrainStep::Done,
            },
            look == QueueLook::Empty ==> step == (DrainStep::LookAgainAfter { ms: 50 }),
    {
        match look {
            QueueLook::Processed { ok } => {
                self.consecutive_empty = 0;
                if ok {
                    self.replayed = self.replayed + 1;
                }
                DrainStep::LookAgain
            },
            QueueLook::Empty => {
                self.consecutive_empty = self.consecutive_empty + 1;
                DrainStep::LookAgainAfter { ms: DRAIN_COOL_DOWN_MS }
            },
            QueueLook::Disconnected => {
                self.disconnected = true;
                DrainStep::Done
            },
        }
    }
}

/// The drain after a run of looks.
pub open spec fn looked_in_turn(d: QueueDrain, looks: Seq<QueueLook>) -> QueueDrain
    decreases looks.len(),
{
    if looks.len() == 0 {
        d
    } else {
        looked_in_turn(d, looks.drop_last()).looked(looks.last())
    }
}

/// How many of the looks brought a change that was processed well.
pub open spec fn processed_well(looks: Seq<QueueLook>) -> nat
    decreases looks.len(),
{
    if looks.len() == 0 {
        0
    } else {
        processed_well(looks.drop_last()) + if looks.last() == (QueueLook::Processed { ok: true }) {
            1nat
        } else {
            0nat
        }
    }
}

/// Every change that was processed well is counted, once.
pub proof fn drain_counts_what_it_replayed(d: QueueDrain, looks: Seq<QueueLook>)
    requires
        d.replayed + looks.len() <= usize::MAX,
    ensures
        looked_in_turn(d, looks).replayed == d.replayed + processed_well(looks),
        processed_well(looks) <= looks.len(),
    decreases looks.len(),
{
    if looks.len() > 0 {
        drain_counts_what_it_replayed(d, looks.drop_last());
    }
}

/// Unless the time is over or nobody can send, a drain ends only after the
/// queue was found empty the required number of times in a row: a change that
/// comes in between starts the count again.
pub proof fn drain_ends_on_empty_run(d: QueueDrain, looks: Seq<QueueLook>, now: u64)
    requires
        d.consecutive_empty == 0,
        !d.disconnected,
        now < d.deadline,
        !looked_in_turn(d, looks).spec_wants_look(now),
        forall|i: int| 0 <= i < looks.len() ==> #[trigger] looks[i] != QueueLook::Disconnected,
        looks.len() < usize::MAX,
    ensures
        looks.len() >= DRAIN_REQUIRED_EMPTY,
        forall|i: int|
            looks.len() - DRAIN_REQUIRED_EMPTY <= i < looks.len() ==> #[trigger] looks[i]
                == QueueLook::Empty,
{
    lemma_empty_run(d, looks);
}

/// The count of empty looks is the length of the run of them at the end.
proof fn lemma_empty_run(d: QueueDrain, looks: Seq<QueueLook>)
    requires
        d.consecutive_empty == 0,
        !d.disconnected,
        forall|i: int| 0 <= i < looks.len() ==> #[trigger] looks[i] != QueueLook::Disconnected,
        looks.len() < usize::MAX,
    ensures
        !looked_in_turn(d, looks).disconnected,
        looked_in_turn(d, looks).deadline == d.deadline,
        looked_in_turn(d, looks).consecutive_empty <= looks.len(),
        forall|i: int|
            looks.len() - looked_in_turn(d, looks).consecutive_empty <= i < looks.len()
                ==> #[trigger] looks[i] == QueueLook::Empty,
    decreases looks.len(),
{
    if looks.len() > 0 {
        let head = looks.drop_last();
        assert forall|i: int| 0 <= i < head.len() implies #[trigger] head[i]
            != QueueLook::Disconnected by {
            assert(head[i] == looks[i]);
        }
        lemma_empty_run(d, head);
        assert forall|i: int|
            looks.len() - looked_in_turn(d, looks).consecutive_empty <= i < looks.len() implies
            #[trigger] looks[i] == QueueLook::Empty by {
            if i < head.len() {
                assert(head[i] == looks[i]);
            }
        }
    }
}

/// The time for joining nodes to report in seconds: a third of the configured
/// time for formation; twenty where none is configured.
pub open spec fn promotion_secs(configured: Option<u64>) -> u64 {
    match configured {
        Some(s) => s / 3,
        None => 20,
    }
}

/// The time for joining nodes to report in seconds.
pub fn promotion_timeout_secs(configured: Option<u64>) -> (secs: u64)
    ensures
        secs == promotion_secs(configured),
{
    match configured {
        Some(s) => s / 3,
        None => 20,
    }
}

/// What to do while joining nodes report: go on once all have or once the time
/// is over, else look again.
pub fn after_promotion_check(received: usize, expected: usize, now: u64, deadline: u64) -> (next: Next)
    ensures
        next == (if received >= expected {
            Next::Proceed
        } else if now >= deadline {
            Next::GiveUp
        } else {
            Next::RetryAfter { ms: 500 }
        }),
{
    if received >= expected {
        Next::Proceed
    } else if now >= deadline {
        Next::GiveUp
    } else {
        Next::RetryAfter { ms: 500 }
    }
}

/// What the watch over recorded addresses does next.
#[derive(Clone, Copy, Debug, PartialEq, Eq, Structural)]
pub enum RepairStep {
    /// Look again later.
    Wait,
    /// Write the desired addresses.
    Repair,
    /// The addresses are right.
    Done,
}

/// The watch over recorded addresses: the leader repairs them, until they were
/// right at two looks in a row.
#[derive(Clone, Copy, Debug, PartialEq, Eq, Structural)]
pub struct AddressWatch {
    pub clean_observations: u8,
}

impl AddressWatch {
    /// The watch after a look.
    pub open spec fn observed(self, is_leader: bool, needs_repair: bool) -> AddressWatch {
        AddressWatch {
            clean_observations: if is_leader && !needs_repair {
                if self.clean_observations < 255 {
                    (self.clean_observations + 1) as u8
                } else {
                    255
                }
            } else {
                0
            },
        }
    }

    /// A watch that begins.
    pub fn start() -> (w: AddressWatch)
        ensures
            w.clean_observations == 0,
    {
        AddressWatch { clean_observations: 0 }
    }

    /// Record a look, and say what comes next.
    pub fn record(&mut self, is_leader: bool, needs_repair: bool) -> (step: RepairStep)
        ensures
            *final(self) == old(self).observed(is_leader, needs_repair),
            step == (if !is_leader {
                RepairStep::Wait
            } else if needs_repair {
                RepairStep::Repair
            } else if old(self).observed(is_leader, needs_repair).clean_observations >= 2 {
                RepairStep::Done
            } else {
                RepairStep::Wait
            }),
    {
        if !is_leader {
            self.clean_observations = 0;
            return RepairStep::Wait;
        }
        if needs_repair {
            self.clean_observations = 0;
            return RepairStep::Repair;
        }
        self.clean_observations = self.clean_observations.saturating_add(1);
        if self.clean_observations >= 2 {
            RepairStep::Done
        } else {
            RepairStep::Wait
        }
    }
}

/// A watch that has just begun, or was set back, never ends on one look.
pub proof fn one_clean_look_is_not_enough(w: AddressWatch, is_leader: bool, needs_repair: bool)
    requires
        w.clean_observations == 0,
    ensures
        w.observed(is_leader, needs_repair).clean_observations < 2,
{
}

/// Attempts to deliver an invite end after the tenth.
pub proof fn invite_attempts_are_bounded(attempt: u32)
    ensures
        attempt >= INVITE_ATTEMPTS - 1 ==> invite_next(attempt, false) == Next::GiveUp,
        attempt < INVITE_ATTEMPTS - 1 ==> invite_next(attempt, false) == (Next::RetryAfter {
            ms: INVITE_PAUSE_MS,
        }),
{
}

/// Interval between runs of maintenance in milliseconds: the setting where it
/// is a number, at least one; a tenth of a second where it is not.
pub open spec fn maintenance_interval(setting: Option<Seq<char>>) -> nat {
    let n = match setting {
        Some(s) => match crate::parse::numeral_value(vstd::utf8::encode_utf8(s), u64::MAX as nat) {
            Some(n) => n,
            None => 100,
        },
        None => 100,
    };
    if n < 1 {
        1
    } else {
        n
    }
}

/// Interval between runs of maintenance in milliseconds.
pub fn maintenance_interval_ms(setting: Option<&str>) -> (ms: u64)
    ensures
        ms as nat == maintenance_interval(crate::raft::str_view(setting)),
{
    let n: u64 = match setting {
        Some(s) => match crate::parse::parse_numeral(s, u64::MAX) {
            Some(n) => n,
            None => 100,
        },
        None => 100,
    };
    if n < 1 {
        1
    } else {
        n
    }
}

/// Does a run of maintenance prune? About once a minute.
pub fn is_prune_tick(tick: u64, interval_ms: u64) -> (b: bool)
    requires
        interval_ms > 0,
    ensures
        b == (tick % (if 60_000u64 / interval_ms < 1 {
            1u64
        } else {
            60_000u64 / interval_ms
        }) == 0),
{
    let every: u64 = 60_000 / interval_ms;
    if every < 1 {
        true
    } else {
        tick % every == 0
    }
}

/// An invite that was delivered is done with. One that was not is sent again after half a
/// second, nine times, and then no more.
pub proof fn invites_are_sent_ten_times(attempt: u32)
    ensures
        invite_next(attempt, true) == Next::Proceed,
        attempt < 9 ==> invite_next(attempt, false) == (Next::RetryAfter { ms: 500 }),
        attempt >= 9 ==> invite_next(attempt, false) == Next::GiveUp,
{
}

/// The first ten polls are a tenth of a second apart, later ones half a second.
pub proof fn polls_slow_down(attempt: u32)
    ensures
        attempt < 10 ==> poll_pause(attempt) == 100,
        attempt >= 10 ==> poll_pause(attempt) == 500,
{
}

/// A leader that is known ends the wait, whatever the time. Without one the wait ends at
/// the deadline, and not before.
pub proof fn elections_wait_for_a_leader(
    leader: Option<u64>,
    attempt: u32,
    now: u64,
    deadline: u64,
)
    ensures
        leader matches Some(id) ==> election_next(leader, attempt, now, deadline) == (
        ElectionStep::Elected { leader: id }),
        leader is None && now >= deadline ==> election_next(leader, attempt, now, deadline)
            == ElectionStep::TimedOut,
        leader is None && now < deadline ==> election_next(leader, attempt, now, deadline) == (
        ElectionStep::AskAgainAfter {
            ms: if attempt < 10 {
                100
            } else {
                500
            },
        }),
{
}

/// An election has the time that is configured for formation but at least a second, and
/// thirty seconds where none is; reports have a third of that setting, and twenty seconds
/// where there is none.
pub proof fn configured_times_are_used(secs: u64)
    ensures
        secs >= 1 ==> formation_secs(Some(secs)) == secs,
        formation_secs(Some(0)) == 1,
        formation_secs(None) == 30,
        3 * promotion_secs(Some(secs)) <= secs < 3 * promotion_secs(Some(secs)) + 3,
        promotion_secs(None) == 20,
{
}

/// A queue is looked at again while somebody can send, the time is not over, and it was not
/// found empty three times in a row. A change that is found starts that count again, and
/// is counted where it was processed well; what was counted and the deadline are kept.
pub proof fn looks_are_recorded(d: QueueDrain, now: u64, ok: bool)
    requires
        d.replayed < usize::MAX,
        d.consecutive_empty < usize::MAX,
    ensures
        d.spec_wants_look(now) <==> !d.disconnected && d.consecutive_empty < 3 && now < d.deadline,
        ({
            let after = d.looked(QueueLook::Processed { ok });
            &&& after.consecutive_empty == 0
            &&& ok ==> after.replayed == d.replayed + 1
            &&& !ok ==> after.replayed == d.replayed
            &&& after.disconnected == d.disconnected && after.deadline == d.deadline
        }),
        ({
            let after = d.looked(QueueLook::Empty);
            &&& after.consecutive_empty == d.consecutive_empty + 1
            &&& after.replayed == d.replayed
            &&& after.disconnected == d.disconnected && after.deadline == d.deadline
        }),
        ({
            let after = d.looked(QueueLook::Disconnected);
            &&& after.disconnected
            &&& after.replayed == d.replayed && after.deadline == d.deadline
            &&& !after.spec_wants_look(now)
        }),
{
}

/// The watch over addresses counts the looks in a row at which this node led and nothing
/// was to repair; any other look sets the count back.
pub proof fn clean_looks_are_counted(w: AddressWatch)
    ensures
        w.observed(true, true).clean_observations == 0,
        w.observed(false, true).clean_observations == 0,
        w.observed(false, false).clean_observations == 0,
        w.clean_observations < u8::MAX ==> w.observed(true, false).clean_observations
            == w.clean_observations + 1,
        w.clean_observations == u8::MAX ==> w.observed(true, false).clean_observations == u8::MAX,
        w.observed(true, false).observed(true, false).clean_observations >= 2,
{
}

/// The interval of maintenance is the number that is set, but at least one millisecond; a
/// tenth of a second where nothing is set or what is set is no number.
pub proof fn maintenance_runs_as_set(s: Seq<char>, n: nat)
    ensures
        maintenance_interval(None) == 100,
        crate::parse::numeral_value(vstd::utf8::encode_utf8(s), u64::MAX as nat) is None
            ==> maintenance_interval(Some(s)) == 100,
        crate::parse::numeral_value(vstd::utf8::encode_utf8(s), u64::MAX as nat) == Some(n) && n
            >= 1 ==> maintenance_interval(Some(s)) == n,
        crate::parse::numeral_value(vstd::utf8::encode_utf8(s), u64::MAX as nat) == Some(0nat)
            ==> maintenance_interval(Some(s)) == 1,
{
}

} // verus!
