//! Phases and the errors that name them.

use vstd::prelude::*;

verus! {

/// A step of bringing up a cluster.
#[derive(Clone, Copy, Debug, PartialEq, Eq, Hash, Structural)]
pub enum BootstrapPhase {
    DeliverInvites,
    EstablishPools,
    CreateRaft,
    WaitLeader,
    ReplaySchema,
    BootstrapStream,
    Promote,
    DrainQueue,
}

/// The label of a phase.
pub open spec fn phase_label(phase: BootstrapPhase) -> Seq<char> {
    match phase {
        BootstrapPhase::DeliverInvites => "deliver_invites"@,
        BootstrapPhase::EstablishPools => "establish_pools"@,
        BootstrapPhase::CreateRaft => "create_raft"@,
        BootstrapPhase::WaitLeader => "wait_leader"@,
        BootstrapPhase::ReplaySchema => "replay_schema"@,
        BootstrapPhase::BootstrapStream => "bootstrap_stream"@,
        BootstrapPhase::Promote => "promote"@,
        BootstrapPhase::DrainQueue => "drain_queue"@,
    }
}

/// Every phase, in the order in which they run.
pub open spec fn phase_order() -> Seq<BootstrapPhase> {
    seq![
        BootstrapPhase::DeliverInvites,
        BootstrapPhase::EstablishPools,
        BootstrapPhase::CreateRaft,
        BootstrapPhase::WaitLeader,
        BootstrapPhase::ReplaySchema,
        BootstrapPhase::BootstrapStream,
        BootstrapPhase::Promote,
        BootstrapPhase::DrainQueue,
    ]
}

impl BootstrapPhase {
    /// The label of this phase in logs and metrics.
    pub fn as_str(self) -> (label: &'static str)
        ensures
            label@ == phase_label(self),
    {
        match self {
            BootstrapPhase::DeliverInvites => "deliver_invites",
            BootstrapPhase::EstablishPools => "establish_pools",
            BootstrapPhase::CreateRaft => "create_raft",
            BootstrapPhase::WaitLeader => "wait_leader",
            BootstrapPhase::ReplaySchema => "replay_schema",
            BootstrapPhase::BootstrapStream => "bootstrap_stream",
            BootstrapPhase::Promote => "promote",
            BootstrapPhase::DrainQueue => "drain_queue",
        }
    }

    /// Every phase, in the order in which they run.
    pub fn all() -> (phases: [BootstrapPhase; 8])
        ensures
            phases@ == phase_order(),
    {
        [
            BootstrapPhase::DeliverInvites,
            BootstrapPhase::EstablishPools,
            BootstrapPhase::CreateRaft,
            BootstrapPhase::WaitLeader,
            BootstrapPhase::ReplaySchema,
            BootstrapPhase::BootstrapStream,
            BootstrapPhase::Promote,
            BootstrapPhase::DrainQueue,
        ]
    }
}

/// A phase that failed.
#[derive(Debug)]
pub enum BootstrapError {
    /// A condition of a phase, or the phase itself, failed.
    Phase { name: BootstrapPhase, source: String },
}

impl BootstrapError {
    /// The phase that failed.
    pub open spec fn spec_name(self) -> BootstrapPhase {
        self->name
    }

    /// Why it failed.
    pub open spec fn spec_source(self) -> Seq<char> {
        self->source@
    }

    /// Is this the failure of a phase for a reason?
    pub open spec fn says(self, name: BootstrapPhase, reason: Seq<char>) -> bool {
        self.spec_name() == name && self.spec_source() == reason
    }

    /// The failure of a phase for a reason.
    pub fn phase(name: BootstrapPhase, msg: &str) -> (e: BootstrapError)
        ensures
            e.says(name, msg@),
    {
        BootstrapError::Phase { name, source: msg.to_owned() }
    }

    /// The failure of a phase for a reason at hand.
    pub fn from_source(name: BootstrapPhase, err: String) -> (e: BootstrapError)
        ensures
            e.says(name, err@),
    {
        BootstrapError::Phase { name, source: err }
    }

    /// The phase that failed.
    pub fn name(&self) -> (name: BootstrapPhase)
        ensures
            name == self.spec_name(),
    {
        match self {
            BootstrapError::Phase { name, .. } => *name,
        }
    }

    /// The message of this error.
    pub fn message(&self) -> (m: String)
        ensures
            m@ == "bootstrap phase '"@ + phase_label(self.spec_name()) + "' failed: "@
                + self.spec_source(),
    {
        match self {
            BootstrapError::Phase { name, source } => {
                let mut m = "bootstrap phase '".to_owned();
                m.append(name.as_str());
                m.append("' failed: ");
                m.append(source.as_str());
                m
            },
        }
    }
}

/// Every phase runs exactly once.
pub proof fn every_phase_runs_once(phase: BootstrapPhase)
    ensures
        phase_order().no_duplicates(),
        phase_order().contains(phase),
{
    let o = phase_order();
    match phase {
        BootstrapPhase::DeliverInvites => assert(o[0] == phase),
        BootstrapPhase::EstablishPools => assert(o[1] == phase),
        BootstrapPhase::CreateRaft => assert(o[2] == phase),
        BootstrapPhase::WaitLeader => assert(o[3] == phase),
        BootstrapPhase::ReplaySchema => assert(o[4] == phase),
        BootstrapPhase::BootstrapStream => assert(o[5] == phase),
        BootstrapPhase::Promote => assert(o[6] == phase),
        BootstrapPhase::DrainQueue => assert(o[7] == phase),
    }
}

/// Labels tell phases apart.
pub proof fn labels_are_distinct(a: BootstrapPhase, b: BootstrapPhase)
    requires
        a != b,
    ensures
        phase_label(a) != phase_label(b),
        phase_label(a).len() > 0,
{
    reveal_strlit("deliver_invites");
    reveal_strlit("establish_pools");
    reveal_strlit("create_raft");
    reveal_strlit("wait_leader");
    reveal_strlit("replay_schema");
    reveal_strlit("bootstrap_stream");
    reveal_strlit("promote");
    reveal_strlit("drain_queue");
    let x = phase_label(a);
    let y = phase_label(b);
    assert(x.len() == y.len() ==> x[0] != y[0]);
}

/// The phases run in this order: invites are delivered, pools are established, consensus is
/// created, a leader is awaited, the schema is replayed, data is streamed, nodes are
/// promoted, and the queue is drained.
pub proof fn phases_run_in_order()
    ensures
        phase_order().len() == 8,
        phase_order()[0] == BootstrapPhase::DeliverInvites,
        phase_order()[1] == BootstrapPhase::EstablishPools,
        phase_order()[2] == BootstrapPhase::CreateRaft,
        phase_order()[3] == BootstrapPhase::WaitLeader,
        phase_order()[4] == BootstrapPhase::ReplaySchema,
        phase_order()[5] == BootstrapPhase::BootstrapStream,
        phase_order()[6] == BootstrapPhase::Promote,
        phase_order()[7] == BootstrapPhase::DrainQueue,
{
}

/// Every phase has its own label.
pub proof fn phases_have_their_labels()
    ensures
        phase_label(BootstrapPhase::DeliverInvites) == "deliver_invites"@,
        phase_label(BootstrapPhase::EstablishPools) == "establish_pools"@,
        phase_label(BootstrapPhase::CreateRaft) == "create_raft"@,
        phase_label(BootstrapPhase::WaitLeader) == "wait_leader"@,
        phase_label(BootstrapPhase::ReplaySchema) == "replay_schema"@,
        phase_label(BootstrapPhase::BootstrapStream) == "bootstrap_stream"@,
        phase_label(BootstrapPhase::Promote) == "promote"@,
        phase_label(BootstrapPhase::DrainQueue) == "drain_queue"@,
{
}

/// An error is of the phase that it names, for the reason that it gives.
pub proof fn errors_say_their_phase(e: BootstrapError, phase: BootstrapPhase, reason: Seq<char>)
    ensures
        e.says(phase, reason) <==> e->name == phase && e->source@ == reason,
{
}

} // verus!
