//! Creating the consensus instance.
//!
//! The pools stand before; afterwards the instance is published to the three
//! places that wait for it.

use vstd::prelude::*;

use super::phase::{BootstrapError, BootstrapPhase};

verus! {

/// Where the instance has been published.
#[derive(Clone, Copy, Debug, PartialEq, Eq, Structural)]
pub struct CreateRaftSinks {
    pub raft_tx_published: bool,
    pub raft_instance_swap_published: bool,
    pub ddl_path_published: bool,
}

impl Default for CreateRaftSinks {
    /// Nowhere.
    fn default() -> (s: Self)
        ensures
            s == (CreateRaftSinks {
                raft_tx_published: false,
                raft_instance_swap_published: false,
                ddl_path_published: false,
            }),
    {
        CreateRaftSinks {
            raft_tx_published: false,
            raft_instance_swap_published: false,
            ddl_path_published: false,
        }
    }
}

impl CreateRaftSinks {
    /// Everywhere?
    pub open spec fn spec_all_published(self) -> bool {
        self.raft_tx_published && self.raft_instance_swap_published && self.ddl_path_published
    }

    /// Everywhere?
    pub fn all_published(self) -> (b: bool)
        ensures
            b == self.spec_all_published(),
    {
        self.raft_tx_published && self.raft_instance_swap_published && self.ddl_path_published
    }
}

/// A truth value as text.
pub open spec fn bool_text(b: bool) -> Seq<char> {
    if b {
        "true"@
    } else {
        "false"@
    }
}

/// A truth value as text.
pub fn bool_name(b: bool) -> (t: &'static str)
    ensures
        t@ == bool_text(b),
{
    if b {
        "true"
    } else {
        "false"
    }
}

/// The sinks as text.
pub open spec fn sinks_text(s: CreateRaftSinks) -> Seq<char> {
    "CreateRaftSinks { raft_tx_published: "@ + bool_text(s.raft_tx_published)
        + ", raft_instance_swap_published: "@ + bool_text(s.raft_instance_swap_published)
        + ", ddl_path_published: "@ + bool_text(s.ddl_path_published) + " }"@
}

/// The pools must stand.
pub fn precondition(pools_established: bool) -> (r: Result<(), BootstrapError>)
    ensures
        match r {
            Ok(()) => pools_established,
            Err(e) => !pools_established && e.says(
                BootstrapPhase::CreateRaft,
                "EstablishPools post-condition not satisfied"@,
            ),
        },
{
    if pools_established {
        Ok(())
    } else {
        Err(
            BootstrapError::phase(
                BootstrapPhase::CreateRaft,
                "EstablishPools post-condition not satisfied",
            ),
        )
    }
}

/// The instance must be published everywhere.
pub fn postcondition(sinks: CreateRaftSinks) -> (r: Result<(), BootstrapError>)
    ensures
        match r {
            Ok(()) => sinks.spec_all_published(),
            Err(e) => !sinks.spec_all_published() && e.says(
                BootstrapPhase::CreateRaft,
                "not all Raft sinks published: "@ + sinks_text(sinks),
            ),
        },
{
    if sinks.all_published() {
        Ok(())
    } else {
        let mut m = "not all Raft sinks published: ".to_owned();
        m.append("CreateRaftSinks { raft_tx_published: ");
        m.append(bool_name(sinks.raft_tx_published));
        m.append(", raft_instance_swap_published: ");
        m.append(bool_name(sinks.raft_instance_swap_published));
        m.append(", ddl_path_published: ");
        m.append(bool_name(sinks.ddl_path_published));
        m.append(" }");
        assert(m@ =~= "not all Raft sinks published: "@ + sinks_text(sinks));
        Err(BootstrapError::from_source(BootstrapPhase::CreateRaft, m))
    }
}

/// The instance is published everywhere where all three sinks have it.
pub proof fn every_sink_counts(s: CreateRaftSinks)
    ensures
        s.spec_all_published() <==> s.raft_tx_published && s.raft_instance_swap_published
            && s.ddl_path_published,
        bool_text(true) == "true"@,
        bool_text(false) == "false"@,
{
}

/// The sinks are given each by its name and whether it has the instance.
pub proof fn sinks_are_given_by_name(s: CreateRaftSinks)
    ensures
        sinks_text(s) == "CreateRaftSinks { raft_tx_published: "@ + bool_text(s.raft_tx_published)
            + ", raft_instance_swap_published: "@ + bool_text(s.raft_instance_swap_published)
            + ", ddl_path_published: "@ + bool_text(s.ddl_path_published) + " }"@,
{
}

} // verus!
