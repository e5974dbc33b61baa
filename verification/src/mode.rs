//! Deployment modes and roles.

use vstd::prelude::*;

verus! {

/// How a node is deployed.
#[derive(Clone, Copy, Debug, PartialEq, Eq, Structural)]
pub enum DeploymentMode {
    /// Alone.
    Standalone,
    /// With one peer.
    Pair,
    /// Becoming part of a cluster.
    Forming,
    /// Part of a cluster.
    Cluster,
    /// With one peer, which is gone.
    DegradedPair,
    /// Part of a cluster without a quorum.
    DegradedCluster,
}

/// Name of the file that marks a node as a cluster member.
pub const CLUSTER_MEMBER_MARKER: &'static str = "cluster-member";

/// The name of a mode.
pub open spec fn mode_name(mode: DeploymentMode) -> Seq<char> {
    match mode {
        DeploymentMode::Standalone => "Standalone"@,
        DeploymentMode::Pair => "Pair"@,
        DeploymentMode::Forming => "Forming"@,
        DeploymentMode::Cluster => "Cluster"@,
        DeploymentMode::DegradedPair => "DegradedPair"@,
        DeploymentMode::DegradedCluster => "DegradedCluster"@,
    }
}

impl DeploymentMode {
    /// The name of this mode.
    pub fn name(&self) -> (n: &'static str)
        ensures
            n@ == mode_name(*self),
    {
        match self {
            DeploymentMode::Standalone => "Standalone",
            DeploymentMode::Pair => "Pair",
            DeploymentMode::Forming => "Forming",
            DeploymentMode::Cluster => "Cluster",
            DeploymentMode::DegradedPair => "DegradedPair",
            DeploymentMode::DegradedCluster => "DegradedCluster",
        }
    }
}

/// Role of a node in a pair.
#[derive(Clone, Copy, Debug, PartialEq, Eq, Structural)]
pub enum PairRole {
    /// Serves clients.
    Primary,
    /// Replicates.
    Secondary,
}

/// Every mode has a name of its own.
pub proof fn modes_are_named_apart(a: DeploymentMode, b: DeploymentMode)
    ensures
        mode_name(DeploymentMode::Standalone) == "Standalone"@,
        mode_name(DeploymentMode::Pair) == "Pair"@,
        mode_name(DeploymentMode::Forming) == "Forming"@,
        mode_name(DeploymentMode::Cluster) == "Cluster"@,
        mode_name(DeploymentMode::DegradedPair) == "DegradedPair"@,
        mode_name(DeploymentMode::DegradedCluster) == "DegradedCluster"@,
        mode_name(a) == mode_name(b) ==> a == b,
{
    reveal_strlit("Standalone");
    reveal_strlit("Pair");
    reveal_strlit("Forming");
    reveal_strlit("Cluster");
    reveal_strlit("DegradedPair");
    reveal_strlit("DegradedCluster");
    assert("Standalone"@.len() == 10 && "Pair"@.len() == 4 && "Forming"@.len() == 7);
    assert("Cluster"@.len() == 7 && "DegradedPair"@.len() == 12 && "DegradedCluster"@.len() == 15);
    assert("Forming"@[0] == 'F');
    assert("Cluster"@[0] == 'C');
}

} // verus!
