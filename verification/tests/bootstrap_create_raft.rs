//! Consensus group creation phase.

use ferrosa_cluster::controller::bootstrap::create_raft::{postcondition, precondition, CreateRaftSinks};
use ferrosa_cluster::controller::bootstrap::phase::BootstrapPhase;

#[test]
fn precondition_requires_pools_established() {
    precondition(true).expect("pools ok");
    let err = precondition(false).expect_err("pools missing gives fail");
    assert_eq!(err.name(), BootstrapPhase::CreateRaft);
}

#[test]
fn postcondition_requires_all_three_sinks() {
    let all = CreateRaftSinks {
        raft_tx_published: true,
        raft_instance_swap_published: true,
        ddl_path_published: true,
    };
    postcondition(all).expect("all sinks gives ok");

    let missing_ddl = CreateRaftSinks {
        ddl_path_published: false,
        ..all
    };
    assert!(postcondition(missing_ddl).is_err());

    let missing_swap = CreateRaftSinks {
        raft_instance_swap_published: false,
        ..all
    };
    assert!(postcondition(missing_swap).is_err());

    let missing_tx = CreateRaftSinks {
        raft_tx_published: false,
        ..all
    };
    assert!(postcondition(missing_tx).is_err());
}
