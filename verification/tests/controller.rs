//! Mode changes of a node.

use ferrosa_cluster::address::{Peer, PeerAddr};
use ferrosa_cluster::config::ClusterConfig;
use ferrosa_cluster::controller::events::PeerFacts;
use ferrosa_cluster::controller::mode_controller::{
    ClusterStateHolder, ControllerAction, DdlPath, ModeController, WritePath,
};
use ferrosa_cluster::controller::pair::PeerPromotion;
use ferrosa_cluster::controller::raft_groups::{RaftGroupId, RaftGroups};
use ferrosa_cluster::controller::streaming::DecommissionStep;
use ferrosa_cluster::error::ClusterError;
use ferrosa_cluster::mode::{DeploymentMode, PairRole};
use ferrosa_cluster::raft::{NodeState, RaftOp};

const LOCAL: u128 = 50;

fn addr(host: &str, port: u16) -> PeerAddr {
    PeerAddr::new(host, port)
}

fn peer(host_id: u128, host: &str, port: u16) -> Peer {
    Peer::new(host_id, addr(host, port))
}

fn controller_with(config: ClusterConfig) -> ModeController {
    ModeController::new(config, LOCAL, 7000, addr("10.0.0.1", 7000))
}

fn controller() -> ModeController {
    let mut c = controller_with(ClusterConfig::default());
    c.set_peer_manager();
    c
}

fn facts() -> PeerFacts {
    PeerFacts {
        cql_broadcast: None,
        internode_broadcast: None,
        existing: None,
        has_outbound: true,
        promotion: None,
        raft_initialized: false,
    }
}

/// Do what the controller asks for, as far as it changes the controller.
fn perform(c: &mut ModeController, actions: &[ControllerAction]) {
    for a in actions {
        if let ControllerAction::FormCluster { .. } = a {
            assert!(c.transition_to_cluster());
        }
    }
}

fn connect(c: &mut ModeController, p: &Peer) -> Vec<ControllerAction> {
    let actions = c.on_peer_connected(p, facts(), 1_000);
    perform(c, &actions);
    actions
}

fn cluster_controller() -> ModeController {
    let mut c = controller();
    connect(&mut c, &peer(1, "127.0.0.1", 7001));
    connect(&mut c, &peer(2, "127.0.0.2", 7002));
    c
}

#[test]
fn starts_in_standalone_mode() {
    let c = controller_with(ClusterConfig::default());
    assert_eq!(c.mode(), DeploymentMode::Standalone);
    assert_eq!(c.host_id(), LOCAL);
    assert_eq!(c.role(), None);
}

#[test]
fn peer_connect_transitions_to_pair() {
    let mut c = controller();
    connect(&mut c, &peer(1, "127.0.0.1", 7000));
    assert_eq!(c.mode(), DeploymentMode::Pair);
}

#[test]
fn peer_disconnect_transitions_to_degraded() {
    let mut c = controller();
    connect(&mut c, &peer(1, "127.0.0.1", 7000));
    assert_eq!(c.mode(), DeploymentMode::Pair);

    c.on_peer_disconnected(1);
    // Degraded preserves pair context: the mode is DegradedPair, not Standalone.
    assert_eq!(c.mode(), DeploymentMode::DegradedPair);
    assert!(c.role().is_some(), "pair context must be preserved in degraded mode");
}

#[test]
fn force_promote_sets_direct_write_path() {
    let mut c = controller_with(ClusterConfig::default());
    c.force_promote().unwrap();
    assert_eq!(c.mode(), DeploymentMode::Standalone);
    assert!(c.force_promoted);
    assert_eq!(c.write_path, WritePath::Direct);
    assert_eq!(c.ddl_path, DdlPath::Direct);
    assert_eq!(c.cluster_state, ClusterStateHolder::Standalone);
}

#[test]
fn second_peer_transitions_to_cluster() {
    let mut c = controller();
    // First peer: pair mode.
    connect(&mut c, &peer(1, "127.0.0.1", 7001));
    assert_eq!(c.mode(), DeploymentMode::Pair);

    // Second peer: cluster mode.
    connect(&mut c, &peer(2, "127.0.0.2", 7002));
    assert_eq!(c.mode(), DeploymentMode::Cluster);
}

#[test]
fn connected_peers_tracked_and_cleared() {
    let mut c = controller();
    connect(&mut c, &peer(1, "127.0.0.1", 7000));
    assert_eq!(c.connected_peers.len(), 1);

    c.on_peer_disconnected(1);
    assert_eq!(c.connected_peers.len(), 0);
}

#[test]
fn raft_initializes_on_third_peer() {
    let mut c = controller();
    connect(&mut c, &peer(1, "127.0.0.1", 7001));
    let actions = connect(&mut c, &peer(2, "127.0.0.2", 7002));
    assert!(
        actions.iter().any(
            |a| matches!(a, ControllerAction::FormCluster { peers } if peers.len() == 2)
        ),
        "consensus is started with both peers"
    );
    assert_eq!(c.mode(), DeploymentMode::Cluster);
}

#[test]
fn raft_accessor_returns_none_before_init() {
    let c = controller_with(ClusterConfig::default());
    let groups: RaftGroups<u64> = RaftGroups::new();
    assert!(
        groups.raft(c.config.data_center.as_str()).is_none(),
        "there is no consensus group in standalone mode"
    );
    assert!(groups.is_empty());
}

#[test]
fn unapproved_node_rejected() {
    let c = controller_with(ClusterConfig { auto_join: false, ..ClusterConfig::default() });
    let result = c.handle_join_request(77, 7, false);
    assert!(
        matches!(result, Err(ClusterError::NotApproved(id)) if id == 77),
        "unapproved node must be rejected"
    );
}

#[test]
fn approved_node_passes_approval_check() {
    let mut c = controller_with(ClusterConfig { auto_join: false, ..ClusterConfig::default() });
    c.approve_node(77);

    // Passes approval, but fails at the consensus check: there is none yet.
    let result = c.handle_join_request(77, 7, false);
    assert!(
        matches!(result, Err(ClusterError::Internal(_))),
        "approved node should pass approval check but fail on raft"
    );
}

#[test]
fn auto_join_bypasses_approval() {
    let c = controller_with(ClusterConfig { auto_join: true, ..ClusterConfig::default() });
    let result = c.handle_join_request(77, 7, false);
    assert!(
        matches!(result, Err(ClusterError::Internal(_))),
        "auto_join should bypass approval check"
    );
}

#[test]
fn approved_peer_triggers_join_in_cluster_mode() {
    let mut c = cluster_controller();
    assert_eq!(c.mode(), DeploymentMode::Cluster);

    // A third peer connects in cluster mode.
    connect(&mut c, &peer(3, "127.0.0.3", 7003));
    assert!(
        c.pending_joins.contains(&3),
        "new peer should be in pending_joins after on_peer_connected in cluster mode"
    );
}

#[test]
fn decommission_requires_raft() {
    let c = controller_with(ClusterConfig::default());
    let result = c.initiate_decommission(false, 9, None);
    assert!(
        matches!(result, Err(ClusterError::Internal(_))),
        "decommission without raft must fail"
    );
}

#[test]
fn is_cql_ready_standalone_returns_true() {
    let c = controller_with(ClusterConfig::default());
    assert_eq!(c.mode(), DeploymentMode::Standalone);
    assert!(c.is_cql_ready(), "standalone node must accept CQL connections");
}

#[test]
fn is_cql_ready_pair_secondary_returns_false() {
    let mut c = controller();
    connect(&mut c, &peer(1, "127.0.0.1", 7000));
    assert_eq!(c.mode(), DeploymentMode::Pair);
    assert_eq!(c.role(), Some(PairRole::Secondary));
    assert!(!c.is_cql_ready(), "pair secondary must NOT accept CQL connections");
}

/// The two ends of a pair take different roles, whichever connected to the other.
#[test]
fn one_end_of_a_pair_is_primary() {
    let mut low = ModeController::new(ClusterConfig::default(), 1, 7000, addr("10.0.0.1", 7000));
    let mut high = ModeController::new(ClusterConfig::default(), 2, 7000, addr("10.0.0.2", 7000));
    low.set_peer_manager();
    high.set_peer_manager();
    low.on_peer_connected(&peer(2, "10.0.0.2", 7000), facts(), 0);
    high.on_inbound_peer(&peer(1, "10.0.0.1", 51_000), None, facts(), 0);
    assert_eq!(low.role(), Some(PairRole::Primary));
    assert_eq!(high.role(), Some(PairRole::Secondary));
    assert!(low.is_cql_ready());
    assert!(!high.is_cql_ready());
}

/// A promoted node stays primary when its peer is back, once.
#[test]
fn promoted_node_stays_primary_on_return() {
    let mut c = controller();
    connect(&mut c, &peer(1, "127.0.0.1", 7000));
    c.on_peer_disconnected(1);
    c.force_promote().unwrap();
    assert_eq!(c.promote_epoch, 1);
    connect(&mut c, &peer(1, "127.0.0.1", 7000));
    assert_eq!(c.mode(), DeploymentMode::Pair);
    assert_eq!(c.role(), Some(PairRole::Primary));
    assert!(!c.force_promoted);
}

/// Of two promoted nodes the one that was promoted more often is primary.
#[test]
fn more_promotions_win() {
    let mut c = controller();
    c.force_promote().unwrap();
    let promotion = Some(PeerPromotion { epoch: 2, pending: true });
    let rival = PeerFacts { promotion, ..facts() };
    let actions = c.on_peer_connected(&peer(60, "127.0.0.1", 7000), rival, 0);
    assert_eq!(c.role(), Some(PairRole::Secondary));
    assert_eq!(c.promotion(), PeerPromotion { epoch: 2, pending: false });
    assert!(actions.iter().any(
        |a| matches!(a, ControllerAction::EnterPair { plan } if plan.catch_up.is_empty())
    ));
}

/// A node that alone was promoted since the pair was made is primary, though its
/// peer was promoted as often before and has the lower host id.
#[test]
fn latest_promotion_wins() {
    let make = |id: u128, host: &str| {
        let mut c = ModeController::new(ClusterConfig::default(), id, 7000, addr(host, 7000));
        c.set_peer_manager();
        c
    };
    let (mut a, mut b) = (make(1, "10.0.0.1"), make(2, "10.0.0.2"));
    let (at_a, at_b) = (peer(1, "10.0.0.1", 7000), peer(2, "10.0.0.2", 7000));
    let pair_up = |a: &mut ModeController, b: &mut ModeController| {
        let (of_a, of_b) = (a.promotion(), b.promotion());
        a.on_peer_connected(&at_b, PeerFacts { promotion: Some(of_b), ..facts() }, 0);
        b.on_inbound_peer(&at_a, None, PeerFacts { promotion: Some(of_a), ..facts() }, 0);
    };
    a.force_promote().unwrap();
    pair_up(&mut a, &mut b);
    assert_eq!((a.role(), b.role()), (Some(PairRole::Primary), Some(PairRole::Secondary)));
    assert_eq!((a.promote_epoch, b.promote_epoch), (1, 1), "counts meet");
    a.on_peer_disconnected(2);
    b.on_peer_disconnected(1);
    b.force_promote().unwrap();
    pair_up(&mut a, &mut b);
    assert_eq!((a.role(), b.role()), (Some(PairRole::Secondary), Some(PairRole::Primary)));
    assert_eq!((a.promote_epoch, b.promote_epoch), (2, 2));
    // Even where the counts are the same.
    a.on_peer_disconnected(2);
    b.on_peer_disconnected(1);
    b.force_promote().unwrap();
    let of_a = Some(PeerPromotion { epoch: b.promote_epoch, pending: false });
    b.on_peer_connected(&at_a, PeerFacts { promotion: of_a, ..facts() }, 0);
    assert_eq!(b.role(), Some(PairRole::Primary));
}

/// A degraded pair is restored by its peer.
#[test]
fn degraded_pair_is_restored() {
    let mut c = controller();
    connect(&mut c, &peer(1, "127.0.0.1", 7000));
    c.on_peer_disconnected(1);
    assert_eq!(c.write_path, WritePath::Unavailable);
    connect(&mut c, &peer(1, "127.0.0.1", 7000));
    assert_eq!(c.mode(), DeploymentMode::Pair);
    assert_eq!(c.write_path, WritePath::Pair);
    assert_eq!(c.ddl_path, DdlPath::Pair);
}

/// A connection from itself changes nothing.
#[test]
fn own_connections_are_ignored() {
    let mut c = controller();
    assert!(connect(&mut c, &peer(LOCAL, "10.0.0.1", 7000)).is_empty());
    assert!(c.on_inbound_peer(&peer(LOCAL, "10.0.0.1", 5), None, facts(), 0).is_empty());
    assert_eq!(c.mode(), DeploymentMode::Standalone);
    assert!(c.connected_peers.is_empty());
}

/// An inbound peer is kept at the port that nodes talk on, and reached there.
#[test]
fn inbound_peers_are_reached_at_the_internode_port() {
    let mut c = controller();
    let actions = c.on_inbound_peer(&peer(60, "10.0.0.9", 51_000), None, facts(), 0);
    assert_eq!(c.connected_peers[0].addr.text(), "10.0.0.9:7000");
    assert!(matches!(actions[0], ControllerAction::RegisterPeer { host_id: 60 }));
    assert!(
        matches!(&actions[1], ControllerAction::RefreshOutbound { peer } if peer.addr.text() == "10.0.0.9:7000")
    );
}

/// Without a quorum nothing is written; with it nothing changes.
#[test]
fn lost_quorum_degrades_the_cluster() {
    let mut c = cluster_controller();
    c.committed_cluster_size = 3;
    c.on_peer_disconnected(1);
    assert_eq!(c.mode(), DeploymentMode::Cluster);
    assert_eq!(c.write_path, WritePath::Cluster);
    c.on_peer_disconnected(2);
    assert_eq!(c.mode(), DeploymentMode::DegradedCluster);
    assert_eq!(c.write_path, WritePath::Unavailable);
    assert_eq!(c.ddl_path, DdlPath::Unavailable);
    assert!(c.is_cql_ready());
}

/// A node that was a member waits for a quorum.
#[test]
fn returning_member_starts_degraded() {
    let c = ModeController::returning_member(
        ClusterConfig::default(),
        LOCAL,
        7000,
        addr("10.0.0.1", 7000),
    );
    assert_eq!(c.mode(), DeploymentMode::DegradedCluster);
    assert_eq!(c.write_path, WritePath::Unavailable);
}

/// While a cluster forms, schema changes are queued and clients wait.
#[test]
fn forming_queues_schema_changes() {
    let mut c = controller();
    connect(&mut c, &peer(1, "127.0.0.1", 7001));
    assert!(c.transition_to_forming());
    assert_eq!(c.mode(), DeploymentMode::Forming);
    assert_eq!(c.ddl_path, DdlPath::Forming);
    assert_eq!(c.committed_cluster_size, 2);
    assert!(!c.is_cql_ready());
    c.revert_to_pair();
    assert_eq!(c.mode(), DeploymentMode::Pair);
}

/// Without a network no transition happens.
#[test]
fn transitions_need_a_network() {
    let mut c = controller_with(ClusterConfig::default());
    assert!(!c.transition_to_forming());
    assert!(!c.transition_to_cluster());
    assert!(c.transition_to_pair(&peer(1, "h", 1), false, None).is_none());
    assert_eq!(c.mode(), DeploymentMode::Standalone);
}

/// A switchover needs a pair and a network.
#[test]
fn switchover_names_the_peer() {
    let mut c = controller();
    assert_eq!(
        c.switchover(),
        Err(ClusterError::ModeTransitionRejected(
            "switchover requires pair mode; current node is standalone".to_string()
        ))
    );
    connect(&mut c, &peer(1, "127.0.0.1", 7000));
    assert_eq!(c.switchover(), Ok(1));
    c.has_network = false;
    assert_eq!(
        c.switchover(),
        Err(ClusterError::ModeTransitionRejected(
            "peer manager not initialized; peer may be disconnected".to_string()
        ))
    );
}

/// After a switchover the named node is primary, and it alone serves clients.
#[test]
fn swapped_roles_decide_who_serves() {
    let mut c = controller();
    c.set_primary(c.host_id());
    assert_eq!(c.role(), None, "there is no pair");
    connect(&mut c, &peer(1, "127.0.0.1", 7000));
    let local = c.host_id();
    c.set_primary(1);
    assert_eq!(c.role(), Some(PairRole::Secondary));
    assert!(!c.is_cql_ready());
    assert_eq!(c.switchover(), Ok(1), "the peer stays the same");
    c.set_primary(local);
    assert_eq!(c.role(), Some(PairRole::Primary));
    assert!(c.is_cql_ready());
    assert_eq!(c.mode(), DeploymentMode::Pair);
}

/// An approved peer gets a record and its tokens.
#[test]
fn join_request_proposes_record_and_tokens() {
    let c = controller_with(ClusterConfig { num_tokens: 3, ..ClusterConfig::default() });
    let ops = c.handle_join_request(77, 7, true).unwrap();
    assert_eq!(ops.len(), 2);
    match &ops[0] {
        RaftOp::JoinNode(info) => {
            assert_eq!(info.host_id, 77);
            assert_eq!(info.state, NodeState::Normal);
            assert_eq!(info.data_center, "datacenter1");
        }
        other => panic!("expected JoinNode, got {:?}", other),
    }
    match &ops[1] {
        RaftOp::AssignTokens { node_id, tokens } => {
            assert_eq!(*node_id, 7);
            assert_eq!(tokens.len(), 3);
        }
        other => panic!("expected AssignTokens, got {:?}", other),
    }
    let absent = c.handle_join_request(77, 7, false);
    assert_eq!(absent, Err(ClusterError::Internal("raft not initialized".to_string())));
}

/// A node without tables leaves at once.
#[test]
fn decommission_without_tables_proposes_the_removal() {
    let c = controller();
    let steps = c.initiate_decommission(true, 9, None).unwrap();
    assert!(matches!(steps.last(), Some(DecommissionStep::Propose { .. })), "{steps:?}");
}

/// Data centers that peers announce are remembered.
#[test]
fn announced_data_centers_are_remembered() {
    let mut c = controller();
    assert_eq!(c.peer_dc(1), None);
    c.record_peer_dc(1, "east".to_string());
    assert_eq!(c.peer_dc(1), Some(&"east".to_string()));
    c.record_peer_dc(1, "west".to_string());
    assert_eq!(c.peer_dc(1), Some(&"west".to_string()));
}

/// A join that ended can begin again.
#[test]
fn finished_join_leaves_the_queue() {
    let mut c = cluster_controller();
    connect(&mut c, &peer(3, "127.0.0.3", 7003));
    c.finish_join(3);
    assert!(!c.pending_joins.contains(&3));
    connect(&mut c, &peer(3, "127.0.0.3", 7003));
    assert!(c.pending_joins.contains(&3));
}

/// Invites are spaced by a cooldown, unless the last one failed.
#[test]
fn invites_are_spaced() {
    let mut c = cluster_controller();
    let sent = c.send_cluster_invite_to(9, 100_000);
    assert!(matches!(sent, Some(ControllerAction::SendInvite { reserved_at: 100_000, .. })));
    assert!(c.send_cluster_invite_to(9, 129_999).is_none());
    c.invite_failed(9, 100_000);
    assert!(c.send_cluster_invite_to(9, 129_999).is_some());
    assert!(c.send_cluster_invite_to(9, 159_998).is_none());
    assert!(c.send_cluster_invite_to(9, 159_999).is_some());
}

/// A recovered peer gets what was kept for it.
#[test]
fn recovered_peer_gets_its_hints() {
    let mut c = cluster_controller();
    let actions = c.on_peer_recovered(1, 3, 0);
    assert!(actions.iter().any(|a| matches!(a, ControllerAction::DeliverHints { host_id: 1 })));
    let none = c.on_peer_recovered(1, 0, 0);
    assert!(!none.iter().any(|a| matches!(a, ControllerAction::DeliverHints { .. })));
}

/// A node's own group comes before the default one.
#[test]
fn own_group_is_preferred() {
    let mut groups: RaftGroups<u64> = RaftGroups::new();
    groups.set_raft_for_group(RaftGroupId::default_dc(), 1);
    assert_eq!(groups.raft("east"), Some(&1));
    groups.set_raft_for_dc("east", 2);
    assert_eq!(groups.raft("east"), Some(&2));
    assert_eq!(groups.raft_for_dc("west"), None);
    assert_eq!(groups.raft_for_group(&RaftGroupId::for_dc("east")), Some(&2));
    assert_eq!(groups.len(), 2);
}
