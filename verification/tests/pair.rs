//! Pairs, peer events and quorums.

use ferrosa_cluster::address::{Peer, PeerAddr};
use ferrosa_cluster::controller::pair::{
    after_reverse_attempt, choose_pair_role, plan_catch_up, plan_pair, CatchUpStep, PeerPromotion,
};
use ferrosa_cluster::controller::peer_events::{
    plan_peer_connected, plan_peer_recovered, quorum_connected, resolve_inbound_reverse_addr,
    should_install_refreshed_outbound_peer, should_refresh_outbound_peer_for_inbound,
    track_connected_peer, untrack_peer, PeerEventAction,
};
use ferrosa_cluster::controller::retry::Next;
use ferrosa_cluster::mode::{DeploymentMode, PairRole};

fn addr(text: &str) -> PeerAddr {
    PeerAddr::new(text, 7000)
}

#[test]
fn lower_host_id_is_primary() {
    assert_eq!(choose_pair_role(1, 2, false, 0, None), PairRole::Primary);
    assert_eq!(choose_pair_role(2, 1, false, 0, None), PairRole::Secondary);
    assert_eq!(choose_pair_role(2, 1, true, 1, None), PairRole::Primary);
}

/// A promotion decides over host ids and counts; two promotions are told apart by
/// count, then by host id.
#[test]
fn promotions_decide_roles() {
    let known = |epoch: u64, pending: bool| Some(PeerPromotion { epoch, pending });
    assert_eq!(choose_pair_role(2, 1, true, 1, known(1, false)), PairRole::Primary);
    assert_eq!(choose_pair_role(2, 1, true, 1, known(9, false)), PairRole::Primary);
    assert_eq!(choose_pair_role(1, 2, false, 9, known(1, true)), PairRole::Secondary);
    assert_eq!(choose_pair_role(2, 1, true, 1, known(2, true)), PairRole::Secondary);
    assert_eq!(choose_pair_role(2, 1, true, 2, known(1, true)), PairRole::Primary);
    assert_eq!(choose_pair_role(2, 1, true, 1, known(1, true)), PairRole::Secondary);
    assert_eq!(choose_pair_role(1, 2, true, 1, known(1, true)), PairRole::Primary);
    assert_eq!(choose_pair_role(2, 1, false, 3, known(2, false)), PairRole::Primary);
    assert_eq!(choose_pair_role(2, 1, false, 3, known(3, false)), PairRole::Secondary);
}

/// Schema goes before data, and data only after a promotion.
#[test]
fn peers_are_brought_up_to_date() {
    assert!(plan_catch_up(PairRole::Secondary, false).is_empty());
    assert!(plan_catch_up(PairRole::Secondary, true).is_empty(), "it corrects nobody");
    let normal = plan_catch_up(PairRole::Primary, false);
    assert!(normal.contains(&CatchUpStep::SendSchema));
    assert!(!normal.contains(&CatchUpStep::ReplayCommitLog));
    let promoted = plan_catch_up(PairRole::Primary, true);
    let at = |s: CatchUpStep| promoted.iter().position(|x| *x == s).expect("a step");
    assert!(at(CatchUpStep::CorrectRole) < at(CatchUpStep::SendSchema));
    assert!(at(CatchUpStep::SendSchema) < at(CatchUpStep::ReplayCommitLog));
    assert!(at(CatchUpStep::SyncCommitLog) < at(CatchUpStep::ReplayCommitLog));
}

#[test]
fn inbound_peers_are_connected_back_to() {
    let p = Peer::new(9, PeerAddr::new("10.0.0.9", 51_000));
    let inbound = plan_pair(1, &p, true, false, 0, None, 7000);
    assert_eq!(inbound.reverse.map(|a| a.text()), Some("10.0.0.9:7000".to_string()));
    assert_eq!(inbound.role, PairRole::Primary);
    let outbound = plan_pair(1, &p, false, false, 0, None, 7000);
    assert!(outbound.reverse.is_none());
    assert_eq!(after_reverse_attempt(0, true), Next::Proceed);
    assert!(matches!(after_reverse_attempt(0, false), Next::RetryAfter { .. }));
    let mut attempt = 0;
    while after_reverse_attempt(attempt, false) != Next::GiveUp {
        attempt += 1;
        assert!(attempt < 1_000);
    }
}

#[test]
fn tracked_peers_are_distinct_and_bounded() {
    let mut peers = Vec::new();
    track_connected_peer(&mut peers, 1, &addr("a"), 2);
    track_connected_peer(&mut peers, 1, &addr("b"), 2);
    assert_eq!(peers.len(), 1);
    assert_eq!(peers[0].addr.text(), "b:7000");
    track_connected_peer(&mut peers, 2, &addr("c"), 2);
    track_connected_peer(&mut peers, 3, &addr("d"), 2);
    assert!(peers.len() <= 2);
    assert!(peers.iter().any(|p| p.host_id == 3));
    untrack_peer(&mut peers, 3);
    assert!(!peers.iter().any(|p| p.host_id == 3));
}

#[test]
fn announced_addresses_win_over_observed_ones() {
    let observed = PeerAddr::new("10.0.0.9", 51_000);
    assert_eq!(resolve_inbound_reverse_addr(&observed, 7000, None).text(), "10.0.0.9:7000");
    let announced = PeerAddr::new("nine", 7100);
    assert_eq!(
        resolve_inbound_reverse_addr(&observed, 7000, Some(&announced)).text(),
        "nine:7100"
    );
}

#[test]
fn outbound_connections_follow_the_peer() {
    let at = addr("10.0.0.9");
    assert!(should_refresh_outbound_peer_for_inbound(None, false, &at));
    assert!(should_refresh_outbound_peer_for_inbound(Some("10.0.0.9:7000"), false, &at));
    assert!(should_install_refreshed_outbound_peer(None, None));
    assert!(should_install_refreshed_outbound_peer(Some("a:1"), Some("a:1")));
    assert!(!should_install_refreshed_outbound_peer(Some("a:1"), Some("b:1")));
}

#[test]
fn quorums_are_majorities_of_the_members() {
    assert!(quorum_connected(3, 1));
    assert!(!quorum_connected(3, 0));
    assert!(!quorum_connected(4, 1));
    assert!(quorum_connected(4, 2));
    assert!(quorum_connected(5, 2));
    assert!(!quorum_connected(5, 1));
}

fn actions(mode: DeploymentMode, connected: usize, raft: bool) -> Vec<PeerEventAction> {
    let p = Peer::new(9, addr("10.0.0.9"));
    plan_peer_connected(mode, &p, false, connected, 3, raft)
}

#[test]
fn connected_peers_are_acted_on_by_mode() {
    for mode in [DeploymentMode::Standalone, DeploymentMode::DegradedPair] {
        let a = actions(mode, 1, false);
        assert_eq!(a.len(), 1);
        assert!(matches!(&a[0], PeerEventAction::TransitionToPair { inbound: false, .. }));
    }
    assert!(actions(DeploymentMode::Pair, 1, false).is_empty());
    assert!(matches!(
        actions(DeploymentMode::Pair, 2, false)[0],
        PeerEventAction::TransitionToForming
    ));
    assert!(actions(DeploymentMode::Forming, 2, false).is_empty());
    let in_cluster = actions(DeploymentMode::Cluster, 2, true);
    assert!(matches!(in_cluster[0], PeerEventAction::TriggerClusterJoin { .. }));
    assert!(matches!(in_cluster[1], PeerEventAction::SendClusterInvite { host_id: 9 }));
    assert!(actions(DeploymentMode::DegradedCluster, 0, true).is_empty());
    assert!(matches!(
        actions(DeploymentMode::DegradedCluster, 1, true)[0],
        PeerEventAction::RestoreClusterMode
    ));
    assert!(matches!(
        actions(DeploymentMode::DegradedCluster, 1, false)[0],
        PeerEventAction::RejoinClusterWithRaftInit
    ));
}

#[test]
fn recovered_peers_are_invited_and_served() {
    let a = plan_peer_recovered(DeploymentMode::Cluster, 9, 2, true);
    assert!(matches!(a[0], PeerEventAction::SendClusterInvite { host_id: 9 }));
    assert!(matches!(a[1], PeerEventAction::DeliverHints { host_id: 9 }));
    assert!(plan_peer_recovered(DeploymentMode::Pair, 9, 0, true).is_empty());
    assert!(plan_peer_recovered(DeploymentMode::Pair, 9, 2, false).is_empty());
}
