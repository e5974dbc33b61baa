//! Forming a cluster.

use std::collections::{BTreeSet, HashMap};

use ferrosa_cluster::address::{Peer, PeerAddr};
use ferrosa_cluster::config::ClusterConfig;
use ferrosa_cluster::controller::cluster::{
    keyspace_needs_cluster_replay, plan_invite_peer_connection, resolve_formation_rf,
    should_initialize_seed_membership, should_run_bootstrap_streaming, InvitePeerConnectionPlan,
    KeyspaceReplication,
};
use ferrosa_cluster::controller::formation::{
    has_recovered_membership, is_seed_node, normalize_cluster_peers, plan_cluster_transition,
    plan_local_recovery, takes_topology_from_log, Formation, FormationStep, LocalRaftState,
    LocalRecovery,
};
use ferrosa_cluster::controller::invite_handler::{ClusterInviteHandler, InvitedPeer};
use ferrosa_cluster::controller::mode_controller::ModeController;
use ferrosa_cluster::controller::schema_replay::{plan_schema_replay, SchemaReplay, TableName};
use ferrosa_cluster::mode::DeploymentMode;
use ferrosa_cluster::raft::{NodeInfo, NodeState, RaftOp};

fn peer(host_id: u128) -> Peer {
    Peer::new(host_id, PeerAddr::new(&format!("10.0.0.{host_id}"), 7000))
}

fn ids(peers: &[Peer]) -> Vec<u128> {
    peers.iter().map(|p| p.host_id).collect()
}

fn strings(names: &[&str]) -> Vec<String> {
    names.iter().map(|n| n.to_string()).collect()
}

#[test]
fn peers_are_reached_at_the_port_for_nodes() {
    let odd = Peer::new(1, PeerAddr::new("[::1]", 51_000));
    let fixed = normalize_cluster_peers(&[odd, peer(2)], 7100);
    assert_eq!(fixed[0].addr.text(), "[::1]:7100");
    assert_eq!(fixed[1].addr.text(), "10.0.0.2:7100");
}

/// Of nodes that see each other, exactly one is the seed.
#[test]
fn one_node_is_the_seed() {
    let all = [3u128, 1, 2];
    let seeds: Vec<u128> = all
        .iter()
        .copied()
        .filter(|&me| {
            let others: Vec<Peer> = all.iter().filter(|&&o| o != me).map(|&o| peer(o)).collect();
            is_seed_node(me, &others)
        })
        .collect();
    assert_eq!(seeds, vec![3]);
}

#[test]
fn only_local_peers_vote() {
    let mut dcs = HashMap::new();
    dcs.insert(3, "west".to_string());
    let live: BTreeSet<u128> = [2].into_iter().collect();
    let plan = plan_cluster_transition(1, "east", 7000, &[peer(2), peer(3), peer(4)], &dcs, &live, 5);
    assert_eq!(ids(&plan.voters), vec![2, 4]);
    assert_eq!(ids(plan.observers.get("west").expect("observers")), vec![3]);
    assert_eq!(ids(&plan.connect), vec![4]);
    assert!(!plan.was_seed);
    assert_eq!(plan.cluster_size, 3);
    assert!(plan.reduced_durability);
    let enough = plan_cluster_transition(1, "east", 7000, &[peer(2), peer(4)], &dcs, &live, 3);
    assert!(!enough.reduced_durability);
    let highest = plan_cluster_transition(9, "east", 7000, &[peer(2), peer(4)], &dcs, &live, 3);
    assert!(highest.was_seed);
}

#[test]
fn local_state_is_recovered() {
    assert_eq!(plan_local_recovery(LocalRaftState::Usable), LocalRecovery::Keep);
    assert_eq!(
        plan_local_recovery(LocalRaftState::NeedsPurgePointBaseline),
        LocalRecovery::AdoptPurgePoint
    );
    assert_eq!(
        plan_local_recovery(LocalRaftState::StrandedBehindPurge { last_applied: 3, last_purged: 9 }),
        LocalRecovery::Reset
    );
    assert!(!takes_topology_from_log(false, 0, 0));
    assert!(has_recovered_membership(Some(true), false));
    assert!(!has_recovered_membership(Some(false), false));
}

#[test]
fn seeds_write_the_first_membership_once() {
    assert!(should_initialize_seed_membership(true, false, false));
    assert!(!should_initialize_seed_membership(false, false, false));
    assert!(!should_initialize_seed_membership(true, true, false));
    assert!(!should_initialize_seed_membership(true, false, true));
    assert!(should_run_bootstrap_streaming(false));
    assert!(!should_run_bootstrap_streaming(true));
}

fn formation(recovered: bool, seed: bool) -> Formation {
    let mut node_ids = HashMap::new();
    node_ids.insert(1, 11);
    node_ids.insert(2, 22);
    node_ids.insert(3, 33);
    Formation {
        local: NodeInfo {
            host_id: 1,
            addr: "10.0.0.1:7000".to_string(),
            data_center: "dc1".to_string(),
            rack: "r1".to_string(),
            state: NodeState::Normal,
            cql_broadcast: None,
        },
        local_node_id: 11,
        peers: vec![peer(2), peer(3)],
        node_ids,
        cql_broadcasts: HashMap::new(),
        internode_broadcasts: HashMap::new(),
        num_tokens: 4,
        recovered_topology: recovered,
        initialized_seed_membership: seed,
        formation_timeout_secs: None,
    }
}

fn kinds(steps: &[FormationStep]) -> Vec<&'static str> {
    steps
        .iter()
        .map(|s| match s {
            FormationStep::WatchAddresses { .. } => "watch",
            FormationStep::Propose { .. } => "propose",
            FormationStep::RouteDdlThroughRaft => "route",
            FormationStep::DrainQueuedDdl => "drain",
            FormationStep::ReplaySchema { .. } => "replay",
            FormationStep::StreamToOwners => "stream",
            FormationStep::ReportBootstrapComplete { .. } => "report",
            FormationStep::AwaitReports { .. } => "await",
            FormationStep::CountElectionTimeout => "count",
            FormationStep::RevertToPair => "revert",
            FormationStep::RouteDdlDirect => "direct",
            FormationStep::StartRejoin => "rejoin",
            FormationStep::PublishRaft => "publish",
        })
        .collect()
}

#[test]
fn seed_leads_a_new_cluster() {
    let steps = formation(false, true).plan_after_election(Some(11));
    assert_eq!(
        kinds(&steps),
        vec!["propose", "route", "drain", "replay", "stream", "await", "propose", "publish"]
    );
    match &steps[0] {
        FormationStep::Propose { ops } => {
            let joined: Vec<u128> = ops
                .iter()
                .filter_map(|op| match op {
                    RaftOp::JoinNode(n) => Some(n.host_id),
                    _ => None,
                })
                .collect();
            assert_eq!(joined, vec![1, 2, 3]);
        }
        other => panic!("expected a proposal, got {other:?}"),
    }
    assert!(matches!(steps[5], FormationStep::AwaitReports { expected: 2, .. }));
    match &steps[6] {
        FormationStep::Propose { ops } => assert!(ops
            .iter()
            .all(|op| matches!(op, RaftOp::SetNodeState { state: NodeState::Normal, .. }))),
        other => panic!("expected a proposal, got {other:?}"),
    }
}

#[test]
fn seed_keeps_the_tokens_it_began_with() {
    let f = formation(false, true);
    let ring = f.build_initial_ring();
    let known: Vec<u128> = ring.records.iter().map(|r| r.host_id).collect();
    assert_eq!(known, vec![1, 2, 3]);
    assert_eq!(ring.owner, 11);
    assert_eq!(ring.tokens.len(), 4);
    let steps = f.plan_after_election(Some(11));
    match &steps[0] {
        FormationStep::Propose { ops } => assert!(ops.iter().any(
            |op| matches!(op, RaftOp::AssignTokens { node_id: 11, tokens } if *tokens == ring.tokens)
        )),
        other => panic!("expected a proposal, got {other:?}"),
    }
}

#[test]
fn followers_report_and_wait() {
    let steps = formation(false, false).plan_after_election(Some(22));
    assert_eq!(kinds(&steps), vec!["route", "drain", "replay", "stream", "report", "publish"]);
    assert!(matches!(steps[4], FormationStep::ReportBootstrapComplete { leader: 22 }));
}

#[test]
fn recovered_clusters_stay_in_place() {
    let leading = formation(true, false).plan_after_election(Some(11));
    assert_eq!(kinds(&leading), vec!["watch", "propose", "route", "drain", "replay", "publish"]);
    let following = formation(true, false).plan_after_election(Some(33));
    assert_eq!(kinds(&following), vec!["watch", "route", "drain", "replay", "publish"]);
}

#[test]
fn without_a_leader_the_pair_is_back() {
    let steps = formation(false, true).plan_after_election(None);
    assert_eq!(kinds(&steps), vec!["count", "revert", "direct", "rejoin", "publish"]);
}

fn keyspace(name: &str, strategy: &str, options: &[(&str, &str)]) -> KeyspaceReplication {
    KeyspaceReplication {
        name: name.to_string(),
        strategy: strategy.to_string(),
        options: options.iter().map(|(k, v)| (k.to_string(), v.to_string())).collect(),
    }
}

#[test]
fn largest_factor_decides() {
    let system = strings(&["system"]);
    let all = [
        keyspace("system", "SimpleStrategy", &[("replication_factor", "9")]),
        keyspace("a", "SimpleStrategy", &[("replication_factor", "2")]),
        keyspace("b", "NetworkTopologyStrategy", &[("east", "3"), ("west", "5")]),
        keyspace("c", "Unheard", &[("replication_factor", "8")]),
    ];
    assert_eq!(resolve_formation_rf(&all, &system, "east", 1), 3);
    assert_eq!(resolve_formation_rf(&all, &system, "west", 1), 5);
    assert_eq!(resolve_formation_rf(&all, &system, "north", 1), 8);
    assert_eq!(resolve_formation_rf(&all[..1], &system, "east", 1), 1);
    // The default counts only where there is no user keyspace.
    assert_eq!(resolve_formation_rf(&all[..1], &system, "east", 4), 4);
    assert_eq!(resolve_formation_rf(&all[..2], &system, "east", 4), 2);
    let one = [keyspace("a", "SimpleStrategy", &[("replication_factor", "1")])];
    assert_eq!(resolve_formation_rf(&one, &system, "east", 3), 1);
}

#[test]
fn built_in_keyspaces_are_not_replayed() {
    let system = strings(&["system", "system_schema"]);
    assert!(!keyspace_needs_cluster_replay("system", &system));
    assert!(keyspace_needs_cluster_replay("users", &system));
    let tables = [
        TableName { keyspace: "system".to_string(), table: "local".to_string() },
        TableName { keyspace: "users".to_string(), table: "t".to_string() },
    ];
    let names = strings(&["system", "users"]);
    match plan_schema_replay(&names, &tables, &system, true, None) {
        SchemaReplay::Propose { keyspaces, tables } => {
            assert_eq!(keyspaces, vec![1]);
            assert_eq!(tables, vec![1]);
        }
        other => panic!("expected a proposal, got {other:?}"),
    }
    assert!(matches!(
        plan_schema_replay(&names, &tables, &system, false, Some(5)),
        SchemaReplay::Forward { leader: 5, .. }
    ));
    assert!(matches!(
        plan_schema_replay(&names, &tables, &system, false, None),
        SchemaReplay::LeaderUnknown
    ));
    assert!(matches!(
        plan_schema_replay(&names[..1], &tables[..1], &system, false, None),
        SchemaReplay::Nothing
    ));
}

#[test]
fn invited_peers_are_dialed_where_they_are_not_reached() {
    let addr = PeerAddr::new("10.0.0.2", 51_000);
    let plan = |id: u128, known: Option<&str>, live: bool| {
        plan_invite_peer_connection(1, id, &addr, 7000, known, live)
    };
    assert!(matches!(plan(1, None, false), InvitePeerConnectionPlan::SkipSelf));
    assert!(matches!(
        plan(2, Some("10.0.0.2:7000"), true),
        InvitePeerConnectionPlan::AlreadyConnected
    ));
    assert!(matches!(
        plan(2, Some("two:7000"), true),
        InvitePeerConnectionPlan::KeepLiveKnownPeer { .. }
    ));
    match plan(2, Some("two:7000"), false) {
        InvitePeerConnectionPlan::Connect { reverse_addr, previous_addr } => {
            assert_eq!(reverse_addr.text(), "10.0.0.2:7000");
            assert_eq!(previous_addr.as_deref(), Some("two:7000"));
        }
        other => panic!("expected a connection, got {other:?}"),
    }
}

fn invited(host_id: u128, live: bool) -> InvitedPeer {
    InvitedPeer {
        peer: peer(host_id),
        known_addr: if live { Some(format!("10.0.0.{host_id}:7000")) } else { None },
        live,
    }
}

#[test]
fn invites_lead_to_connections_and_formation() {
    let mut c = ModeController::new(ClusterConfig::default(), 1, 7000, PeerAddr::new("10.0.0.1", 7000));
    c.set_peer_manager();
    let handler = ClusterInviteHandler::new(1, 7000);
    let peers = [invited(1, false), invited(2, true), invited(3, false)];
    let out = handler.handle(&mut c, &peer(4), &peers, 1_000);
    assert_eq!(ids(&out.connect), vec![3]);
    assert_eq!(ids(&out.rebroadcast), vec![3]);
    assert_eq!(out.form.as_ref().map(|v| ids(v)), Some(vec![2, 3, 4]));
    assert_eq!(out.ack, 1);

    // Within the cooldown the peer is not dialed again.
    let again = handler.handle(&mut c, &peer(4), &peers, 2_000);
    assert!(again.connect.is_empty());
    assert_eq!(ids(&again.rebroadcast), vec![3]);

    // One other node is no cluster, and a cluster is not formed twice.
    let small = handler.handle(&mut c, &peer(2), &[invited(1, false)], 100_000);
    assert!(small.form.is_none());
    c.mode = DeploymentMode::Cluster;
    assert!(handler.handle(&mut c, &peer(4), &peers, 200_000).form.is_none());
}
