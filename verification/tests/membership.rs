//! Joining, leaving and what is known of members.

use std::collections::{BTreeSet, HashMap};

use ferrosa_cluster::address::{Peer, PeerAddr};
use ferrosa_cluster::config::ClusterConfig;
use ferrosa_cluster::controller::membership::{
    clear_pending_join, cluster_member_metadata_changed, decide_join, needs_reverse_refresh,
    proposal_error, JoinAction, JoinCandidate, JoinDecision, JoinEvent, JoinStage, JoinTask,
    ProposalResult,
    MAX_PENDING_JOINS,
};
use ferrosa_cluster::controller::streaming::{
    group_by_owner, is_local_keyspace, plan_decommission, plan_departures, plan_file_sessions,
    plan_row_sessions, DecommissionStep, PartitionPlacement, TablePlacement,
};
use ferrosa_cluster::controller::token::deterministic_tokens_for_node;
use ferrosa_cluster::controller::topology::{
    build_initial_raft_members, build_raft_members_from_node_info,
    build_recovered_topology_refresh_plan, build_recovered_topology_token_repair_plan,
    membership_addresses_need_repair, node_info_addr, partition_peers_by_dc, peer_node_info,
};
use ferrosa_cluster::error::ClusterError;
use ferrosa_cluster::raft::{NodeInfo, NodeState, RaftOp};

fn peer(host_id: u128) -> Peer {
    Peer::new(host_id, PeerAddr::new(&format!("10.0.0.{host_id}"), 7000))
}

fn info(host_id: u128, addr: &str) -> NodeInfo {
    NodeInfo {
        host_id,
        addr: addr.to_string(),
        data_center: "dc1".to_string(),
        rack: "r1".to_string(),
        state: NodeState::Normal,
        cql_broadcast: None,
    }
}

fn candidate(host_id: u128) -> JoinCandidate {
    JoinCandidate {
        host_id,
        addr: PeerAddr::new(&format!("10.0.0.{host_id}"), 7000),
        cql_broadcast: None,
        internode_broadcast: None,
        existing: None,
        has_outbound: true,
    }
}

#[test]
fn changed_metadata_is_noticed() {
    let n = info(1, "10.0.0.1:7000");
    assert!(!cluster_member_metadata_changed(&n, "10.0.0.1:7000", None));
    assert!(cluster_member_metadata_changed(&n, "10.0.0.2:7000", None));
    assert!(cluster_member_metadata_changed(&n, "10.0.0.1:7000", Some("c:9042")));
}

#[test]
fn candidates_are_decided_once() {
    let approved: BTreeSet<u128> = [5].into_iter().collect();
    let mut pending = Vec::new();
    assert_eq!(
        decide_join(&candidate(4), false, &approved, &mut pending),
        JoinDecision::NotApproved
    );
    assert_eq!(decide_join(&candidate(5), false, &approved, &mut pending), JoinDecision::Begin);
    assert_eq!(
        decide_join(&candidate(5), false, &approved, &mut pending),
        JoinDecision::AlreadyPending
    );
    assert_eq!(pending, vec![5]);
    clear_pending_join(&mut pending, 5);
    assert!(pending.is_empty());
    let member = JoinCandidate { existing: Some(info(5, "10.0.0.5:7000")), ..candidate(5) };
    assert_eq!(
        decide_join(&member, false, &approved, &mut pending),
        JoinDecision::AlreadyCurrent
    );
}

/// The oldest pending joins make room.
#[test]
fn pending_joins_are_bounded() {
    let approved = BTreeSet::new();
    let mut pending = Vec::new();
    for id in 0..150 {
        decide_join(&candidate(id), true, &approved, &mut pending);
        assert!(pending.len() <= MAX_PENDING_JOINS);
    }
    assert_eq!(pending.last(), Some(&149));
    assert_eq!(pending.len(), MAX_PENDING_JOINS);
}

#[test]
fn join_changes_are_built() {
    let config = ClusterConfig { num_tokens: 2, ..ClusterConfig::default() };
    let c = JoinCandidate { cql_broadcast: Some("c:9042".to_string()), ..candidate(6) };
    match c.build_join_op(&config) {
        RaftOp::JoinNode(n) => {
            assert_eq!(n.addr, "10.0.0.6:7000");
            assert_eq!(n.cql_broadcast.as_deref(), Some("c:9042"));
            assert_eq!(n.state, NodeState::Normal);
        }
        other => panic!("expected JoinNode, got {other:?}"),
    }
    match c.build_assign_op(&config, 66) {
        RaftOp::AssignTokens { node_id, tokens } => {
            assert_eq!(node_id, 66);
            assert_eq!(tokens, deterministic_tokens_for_node(66, 2));
        }
        other => panic!("expected AssignTokens, got {other:?}"),
    }
    assert!(c.build_refresh_op().is_none());
    let moved = JoinCandidate {
        existing: Some(info(6, "10.0.9.9:7000")),
        internode_broadcast: Some("six:7000".to_string()),
        ..candidate(6)
    };
    match moved.build_refresh_op() {
        Some(RaftOp::UpdateNodeInfo(n)) => {
            assert_eq!(n.addr, "six:7000");
            assert_eq!(n.data_center, "dc1");
        }
        other => panic!("expected UpdateNodeInfo, got {other:?}"),
    }
}

#[test]
fn new_nodes_are_added_and_get_tokens() {
    let (mut task, first) = JoinTask::start(false, true);
    assert_eq!(first, JoinAction::Connect);
    assert_eq!(
        task.record(JoinEvent::Connection { ok: true }),
        JoinAction::LookForRaft { after_ms: 0 }
    );
    assert_eq!(
        task.record(JoinEvent::Look { found: false }),
        JoinAction::LookForRaft { after_ms: 100 }
    );
    assert_eq!(
        task.record(JoinEvent::Look { found: true }),
        JoinAction::LookForLeader { after_ms: 0 }
    );
    assert_eq!(task.record(JoinEvent::Look { found: true }), JoinAction::ProposeJoin);
    let done = JoinEvent::Proposal { result: ProposalResult::Done };
    assert_eq!(task.record(done), JoinAction::ProposeTokens);
    assert_eq!(task.record(done), JoinAction::Stop);
    assert_eq!(task.stage, JoinStage::Ended { admitted: true });
}

#[test]
fn members_are_refreshed_by_the_leader() {
    let (mut task, first) = JoinTask::start(true, false);
    assert_eq!(first, JoinAction::LookForRaft { after_ms: 0 });
    task.record(JoinEvent::Look { found: true });
    assert_eq!(task.record(JoinEvent::Look { found: true }), JoinAction::ProposeRefresh);
    assert!(task.is_tracked());
    let elsewhere = JoinEvent::Proposal { result: ProposalResult::AskLeader { leader: 4 } };
    assert_eq!(task.record(elsewhere), JoinAction::ForwardRefresh { leader: 4 });
    assert!(!task.is_tracked(), "a new join may begin while the refresh is handed on");
    let failed = JoinEvent::Proposal { result: ProposalResult::Failed };
    assert_eq!(task.record(failed), JoinAction::Stop);
    assert_eq!(task.stage, JoinStage::Ended { admitted: false });
}

/// A refresh that fails for another reason than leadership is not handed on.
#[test]
fn failed_refreshes_are_not_handed_on() {
    let (mut task, _) = JoinTask::start(true, false);
    task.record(JoinEvent::Look { found: true });
    task.record(JoinEvent::Look { found: true });
    let failed = JoinEvent::Proposal { result: ProposalResult::Failed };
    assert_eq!(task.record(failed), JoinAction::Stop);
    assert_eq!(task.stage, JoinStage::Ended { admitted: false });
}

#[test]
fn joins_do_not_wait_for_ever() {
    let (mut task, _) = JoinTask::start(false, false);
    let mut looks = 1;
    while task.record(JoinEvent::Look { found: false }) != JoinAction::Stop {
        looks += 1;
    }
    assert_eq!(looks, 60);
    assert_eq!(task.stage, JoinStage::Ended { admitted: false });
    let (mut cut_off, _) = JoinTask::start(false, true);
    assert_eq!(cut_off.record(JoinEvent::Connection { ok: false }), JoinAction::Stop);
}

#[test]
fn stale_connections_are_refreshed() {
    assert!(!needs_reverse_refresh(false, false, None, "a:1"));
    assert!(needs_reverse_refresh(true, false, Some("a:1"), "a:1"));
    assert!(needs_reverse_refresh(true, true, Some("b:1"), "a:1"));
    assert!(!needs_reverse_refresh(true, true, Some("a:1"), "a:1"));
}

#[test]
fn refused_changes_are_named() {
    let e = proposal_error(&RaftOp::LeaveNode { node_id: 3 }, "no quorum");
    match e {
        ClusterError::RaftError(m) => {
            assert!(m.contains("LeaveNode"), "{m}");
            assert!(m.ends_with("no quorum"), "{m}");
        }
        other => panic!("expected RaftError, got {other:?}"),
    }
}

#[test]
fn unannounced_peers_count_as_local() {
    let mut dcs = HashMap::new();
    dcs.insert(2, "west".to_string());
    dcs.insert(3, "east".to_string());
    let (local, remote) = partition_peers_by_dc(&[peer(1), peer(2), peer(3)], &dcs, "east");
    let ids: Vec<u128> = local.iter().map(|p| p.host_id).collect();
    assert_eq!(ids, vec![1, 3]);
    let west = remote.get("west").expect("a data center");
    assert_eq!(west.len(), 1);
    assert_eq!(west[0].host_id, 2);
}

#[test]
fn announced_addresses_are_recorded() {
    let a = PeerAddr::new("10.0.0.1", 7000);
    assert_eq!(node_info_addr(&a, None), "10.0.0.1:7000");
    assert_eq!(node_info_addr(&a, Some("one:7000")), "one:7000");
    let mut names = HashMap::new();
    names.insert(1, "one:7000".to_string());
    let n = peer_node_info(&peer(1), "dc1", "r1", &HashMap::new(), &names);
    assert_eq!(n.addr, "one:7000");
    assert_eq!(n.cql_broadcast, None);
}

#[test]
fn repaired_memberships_need_no_repair() {
    let mut ids = HashMap::new();
    ids.insert(1, 11);
    ids.insert(2, 22);
    let members = build_initial_raft_members(&peer(1), &[peer(2)], &ids);
    assert_eq!(members.get(&11).map(|s| s.as_str()), Some("10.0.0.1:7000"));
    assert_eq!(members.get(&22).map(|s| s.as_str()), Some("10.0.0.2:7000"));
    let moved = build_raft_members_from_node_info(
        &[info(1, "10.0.0.1:7000"), info(2, "10.9.9.9:7000")],
        &ids,
    );
    assert!(membership_addresses_need_repair(&members, &moved));
    assert!(!membership_addresses_need_repair(&moved, &moved));
}

#[test]
fn recovered_topology_is_refreshed_with_tokens() {
    let mut ids = HashMap::new();
    ids.insert(1, 11);
    ids.insert(2, 22);
    let plan = build_recovered_topology_refresh_plan(
        1,
        "10.0.0.1:7000",
        Some("10.0.0.1:9042"),
        "dc1",
        "r1",
        &[peer(2)],
        &HashMap::new(),
        &HashMap::new(),
    );
    assert_eq!(plan.len(), 2);
    assert_eq!(plan[0].host_id, 1);
    assert_eq!(plan[0].cql_broadcast.as_deref(), Some("10.0.0.1:9042"));
    assert_eq!(plan[1].addr, "10.0.0.2:7000");
    let tokens = build_recovered_topology_token_repair_plan(&plan, &ids, 3);
    assert_eq!(tokens.len(), 2);
    assert!(tokens.contains(&(11, deterministic_tokens_for_node(11, 3))));
    assert!(tokens.contains(&(22, deterministic_tokens_for_node(22, 3))));
}

#[test]
fn partitions_are_grouped_by_owner() {
    let groups = group_by_owner(&[Some(1), Some(2), None, Some(9), Some(2)], 9);
    assert_eq!(groups.get(&1), Some(&vec![0]));
    assert_eq!(groups.get(&2), Some(&vec![1, 4]));
    assert_eq!(groups.get(&9), None);
    assert_eq!(groups.len(), 2);
}

#[test]
fn files_go_to_every_other_node() {
    let sessions = plan_file_sessions(2, &[1, 9, 2], 9, 10);
    let told: Vec<(u64, usize, u64)> =
        sessions.iter().map(|s| (s.session_id, s.dir, s.target)).collect();
    assert_eq!(told, vec![(11, 0, 1), (12, 0, 2), (13, 1, 1), (14, 1, 2)]);
}

#[test]
fn rows_go_to_the_nodes_that_own_them() {
    let owners = [Some(1), Some(2), None, Some(9), Some(2), Some(3)];
    let sessions = plan_row_sessions(&owners, &[1, 2, 4, 9], 9, 20);
    let told: Vec<(u64, u64, Vec<usize>)> = sessions
        .into_iter()
        .map(|s| (s.session_id, s.target, s.partitions))
        .collect();
    assert_eq!(told, vec![(21, 1, vec![0]), (22, 2, vec![1, 4])]);
}

fn placement(owner: Option<u64>, replicas: &[u64]) -> PartitionPlacement {
    PartitionPlacement { primary_owner: owner, replicas: replicas.to_vec() }
}

#[test]
fn leaving_node_hands_its_partitions_on() {
    let tables = [
        TablePlacement {
            keyspace: "ks".to_string(),
            partitions: vec![
                placement(Some(9), &[9, 1]),
                placement(Some(1), &[1, 9]),
                placement(Some(9), &[9]),
                placement(Some(9), &[2, 9]),
            ],
        },
        TablePlacement {
            keyspace: "system_schema".to_string(),
            partitions: vec![placement(Some(9), &[9, 1])],
        },
    ];
    let sessions = plan_departures(&tables, 9);
    let told: Vec<(u64, usize, usize, u64)> = sessions
        .iter()
        .map(|s| (s.session_id, s.table, s.partition, s.target))
        .collect();
    assert_eq!(told, vec![(1, 0, 0, 1), (2, 0, 3, 2)]);

    let steps = plan_decommission(true, 9, Some(&tables), true).expect("steps");
    assert_eq!(steps.len(), 3);
    assert!(matches!(
        &steps[0],
        DecommissionStep::Propose { op: RaftOp::SetNodeState { node_id: 9, state: NodeState::Joining } }
    ));
    assert!(matches!(&steps[1], DecommissionStep::Stream { sessions } if sessions.len() == 2));
    assert!(matches!(
        &steps[2],
        DecommissionStep::Propose { op: RaftOp::LeaveNode { node_id: 9 } }
    ));
    let cut_off = plan_decommission(true, 9, Some(&tables), false).expect("steps");
    assert!(matches!(
        &cut_off[1],
        DecommissionStep::Fail { error: ClusterError::Internal(m) } if m == "peer_manager not set"
    ));
}

#[test]
fn built_in_keyspaces_stay() {
    assert!(is_local_keyspace("system"));
    assert!(is_local_keyspace("system_auth"));
    assert!(!is_local_keyspace("syste"));
    assert!(!is_local_keyspace("users"));
}
