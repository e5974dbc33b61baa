//! Exact reports of the phases, and the order in which they run.

use std::collections::{BTreeMap, BTreeSet};

use ferrosa_cluster::controller::bootstrap::bootstrap_stream;
use ferrosa_cluster::controller::bootstrap::create_raft::{self, CreateRaftSinks};
use ferrosa_cluster::controller::bootstrap::deliver_invites::{self, DeliverInvitesState};
use ferrosa_cluster::controller::bootstrap::drain_queue::{self, DrainQueueState};
use ferrosa_cluster::controller::bootstrap::establish_pools::{
    self, EstablishPoolsState, PeerLaneStatus,
};
use ferrosa_cluster::controller::bootstrap::phase::{BootstrapError, BootstrapPhase};
use ferrosa_cluster::controller::bootstrap::promote::{self, PromoteState};
use ferrosa_cluster::controller::bootstrap::replay_schema::{self, ReplaySchemaState};
use ferrosa_cluster::controller::bootstrap::retirement_gate::{
    parse_manifest, prerequisite_satisfied, JepsenWindowSummary,
};
use ferrosa_cluster::controller::bootstrap::runner::BootstrapPhaseRunner;
use ferrosa_cluster::controller::bootstrap::util;
use ferrosa_cluster::controller::bootstrap::wait_leader::{self, LeaderObservation};
use ferrosa_cluster::mode::DeploymentMode;
use ferrosa_cluster::raft::NodeState;

fn report(r: Result<(), BootstrapError>) -> String {
    r.expect_err("a failure").message()
}

#[test]
fn phases_run_in_their_fixed_order() {
    let labels: Vec<&str> = BootstrapPhaseRunner::canonical()
        .phase_order()
        .iter()
        .map(|p| p.as_str())
        .collect();
    assert_eq!(
        labels,
        vec![
            "deliver_invites",
            "establish_pools",
            "create_raft",
            "wait_leader",
            "replay_schema",
            "bootstrap_stream",
            "promote",
            "drain_queue",
        ]
    );
    let distinct: BTreeSet<&str> = labels.iter().copied().collect();
    assert_eq!(distinct.len(), labels.len());
    assert_eq!(BootstrapPhaseRunner::default().phase_order(), BootstrapPhase::all());
}

#[test]
fn source_error_is_reported_with_its_phase() {
    let e = BootstrapError::from_source(BootstrapPhase::CreateRaft, "disk full".to_string());
    assert_eq!(e.name(), BootstrapPhase::CreateRaft);
    assert_eq!(e.message(), "bootstrap phase 'create_raft' failed: disk full");
}

#[test]
fn missing_acks_are_listed_in_order() {
    let state = DeliverInvitesState {
        mode: DeploymentMode::Forming,
        expected_peers: [3, 1, 2].into_iter().collect(),
        acked_peers: [2].into_iter().collect(),
    };
    assert_eq!(
        report(deliver_invites::postcondition(&state)),
        "bootstrap phase 'deliver_invites' failed: 2 peer(s) did not ack ClusterInvite: \
         [00000000-0000-0000-0000-000000000001, 00000000-0000-0000-0000-000000000003]"
    );
}

#[test]
fn invites_need_the_forming_mode() {
    let state = DeliverInvitesState {
        mode: DeploymentMode::Pair,
        expected_peers: BTreeSet::new(),
        acked_peers: BTreeSet::new(),
    };
    assert_eq!(
        report(deliver_invites::precondition(&state)),
        "bootstrap phase 'deliver_invites' failed: expected mode=Forming, got Pair"
    );
}

#[test]
fn missing_lanes_are_listed() {
    let mut lane_status = BTreeMap::new();
    lane_status.insert(1, PeerLaneStatus { raft: true, data: false });
    lane_status.insert(2, PeerLaneStatus { raft: true, data: true });
    let state = EstablishPoolsState {
        expected_peers: [1, 2, 3].into_iter().collect(),
        lane_status,
    };
    assert_eq!(
        report(establish_pools::postcondition(&state)),
        "bootstrap phase 'establish_pools' failed: 2 peer(s) missing lane(s): \
         [(00000000-0000-0000-0000-000000000001, PeerLaneStatus { raft: true, data: false }), \
         (00000000-0000-0000-0000-000000000003, PeerLaneStatus { raft: false, data: false })]"
    );
    let nobody = EstablishPoolsState {
        expected_peers: BTreeSet::new(),
        lane_status: BTreeMap::new(),
    };
    assert_eq!(
        report(establish_pools::precondition(&nobody)),
        "bootstrap phase 'establish_pools' failed: no peers to establish pools for"
    );
}

#[test]
fn unpublished_sinks_are_listed() {
    let sinks = CreateRaftSinks {
        raft_tx_published: true,
        raft_instance_swap_published: false,
        ddl_path_published: true,
    };
    assert_eq!(
        report(create_raft::postcondition(sinks)),
        "bootstrap phase 'create_raft' failed: not all Raft sinks published: CreateRaftSinks { \
         raft_tx_published: true, raft_instance_swap_published: false, ddl_path_published: true }"
    );
    assert_eq!(
        report(create_raft::postcondition(CreateRaftSinks::default())),
        "bootstrap phase 'create_raft' failed: not all Raft sinks published: CreateRaftSinks { \
         raft_tx_published: false, raft_instance_swap_published: false, ddl_path_published: false }"
    );
}

#[test]
fn election_timeout_is_reported_in_milliseconds() {
    let obs = LeaderObservation::Timeout { waited_ms: 30_000 };
    assert_eq!(
        report(wait_leader::postcondition(obs)),
        "bootstrap phase 'wait_leader' failed: no leader after 30000 ms"
    );
    assert_eq!(
        report(wait_leader::precondition(false)),
        "bootstrap phase 'wait_leader' failed: Raft instance not created"
    );
}

#[test]
fn divergent_nodes_are_listed() {
    let mut node_schema_versions = BTreeMap::new();
    node_schema_versions.insert(1, 7);
    node_schema_versions.insert(2, 8);
    node_schema_versions.insert(3, 7);
    let state = ReplaySchemaState { leader_node_id: 1, node_schema_versions };
    assert_eq!(
        report(replay_schema::postcondition(&state)),
        "bootstrap phase 'replay_schema' failed: 1 node(s) diverged from leader: \
         [(2, 00000000-0000-0000-0000-000000000008)]"
    );
    let gone = ReplaySchemaState { leader_node_id: 9, node_schema_versions: BTreeMap::new() };
    assert_eq!(
        report(replay_schema::precondition(&gone)),
        "bootstrap phase 'replay_schema' failed: leader node_id 9 missing from schema-version map"
    );
    assert_eq!(
        report(replay_schema::postcondition(&gone)),
        "bootstrap phase 'replay_schema' failed: leader version vanished between pre and post"
    );
}

#[test]
fn unpromoted_members_are_listed() {
    let mut member_states = BTreeMap::new();
    member_states.insert(1, NodeState::Normal);
    member_states.insert(2, NodeState::Joining);
    assert_eq!(
        report(promote::postcondition(&PromoteState { member_states })),
        "bootstrap phase 'promote' failed: 1 member(s) not Normal: [(2, Joining)]"
    );
    assert_eq!(
        report(promote::postcondition(&PromoteState::default())),
        "bootstrap phase 'promote' failed: member map is empty"
    );
}

#[test]
fn queue_is_empty_before_it_is_counted() {
    let full = DrainQueueState { channel_empty: false, enqueued: 3, applied: 2 };
    assert_eq!(
        report(drain_queue::postcondition(full)),
        "bootstrap phase 'drain_queue' failed: DDL queue receiver is not yet empty"
    );
    let short = DrainQueueState { channel_empty: true, enqueued: 3, applied: 2 };
    assert_eq!(
        report(drain_queue::postcondition(short)),
        "bootstrap phase 'drain_queue' failed: applied 2 of 3 queued DDL ops"
    );
}

#[test]
fn phases_wait_for_the_one_before() {
    assert_eq!(
        report(create_raft::precondition(false)),
        "bootstrap phase 'create_raft' failed: EstablishPools post-condition not satisfied"
    );
    assert_eq!(
        report(bootstrap_stream::precondition(false)),
        "bootstrap phase 'bootstrap_stream' failed: ReplaySchema post-condition not satisfied"
    );
    assert_eq!(
        report(promote::precondition(false)),
        "bootstrap phase 'promote' failed: BootstrapStream post-condition not satisfied"
    );
    assert_eq!(
        report(drain_queue::precondition(false)),
        "bootstrap phase 'drain_queue' failed: Promote post-condition not satisfied"
    );
}

#[test]
fn missing_ids_are_counted() {
    let e = util::missing_error(BootstrapPhase::EstablishPools, "peer", vec![5, 6]);
    assert_eq!(e.message(), "bootstrap phase 'establish_pools' failed: 2 peer(s) missing: [5, 6]");
}

#[test]
fn gate_stays_closed_without_a_window() {
    assert!(prerequisite_satisfied(&JepsenWindowSummary::default()).is_err());
    assert!(!JepsenWindowSummary::default().is_clean());
}

#[test]
fn gate_reports_its_first_objection() {
    let window = |runs: u64, jumps: u64, advanced: bool| JepsenWindowSummary {
        runs,
        storm_term_jumps_total: jumps,
        runaway_term_repro_advanced: advanced,
    };
    assert_eq!(
        report(prerequisite_satisfied(&window(13, 1, true))),
        "bootstrap phase 'drain_queue' failed: bolt-on retirement gate: only 13 Jepsen run(s) in \
         window, need 14"
    );
    assert_eq!(
        report(prerequisite_satisfied(&window(14, 2, true))),
        "bootstrap phase 'drain_queue' failed: bolt-on retirement gate: \
         ELECTION_STORM_TERM_JUMPS_TOTAL=2 (must be 0)"
    );
    assert_eq!(
        report(prerequisite_satisfied(&window(14, 0, true))),
        "bootstrap phase 'drain_queue' failed: bolt-on retirement gate: runaway-term repro \
         advanced terms (must be 0)"
    );
    assert!(prerequisite_satisfied(&window(14, 0, false)).is_ok());
}

#[test]
fn incomplete_manifests_name_the_field() {
    let said = |text: &str| parse_manifest(text).expect_err("incomplete").message();
    assert!(said("{}").ends_with("manifest missing 'runs'"));
    assert!(said("{\"runs\": x}").ends_with("manifest missing 'runs'"));
    assert!(said("{\"runs\": 3}").ends_with("manifest missing 'storm_term_jumps_total'"));
    assert!(said("{\"runs\": 3, \"storm_term_jumps_total\": 0}")
        .ends_with("manifest missing 'runaway_term_repro_advanced'"));
    let s = parse_manifest(
        "{\"runaway_term_repro_advanced\": true,\"storm_term_jumps_total\":7 , \"runs\" : 12}",
    )
    .expect("complete");
    assert_eq!((s.runs, s.storm_term_jumps_total, s.runaway_term_repro_advanced), (12, 7, true));
}
