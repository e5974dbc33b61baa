//! Configuration.

use ferrosa_cluster::config::{parse_role, ClusterConfig, ClusterSettings, NodeRole};
use ferrosa_cluster::consistency::ConsistencyLevel;
use ferrosa_cluster::controller::raft_config::{
    build_raft_settings, resolve_max_payload_entries, RaftConfigError, SNAPSHOT_AFTER_ENTRIES,
};
use ferrosa_cluster::controller::raft_dir::{
    accept_marker, check_marker_length, check_staged_marker, configured_raft_dir, join_path,
    raft_log_dir_for_dc, resolve_raft_dir, MarkerError, MAX_CLUSTER_MEMBER_MARKER_BYTES,
};

#[test]
fn default_config_values() {
    let config = ClusterConfig::default();
    assert_eq!(config.cluster_name, "ferrosa");
    assert_eq!(config.data_center, "datacenter1");
    assert_eq!(config.rack, "rack1");
    assert_eq!(config.num_tokens, 256);
    assert_eq!(config.default_cl, ConsistencyLevel::Quorum);
    assert_eq!(config.hinted_handoff_max_mb, 1024);
    assert!(config.auto_join);
    assert!(config.raft_enable_pre_vote);
    assert_eq!(config.raft_heartbeat_ms, 300);
    assert_eq!(config.raft_election_timeout_min_ms, 1000);
    assert_eq!(config.raft_election_timeout_max_ms, 2000);
}

/// The share of members that a leader must hear from is floating point and has no
/// place in the library; the other of the two is on.
#[test]
fn default_raft_correctness_knobs_match_adr_012() {
    let config = ClusterConfig::default();
    assert!(
        config.raft_enable_pre_vote,
        "PreVote must be on by default in ferrosa builds"
    );
}

#[test]
fn node_role_default_is_both() {
    let config = ClusterConfig::default();
    assert_eq!(config.node_role, NodeRole::Both);
}

#[test]
fn roles_are_named_case_aside() {
    assert_eq!(parse_role("DATA"), NodeRole::Data);
    assert_eq!(parse_role("indexer"), NodeRole::Indexer);
    assert_eq!(parse_role("both"), NodeRole::Both);
    assert_eq!(parse_role("anything"), NodeRole::Both);
}

#[test]
fn no_settings_give_the_defaults() {
    assert_eq!(ClusterConfig::from_settings(ClusterSettings::none()), ClusterConfig::default());
}

#[test]
fn settings_override_the_defaults() {
    let set = |s: &str| Some(s.to_string());
    let config = ClusterConfig::from_settings(ClusterSettings {
        cluster_name: set("prod"),
        data_center: set("east"),
        num_tokens: set("16"),
        auto_join: set("1"),
        formation_timeout_secs: set("45"),
        node_role: set("Indexer"),
        raft_heartbeat_ms: set("50"),
        raft_enable_pre_vote: set("false"),
        hinted_handoff_max_mb: set("x"),
        ..ClusterSettings::none()
    });
    assert_eq!(config.cluster_name, "prod");
    assert_eq!(config.data_center, "east");
    assert_eq!(config.num_tokens, 16);
    assert!(config.auto_join);
    assert_eq!(config.formation_timeout_secs, Some(45));
    assert_eq!(config.node_role, NodeRole::Indexer);
    assert_eq!(config.raft_heartbeat_ms, 50);
    assert!(!config.raft_enable_pre_vote);
    assert_eq!(config.hinted_handoff_max_mb, 1024, "an unreadable number is ignored");

    let closed = ClusterConfig::from_settings(ClusterSettings {
        auto_join: set("yes"),
        num_tokens: set("4294967296"),
        ..ClusterSettings::none()
    });
    assert!(!closed.auto_join, "only `true` and `1` open the cluster");
    assert_eq!(closed.num_tokens, 256, "a number that does not fit is ignored");
}

fn timed(heartbeat: u64, min: u64, max: u64) -> ClusterConfig {
    ClusterConfig {
        raft_heartbeat_ms: heartbeat,
        raft_election_timeout_min_ms: min,
        raft_election_timeout_max_ms: max,
        ..ClusterConfig::default()
    }
}

/// The defaults are accepted, with the engine's own payload limit.
#[test]
fn default_engine_settings_are_accepted() {
    let s = build_raft_settings(&ClusterConfig::default(), None).expect("valid");
    assert_eq!(s.heartbeat_interval, 300);
    assert_eq!(s.max_payload_entries, 300);
    assert_eq!(s.max_payload_entries, openraft::Config::default().max_payload_entries);
    assert_eq!(SNAPSHOT_AFTER_ENTRIES, 1000);
}

/// The engine refuses timings that cannot work.
#[test]
fn impossible_timings_are_refused() {
    assert!(matches!(
        build_raft_settings(&timed(50, 300, 300), None),
        Err(RaftConfigError::ElectionTimeout { min: 300, max: 300 })
    ));
    assert!(matches!(
        build_raft_settings(&timed(300, 300, 600), None),
        Err(RaftConfigError::ElectionTimeoutBelowHeartbeat {
            election_timeout_min: 300,
            heartbeat_interval: 300,
        })
    ));
    assert!(build_raft_settings(&timed(100, 301, 302), None).is_ok());
}

/// A payload limit of zero, or one that is no number, is ignored.
#[test]
fn payload_limits_are_positive() {
    assert_eq!(resolve_max_payload_entries(Some("64")), 64);
    assert_eq!(resolve_max_payload_entries(Some("0")), 300);
    assert_eq!(resolve_max_payload_entries(Some("many")), 300);
    assert_eq!(resolve_max_payload_entries(None), 300);
    let s = build_raft_settings(&ClusterConfig::default(), Some("64")).expect("valid");
    assert_eq!(s.max_payload_entries, 64);
}

#[test]
fn raft_directories() {
    assert_eq!(join_path("/a", "b"), "/a/b");
    assert_eq!(join_path("/a/", "b"), "/a/b");
    assert_eq!(join_path("", "b"), "b");
    assert_eq!(raft_log_dir_for_dc("/data/raft", "east"), "/data/raft/east");
    assert_ne!(raft_log_dir_for_dc("/data/raft", "west"), "/data/raft/east");
    assert_eq!(configured_raft_dir(None, None, "east"), None);
    assert_eq!(configured_raft_dir(Some("/r"), Some("/d"), "east"), Some("/r/east".to_string()));
    assert_eq!(configured_raft_dir(None, Some("/d"), "east"), Some("/d/raft/east".to_string()));
    assert_eq!(resolve_raft_dir(None, None, "east"), "/var/lib/ferrosa/raft/east");
    assert_eq!(resolve_raft_dir(Some("/r"), None, "east"), "/r/east");
}

#[test]
fn member_markers_are_bounded_and_whole() {
    assert_eq!(check_marker_length(MAX_CLUSTER_MEMBER_MARKER_BYTES), Ok(()));
    let long = check_marker_length(4097).expect_err("too long");
    assert_eq!(long, MarkerError::TooLong { declared_len: 4097 });
    assert_eq!(long.message(), "cluster membership marker is 4097 bytes; maximum is 4096");
    assert_eq!(accept_marker(3, b"abc"), Ok(b"abc".to_vec()));
    assert_eq!(accept_marker(3, b"ab"), Err(MarkerError::Short));
    assert_eq!(accept_marker(3, b"abcd"), Err(MarkerError::Grew));
    assert_eq!(check_staged_marker(b"abc", 3), Ok(()));
    assert_eq!(check_staged_marker(b"abc", 2), Err(MarkerError::LengthMismatch));
}
