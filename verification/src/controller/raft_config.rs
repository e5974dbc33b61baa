//! Settings of the consensus engine.

use vstd::prelude::*;

use crate::config::ClusterConfig;
use crate::parse::parse_numeral;

verus! {

/// Log entries after which the engine takes a snapshot.
pub const SNAPSHOT_AFTER_ENTRIES: u64 = 1000;

/// Settings of the consensus engine. Times are in milliseconds.
#[derive(Debug, PartialEq, Eq)]
pub struct RaftSettings {
    pub cluster_name: String,
    pub heartbeat_interval: u64,
    /// Time for replicating data: ten heartbeats, so that disk writes of a
    /// follower do not hold up its heartbeats.
    pub replication_lag_timeout: u64,
    pub election_timeout_min: u64,
    pub election_timeout_max: u64,
    pub max_payload_entries: u64,
    pub snapshot_after_entries: u64,
    pub enable_pre_vote: bool,
}

/// Why the engine refuses settings.
#[derive(Debug, PartialEq, Eq)]
pub enum RaftConfigError {
    /// The shortest election timeout is not below the longest.
    ElectionTimeout { min: u64, max: u64 },
    /// The shortest election timeout is not above the heartbeat interval.
    ElectionTimeoutBelowHeartbeat { election_timeout_min: u64, heartbeat_interval: u64 },
    /// No entry could ever be sent.
    MaxPayloadIsZero,
    /// Another reason, in the engine's words.
    Refused { reason: String },
}

/// Are these the engine's words on the timings, or none where it has none?
pub open spec fn timing_verdict(
    heartbeat_interval: u64,
    election_timeout_min: u64,
    election_timeout_max: u64,
    max_payload_entries: u64,
) -> Option<RaftConfigError> {
    if election_timeout_min >= election_timeout_max {
        Some(
            RaftConfigError::ElectionTimeout {
                min: election_timeout_min,
                max: election_timeout_max,
            },
        )
    } else if election_timeout_min <= heartbeat_interval {
        Some(
            RaftConfigError::ElectionTimeoutBelowHeartbeat {
                election_timeout_min,
                heartbeat_interval,
            },
        )
    } else if max_payload_entries == 0 {
        Some(RaftConfigError::MaxPayloadIsZero)
    } else {
        None
    }
}

/// Calls `openraft::Config::validate` on a default configuration with these
/// values. It is refused, for the first reason of these that applies, where the
/// shortest election timeout is not below the longest, where it is not above
/// the heartbeat interval, or where a payload may hold no entry; it is accepted
/// everywhere else.
#[verifier::external_body]
fn validate_engine_config(
    heartbeat_interval: u64,
    election_timeout_min: u64,
    election_timeout_max: u64,
    max_payload_entries: u64,
) -> (r: Result<(), RaftConfigError>)
    ensures
        r == match timing_verdict(
            heartbeat_interval,
            election_timeout_min,
            election_timeout_max,
            max_payload_entries,
        ) {
            None => Ok(()),
            Some(e) => Err(e),
        },
{
    let config = openraft::Config {
        heartbeat_interval,
        election_timeout_min,
        election_timeout_max,
        max_payload_entries,
        ..openraft::Config::default()
    };
    match config.validate() {
        Ok(_) => Ok(()),
        Err(openraft::ConfigError::ElectionTimeout { min, max }) => Err(RaftConfigError::ElectionTimeout { min, max }),
        Err(openraft::ConfigError::ElectionTimeoutLTHeartBeat { election_timeout_min, heartbeat_interval }) => Err(RaftConfigError::ElectionTimeoutBelowHeartbeat { election_timeout_min, heartbeat_interval }),
        Err(openraft::ConfigError::MaxPayloadIs0) => Err(RaftConfigError::MaxPayloadIsZero),
        Err(e) => Err(RaftConfigError::Refused { reason: e.to_string() }),
    }
}

/// Reads the `max_payload_entries` of `openraft::Config::default`, which is
/// 300.
#[verifier::external_body]
fn default_max_payload_entries() -> (n: u64)
    ensures
        n == 300,
{
    openraft::Config::default().max_payload_entries
}

/// How many entries a payload may hold: the setting where it is a positive
/// number, else the engine's default.
pub open spec fn payload_limit(setting: Option<Seq<char>>) -> nat {
    match setting {
        Some(s) => match crate::parse::numeral_value(vstd::utf8::encode_utf8(s), u64::MAX as nat) {
            Some(n) => if n > 0 {
                n
            } else {
                300
            },
            None => 300,
        },
        None => 300,
    }
}

/// How many entries a payload may hold.
pub fn resolve_max_payload_entries(setting: Option<&str>) -> (n: u64)
    ensures
        n as nat == payload_limit(crate::raft::str_view(setting)),
{
    match setting {
        Some(s) => match parse_numeral(s, u64::MAX) {
            Some(n) => if n > 0 {
                n
            } else {
                default_max_payload_entries()
            },
            None => default_max_payload_entries(),
        },
        None => default_max_payload_entries(),
    }
}

/// The engine's settings for a node, or why they are refused.
pub fn build_raft_settings(
    config: &ClusterConfig,
    max_payload_setting: Option<&str>,
) -> (r: Result<RaftSettings, RaftConfigError>)
    requires
        config.raft_heartbeat_ms * 10 <= u64::MAX,
    ensures
        ({
            let verdict = timing_verdict(
                config.raft_heartbeat_ms,
                config.raft_election_timeout_min_ms,
                config.raft_election_timeout_max_ms,
                payload_limit(crate::raft::str_view(max_payload_setting)) as u64,
            );
            match r {
                Ok(s) => {
                    &&& verdict is None
                    &&& s.cluster_name@ == config.cluster_name@
                    &&& s.heartbeat_interval == config.raft_heartbeat_ms
                    &&& s.replication_lag_timeout == config.raft_heartbeat_ms * 10
                    &&& s.election_timeout_min == config.raft_election_timeout_min_ms
                    &&& s.election_timeout_max == config.raft_election_timeout_max_ms
                    &&& s.max_payload_entries as nat == payload_limit(
                        crate::raft::str_view(max_payload_setting),
                    )
                    &&& s.snapshot_after_entries == SNAPSHOT_AFTER_ENTRIES
                    &&& s.enable_pre_vote == config.raft_enable_pre_vote
                },
                Err(e) => verdict == Some(e),
            }
        }),
{
    let max_payload_entries: u64 = resolve_max_payload_entries(max_payload_setting);
    match validate_engine_config(
        config.raft_heartbeat_ms,
        config.raft_election_timeout_min_ms,
        config.raft_election_timeout_max_ms,
        max_payload_entries,
    ) {
        Ok(()) => Ok(
            RaftSettings {
                cluster_name: config.cluster_name.as_str().to_owned(),
                heartbeat_interval: config.raft_heartbeat_ms,
                replication_lag_timeout: config.raft_heartbeat_ms * 10,
                election_timeout_min: config.raft_election_timeout_min_ms,
                election_timeout_max: config.raft_election_timeout_max_ms,
                max_payload_entries,
                snapshot_after_entries: SNAPSHOT_AFTER_ENTRIES,
                enable_pre_vote: config.raft_enable_pre_vote,
            },
        ),
        Err(e) => Err(e),
    }
}

/// The limit on payloads never makes the engine refuse: it is always positive.
pub proof fn payload_limit_is_positive(setting: Option<Seq<char>>)
    ensures
        0 < payload_limit(setting) <= u64::MAX,
{
}

/// The settings without any override are accepted.
pub proof fn default_timings_are_accepted(config: ClusterConfig, setting: Option<Seq<char>>)
    requires
        config.is_read_from(crate::config::ClusterSettings::spec_none()),
    ensures
        timing_verdict(
            config.raft_heartbeat_ms,
            config.raft_election_timeout_min_ms,
            config.raft_election_timeout_max_ms,
            payload_limit(setting) as u64,
        ) is None,
        config.raft_heartbeat_ms * 10 <= u64::MAX,
{
}

/// Timings are refused for the first of these reasons that applies: the shortest election
/// timeout is not below the longest, it is not above the heartbeat, or no entry fits into a
/// payload. The refusal gives the values that it is about; all other timings are accepted.
pub proof fn timings_are_refused_in_order(heartbeat: u64, min: u64, max: u64, payload: u64)
    ensures
        min >= max ==> timing_verdict(heartbeat, min, max, payload) == Some(
            RaftConfigError::ElectionTimeout { min, max },
        ),
        min < max && min <= heartbeat ==> timing_verdict(heartbeat, min, max, payload) == Some(
            RaftConfigError::ElectionTimeoutBelowHeartbeat {
                election_timeout_min: min,
                heartbeat_interval: heartbeat,
            },
        ),
        heartbeat < min < max && payload == 0 ==> timing_verdict(heartbeat, min, max, payload)
            == Some(RaftConfigError::MaxPayloadIsZero),
        heartbeat < min < max && payload > 0 ==> timing_verdict(heartbeat, min, max, payload) is None,
{
}

/// A payload holds as many entries as are set, where that is a positive number, and three
/// hundred otherwise.
pub proof fn payloads_are_as_set(s: Seq<char>, n: nat)
    ensures
        payload_limit(None) == 300,
        crate::parse::numeral_value(vstd::utf8::encode_utf8(s), u64::MAX as nat) == Some(n) && n > 0
            ==> payload_limit(Some(s)) == n,
        crate::parse::numeral_value(vstd::utf8::encode_utf8(s), u64::MAX as nat) == Some(0nat)
            ==> payload_limit(Some(s)) == 300,
        crate::parse::numeral_value(vstd::utf8::encode_utf8(s), u64::MAX as nat) is None
            ==> payload_limit(Some(s)) == 300,
        SNAPSHOT_AFTER_ENTRIES == 1000,
{
}

} // verus!
