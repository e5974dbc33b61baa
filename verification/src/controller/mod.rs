//! Cluster lifecycle: how a node moves between deployment modes.

pub mod bootstrap;
pub mod cluster;
pub mod cluster_rejoin;
pub mod events;
pub mod formation;
pub mod invite;
pub mod invite_handler;
pub mod lifecycle;
pub mod membership;
pub mod metrics;
pub mod mode_controller;
pub mod pair;
pub mod peer_events;
pub mod raft_config;
pub mod raft_dir;
pub mod raft_groups;
pub mod retry;
pub mod schema_replay;
pub mod streaming;
pub mod token;
pub mod topology;
pub mod transition_laws;
