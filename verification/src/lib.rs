//! Verified core of a distributed database's cluster layer.

pub mod accord;
pub mod address;
pub mod collections;
pub mod config;
pub mod consensus_health;
pub mod consistency;
pub mod controller;
pub mod error;
pub mod mode;
pub mod ordered;
pub mod parse;
pub mod raft;
pub mod text;
