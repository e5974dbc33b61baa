//! The phases of bringing up a cluster.
//!
//! | # | Phase             | Purpose                                          |
//! |--:|-------------------|--------------------------------------------------|
//! | 1 | `DeliverInvites`  | Invite every peer                                |
//! | 2 | `EstablishPools`  | Connect to every peer on both lanes              |
//! | 3 | `CreateRaft`      | Create the consensus instance and publish it     |
//! | 4 | `WaitLeader`      | Wait until a leader is known                     |
//! | 5 | `ReplaySchema`    | Bring every node to the leader's schema version  |
//! | 6 | `BootstrapStream` | Send data to the new owners                      |
//! | 7 | `Promote`         | Mark every node as serving                       |
//! | 8 | `DrainQueue`      | Replay queued schema changes                     |
//!
//! Each phase has a condition before it and one after it; a condition that
//! fails names its phase.

pub mod bootstrap_stream;
pub mod create_raft;
pub mod deliver_invites;
pub mod drain_queue;
pub mod establish_pools;
pub mod phase;
pub mod promote;
pub mod replay_schema;
pub mod retirement_gate;
pub mod runner;
pub mod util;
pub mod wait_leader;

pub use phase::{BootstrapError, BootstrapPhase};
