//! Replica-side and coordinator-side logic of the Accord transaction protocol.

pub mod apply;
pub mod conflict_index;
pub mod delete_target;
pub mod message_laws;
pub mod protocol;
pub mod shard_quorum;
pub mod state_machine;
pub mod sync_writer;
pub mod test_cluster;
pub mod transaction_commit;
pub mod two_phase_ddl;
pub mod txn_state;
pub mod types;
pub mod wire;
