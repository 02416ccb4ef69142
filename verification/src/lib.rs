//! Storage-side logic of a sharded blockchain node: rewriting small flat-state
//! values from references into inlined bytes, and the per-shard state machine
//! that dumps finished epochs as numbered state parts.

pub mod bytes;
pub mod column;
pub mod decimal;
pub mod dump_progress;
pub mod hash;
pub mod inlining_migration;
pub mod migration_laws;
pub mod migration_stats;
pub mod part_names;
pub mod flat_state_value;
pub mod flat_storage_manager;
pub mod shard_uid;
pub mod state_sync;
pub mod state_sync_laws;
pub mod state_value_reader;
pub mod store;
