//! Snapshots of a rollback world: saving, restoring, and carrying them to
//! another peer, and syncing players into a running session.

pub mod api_laws;
pub mod capture;
pub mod capture_laws;
pub mod component_history;
pub mod component_laws;
pub mod component_snapshot;
pub mod entity;
pub mod layout_laws;
pub mod migration;
pub mod registry;
pub mod restore;
pub mod restore_laws;
pub mod restore_lemmas;
pub mod rollback_laws;
pub mod sections;
pub mod seqs;
pub mod snapshot;
pub mod snapshot_laws;
pub mod step_laws;
pub mod strategy;
pub mod sync;
pub mod sync_laws;
pub mod transfer_laws;
pub mod wire;
pub mod world;
pub mod world_laws;
