//! Replicates storage snapshots from a local host to a remote host.
//!
//! The crate plans external-process invocations (building, tagging and
//! rendering them), decodes the storage manager's JSON listings into typed
//! entities, organises snapshot inventories per dataset, and derives the
//! synchronization action for each dataset pair.  Actually spawning the
//! planned processes is left to a thin unverified driver.

pub mod args;
pub mod commands;
pub mod decode;
pub mod errors;
pub mod organised_data;
pub mod render;
pub mod sync;
pub mod typed_command;
pub mod zfs_types;
