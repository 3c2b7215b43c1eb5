//! The configuration surface, fixed at process start and passed by
//! reference into every component that needs it: no ambient global state.

use vstd::prelude::*;

use crate::zfs_types::DatasetName;

verus! {

/// One run's configuration.
pub struct Args {
    /// Remote to send to, compatible with SSH naming (IP, hostname, ...).
    pub remote: String,
    /// Dataset to replicate snapshots from.
    pub source_dataset: DatasetName,
    /// Dataset to replicate snapshots to.
    pub remote_dataset: DatasetName,
    /// File containing SSH known hosts.
    pub known_hosts_file: Option<String>,
    /// File containing the SSH private key.
    pub identity_file: Option<String>,
    /// Print verbose tracelogs.
    pub verbose: bool,
    /// Dry-run mutating commands: report them fully rendered, spawn nothing.
    pub dry_run: bool,
}

} // verus!
