//! Error kinds of the replication core.
//!
//! Every failure is returned, never swallowed: a spawn failure (the external
//! program could not be started), a process failure (non-zero exit, carrying
//! the rendered command line, the exit code and the captured output), a
//! decode failure (stdout did not match the expected output shape), or a
//! divergence (no common snapshot ancestor between the two histories of a
//! dataset).

use vstd::prelude::*;

verus! {

/// Why decoding the bytes of a process's stdout failed.
#[derive(Debug)]
pub enum DecodeError {
    /// The bytes were not valid UTF-8 text.
    InvalidUtf8,
    /// The text was not the JSON shape the listing decoder expects.
    MalformedJson,
    /// An entry carried a type tag that is neither of the two known entity
    /// kinds.  Unknown tags fail closed rather than being skipped.
    UnknownTag,
    /// An entry of a known kind was missing one of its required fields.
    MissingField,
    /// A creation transaction id was not an exact unsigned 64-bit integer.
    InvalidInteger,
}

/// An unrecoverable failure of one reconciliation run.
#[derive(Debug)]
pub enum SyncError {
    /// The external program could not be started at all.
    SpawnFailure { rendered: String },
    /// The external program exited with a non-zero status.
    ProcessFailure {
        rendered: String,
        exit_code: Option<i32>,
        stdout: Vec<u8>,
        stderr: Vec<u8>,
    },
    /// The program succeeded but its stdout did not decode.
    DecodeFailure { rendered: String, error: DecodeError },
    /// Local and remote histories of a dataset share no snapshot name, so an
    /// incremental transfer has no anchor.  Proceeding could silently produce
    /// a replica with an unrelated lineage, so the run stops here.
    Divergence {
        local_dataset: String,
        remote_dataset: String,
    },
}

impl SyncError {
    /// A human-readable description of the failure.  A divergence names both
    /// dataset paths so that an operator can intervene by hand.
    pub fn message(&self) -> (r: String)
        ensures
            self matches SyncError::Divergence { local_dataset, remote_dataset }
                ==> r@ == "no common snapshot between `"@ + local_dataset@ + "` and `"@
                    + remote_dataset@ + "`: history has diverged, fail to be safe"@,
            self matches SyncError::SpawnFailure { rendered }
                ==> r@ == "failed to spawn command: `"@ + rendered@ + "`"@,
            self matches SyncError::ProcessFailure { rendered, .. }
                ==> r@ == "running command failed: `"@ + rendered@ + "`"@,
            self matches SyncError::DecodeFailure { rendered, .. }
                ==> r@ == "failed to decode the output of command: `"@ + rendered@ + "`"@,
    {
        match self {
            SyncError::SpawnFailure { rendered } => {
                let mut s = String::from_str("failed to spawn command: `");
                s.append(rendered.as_str());
                s.append("`");
                s
            },
            SyncError::ProcessFailure { rendered, .. } => {
                let mut s = String::from_str("running command failed: `");
                s.append(rendered.as_str());
                s.append("`");
                s
            },
            SyncError::DecodeFailure { rendered, .. } => {
                let mut s = String::from_str("failed to decode the output of command: `");
                s.append(rendered.as_str());
                s.append("`");
                s
            },
            SyncError::Divergence { local_dataset, remote_dataset } => {
                let mut s = String::from_str("no common snapshot between `");
                s.append(local_dataset.as_str());
                s.append("` and `");
                s.append(remote_dataset.as_str());
                s.append("`: history has diverged, fail to be safe");
                s
            },
        }
    }
}

} // verus!
