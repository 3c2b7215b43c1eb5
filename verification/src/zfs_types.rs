//! Typed entities decoded from the storage manager's list output.

use vstd::prelude::*;

verus! {

/// Full name of a snapshot: dataset name, separator, short snapshot name
/// (e.g. `pool/fs@autosnap_2025-10-12_21:40:13_daily`).
pub type SnapshotFullName = String;

/// Short name of a snapshot (e.g. `autosnap_2025-10-12_21:40:13_daily`).
pub type SnapshotName = String;

/// Name of a dataset (e.g. `pool/fs`).
pub type DatasetName = String;

/// A snapshot entity from the listing: an immutable, point-in-time, named
/// state of a dataset.
pub struct Snapshot {
    pub name: SnapshotFullName,
    /// Creation transaction id: a monotonically increasing unsigned counter
    /// assigned by the storage engine at snapshot creation.  It is a total
    /// order surrogate for creation time within one dataset; across datasets
    /// it is not comparable.
    pub createtxg: u64,
    pub dataset: DatasetName,
    pub snapshot_name: SnapshotName,
}

/// A dataset entity from the listing: a filesystem-like container that owns
/// zero or more snapshots.
pub struct Dataset {
    pub name: DatasetName,
}

/// One decoded listing entry, tagged as either a snapshot or a dataset.
pub enum ZfsListItem {
    Snapshot(Snapshot),
    Dataset(Dataset),
}

impl ZfsListItem {
    /// The name of the dataset this entry belongs to: the owning dataset for
    /// a snapshot, the dataset's own name otherwise.
    pub open spec fn spec_dataset_name(&self) -> Seq<char> {
        match self {
            ZfsListItem::Snapshot(snapshot) => snapshot.dataset@,
            ZfsListItem::Dataset(dataset) => dataset.name@,
        }
    }

    pub fn dataset_name(&self) -> (r: &DatasetName)
        ensures
            r@ == self.spec_dataset_name(),
    {
        match self {
            ZfsListItem::Snapshot(snapshot) => &snapshot.dataset,
            ZfsListItem::Dataset(dataset) => &dataset.name,
        }
    }
}

/// A full decoded listing.  Each entry carries its own names, so the listing
/// is kept as the sequence of entries in the order they were decoded.
pub struct ZfsListOutput {
    pub output: Vec<ZfsListItem>,
}

} // verus!
