//! The reconciliation planner: given the ordered snapshot history of a
//! dataset on two hosts, decide whether nothing needs to happen, whether a
//! full transfer is required, or whether an incremental transfer between two
//! specific snapshots is required — refusing to proceed on histories that
//! have silently diverged.

use vstd::prelude::*;

use crate::args::Args;
use crate::commands::{make_run_via_ssh_command, make_zfs_create_dataset_command,
    make_zfs_incremental_send_command, make_zfs_recv_command, ssh_args, zfs_create_dataset_args,
    zfs_send_args, zfs_recv_args};
use crate::errors::SyncError;
use crate::organised_data::{common_name_exists, is_yca_pair, lemma_history_of_entry, name_in,
    sorted_by_createtxg, youngest_common_ancestor, OrganisedSnapshot, OrganisedSnapshots};
use crate::typed_command::{Capability, IgnoreOutput, PipedCommand, TypedCommand};
use crate::zfs_types::DatasetName;

verus! {

/// What a dataset pair needs: the sole contract between planning and
/// execution.
#[derive(Debug)]
pub enum DatasetAction {
    /// No transfer is needed.
    Nothing,
    /// Transfer the complete state up to and including this snapshot.
    FullSend(OrganisedSnapshot),
    /// Transfer only the delta between two specific snapshots.
    IncrementalSend { from: OrganisedSnapshot, to: OrganisedSnapshot },
}

/// The oldest and the youngest element of an ordered history, when there is
/// one.
pub fn get_first_and_last<T>(set: &Vec<T>) -> (r: Option<(&T, &T)>)
    ensures
        r is Some <==> set@.len() > 0,
        r matches Some(p) ==> *p.0 == set@[0] && *p.1 == set@[set@.len() - 1],
{
    if set.len() == 0 {
        None
    } else {
        Some((&set[0], &set[set.len() - 1]))
    }
}

/// Decide the synchronization action for one dataset pair.
///
/// With no local history there is nothing to transfer; with local history
/// but no remote history the whole local state up to the youngest local
/// snapshot must travel; otherwise the youngest common ancestor anchors an
/// incremental transfer up to the youngest local snapshot, and its absence
/// is the fatal divergence condition, reported with both dataset paths and
/// never "repaired" by a transfer that could discard remote history.
pub fn snapshots_to_sync(
    local_dataset: &DatasetName,
    local_snapshots: &Vec<OrganisedSnapshot>,
    remote_dataset: &DatasetName,
    remote_snapshots: &Vec<OrganisedSnapshot>,
) -> (r: Result<DatasetAction, SyncError>)
    requires
        sorted_by_createtxg(local_snapshots@),
        sorted_by_createtxg(remote_snapshots@),
    ensures
        local_snapshots@.len() == 0 ==> r == Ok::<DatasetAction, SyncError>(DatasetAction::Nothing),
        local_snapshots@.len() > 0 && remote_snapshots@.len() == 0 ==> r == Ok::<
            DatasetAction,
            SyncError,
        >(DatasetAction::FullSend(local_snapshots@[local_snapshots@.len() - 1])),
        local_snapshots@.len() > 0 && remote_snapshots@.len() > 0 && !common_name_exists(
            local_snapshots@,
            remote_snapshots@,
        ) ==> (r matches Err(e) && e matches SyncError::Divergence {
            local_dataset: ld,
            remote_dataset: rd,
        } && ld@ == local_dataset@ && rd@ == remote_dataset@),
        local_snapshots@.len() > 0 && remote_snapshots@.len() > 0 && common_name_exists(
            local_snapshots@,
            remote_snapshots@,
        ) ==> (exists|i: int, j: int|
            #![trigger local_snapshots@[i], remote_snapshots@[j]]
            is_yca_pair(local_snapshots@, remote_snapshots@, i, j) && r == (if i
                == local_snapshots@.len() - 1 {
                Ok::<DatasetAction, SyncError>(DatasetAction::Nothing)
            } else {
                Ok::<DatasetAction, SyncError>(
                    DatasetAction::IncrementalSend {
                        from: local_snapshots@[i],
                        to: local_snapshots@[local_snapshots@.len() - 1],
                    },
                )
            })),
{
    if local_snapshots.len() == 0 {
        // No local snapshots: nothing needs to reach the remote side.
        return Ok(DatasetAction::Nothing);
    }
    let youngest_local = &local_snapshots[local_snapshots.len() - 1];
    if remote_snapshots.len() == 0 {
        // No snapshots on the remote: send the entire local history.
        return Ok(DatasetAction::FullSend(youngest_local.clone()));
    }
    match youngest_common_ancestor(local_snapshots, remote_snapshots) {
        None => Err(
            SyncError::Divergence {
                local_dataset: local_dataset.clone(),
                remote_dataset: remote_dataset.clone(),
            },
        ),
        Some((yc_local, yc_remote)) => {
            proof {
                let (i, j) = choose|i: int, j: int|
                    #![trigger local_snapshots@[i], remote_snapshots@[j]]
                    is_yca_pair(local_snapshots@, remote_snapshots@, i, j) && yc_local
                        == local_snapshots@[i] && yc_remote == remote_snapshots@[j];
                if yc_local.createtxg == local_snapshots@[local_snapshots@.len() - 1].createtxg {
                    if i < local_snapshots@.len() - 1 {
                        assert(local_snapshots@[i].createtxg < local_snapshots@[local_snapshots@.len()
                            - 1].createtxg);
                    }
                }
            }
            if yc_local.createtxg == youngest_local.createtxg {
                // The most recent shared snapshot is the youngest local one:
                // the remote is already current.
                Ok(DatasetAction::Nothing)
            } else {
                Ok(
                    DatasetAction::IncrementalSend {
                        from: yc_local,
                        to: youngest_local.clone(),
                    },
                )
            }
        },
    }
}

/// `p` pipes the replication stream `[from_full, to_full]` of the local side
/// into a remote-wrapped receive into `remote_dataset`: the producer is the
/// read-only send, the consumer the mutating, remote-wrapped receive.
pub open spec fn is_send_pipe(
    p: PipedCommand<IgnoreOutput>,
    from_full: Seq<char>,
    to_full: Seq<char>,
    remote_dataset: Seq<char>,
    args: Args,
) -> bool {
    &&& p.from.program@ == "zfs"@
    &&& p.from.capability == Capability::ReadOnly
    &&& p.from.args.deep_view() == zfs_send_args(from_full, to_full)
    &&& p.to.program@ == "ssh"@
    &&& p.to.capability == Capability::Mutating
    &&& p.to.args.deep_view() == ssh_args(
        args.remote@,
        args.known_hosts_file.deep_view(),
        args.identity_file.deep_view(),
        "zfs"@,
        zfs_recv_args(remote_dataset),
    )
}

/// What planning the transfer of one dataset pair must yield: nothing when
/// the local history is empty; the whole history up to the youngest local
/// snapshot when the remote history is empty; the divergence error, naming
/// both dataset paths, when the two histories share no snapshot name; and
/// otherwise either nothing (the youngest common ancestor is the youngest
/// local snapshot) or the delta from that ancestor to the youngest local
/// snapshot.
pub open spec fn sync_outcome(
    local: Seq<OrganisedSnapshot>,
    remote: Seq<OrganisedSnapshot>,
    local_dataset: Seq<char>,
    remote_dataset: Seq<char>,
    args: Args,
    r: Result<Option<PipedCommand<IgnoreOutput>>, SyncError>,
) -> bool {
    &&& local.len() == 0 ==> (r matches Ok(o) && o is None)
    &&& local.len() > 0 && remote.len() == 0 ==> (r matches Ok(o) && o matches Some(p)
        && is_send_pipe(
        p,
        local[local.len() - 1].full_name@,
        local[local.len() - 1].full_name@,
        remote_dataset,
        args,
    ))
    &&& local.len() > 0 && remote.len() > 0 && !common_name_exists(local, remote) ==> (r
        matches Err(e) && e matches SyncError::Divergence { local_dataset: ld, remote_dataset: rd }
        && ld@ == local_dataset && rd@ == remote_dataset)
    &&& local.len() > 0 && remote.len() > 0 && common_name_exists(local, remote) ==> (exists|
        i: int,
        j: int,
    |
        #![trigger local[i], remote[j]]
        is_yca_pair(local, remote, i, j) && (if i == local.len() - 1 {
            r matches Ok(o) && o is None
        } else {
            r matches Ok(o) && o matches Some(p) && is_send_pipe(
                p,
                local[i].full_name@,
                local[local.len() - 1].full_name@,
                remote_dataset,
                args,
            )
        }))
}

/// Plan the transfer of one dataset pair and construct it: the chosen send
/// command piped into a remote-wrapped receive, dry-run gating left to the
/// piped invocation's own gated path.
pub fn sync_snapshots(
    local_dataset: &DatasetName,
    local_snapshots: &Vec<OrganisedSnapshot>,
    remote_dataset: &DatasetName,
    remote_snapshots: &Vec<OrganisedSnapshot>,
    args: &Args,
) -> (r: Result<Option<PipedCommand<IgnoreOutput>>, SyncError>)
    requires
        sorted_by_createtxg(local_snapshots@),
        sorted_by_createtxg(remote_snapshots@),
    ensures
        sync_outcome(
            local_snapshots@,
            remote_snapshots@,
            local_dataset@,
            remote_dataset@,
            *args,
            r,
        ),
{
    let action = match snapshots_to_sync(
        local_dataset,
        local_snapshots,
        remote_dataset,
        remote_snapshots,
    ) {
        Ok(action) => action,
        Err(e) => {
            return Err(e);
        },
    };
    match action {
        DatasetAction::Nothing => Ok(None),
        DatasetAction::FullSend(to) => {
            let send = make_zfs_incremental_send_command(&to.full_name, &to.full_name);
            let recv = make_zfs_recv_command(remote_dataset);
            let wrapped = make_run_via_ssh_command(args.remote.as_str(), recv, args);
            Ok(Some(PipedCommand::new(send, wrapped)))
        },
        DatasetAction::IncrementalSend { from, to } => {
            let send = make_zfs_incremental_send_command(&from.full_name, &to.full_name);
            let recv = make_zfs_recv_command(remote_dataset);
            let wrapped = make_run_via_ssh_command(args.remote.as_str(), recv, args);
            Ok(Some(PipedCommand::new(send, wrapped)))
        },
    }
}

/// `prefix` starts `s`.
pub open spec fn is_prefix(prefix: Seq<char>, s: Seq<char>) -> bool {
    prefix.len() <= s.len() && s.subrange(0, prefix.len() as int) == prefix
}

/// Map a local dataset path to its remote counterpart by substituting the
/// configured remote root for the configured source root; a dataset outside
/// the source tree has no counterpart.
pub fn remote_dataset_for(
    local_dataset: &str,
    source_dataset: &str,
    remote_dataset: &str,
) -> (r: Option<String>)
    ensures
        r is Some <==> is_prefix(source_dataset@, local_dataset@),
        r matches Some(out) ==> out@ == remote_dataset@ + local_dataset@.skip(
            source_dataset@.len() as int,
        ),
{
    let n_src = source_dataset.unicode_len();
    let n_loc = local_dataset.unicode_len();
    if n_src > n_loc {
        proof {
            assert(!is_prefix(source_dataset@, local_dataset@));
        }
        return None;
    }
    let mut k: usize = 0;
    while k < n_src
        invariant
            k <= n_src <= n_loc,
            n_src == source_dataset@.len(),
            n_loc == local_dataset@.len(),
            forall|k2: int| 0 <= k2 < k ==> local_dataset@[k2] == source_dataset@[k2],
        decreases n_src - k,
    {
        if local_dataset.get_char(k) != source_dataset.get_char(k) {
            proof {
                assert(!is_prefix(source_dataset@, local_dataset@)) by {
                    if is_prefix(source_dataset@, local_dataset@) {
                        assert(local_dataset@.subrange(0, n_src as int)[k as int]
                            == source_dataset@[k as int]);
                    }
                }
            }
            return None;
        }
        k = k + 1;
    }
    proof {
        assert(local_dataset@.subrange(0, n_src as int) =~= source_dataset@);
    }
    let suffix = local_dataset.substring_char(n_src, n_loc);
    let mut out = String::new();
    out.append(remote_dataset);
    out.append(suffix);
    proof {
        assert(local_dataset@.subrange(n_src as int, n_loc as int) =~= local_dataset@.skip(
            n_src as int,
        ));
    }
    Some(out)
}

/// `c` creates `ds` on the remote host: the mutating create, remote-wrapped.
pub open spec fn is_remote_create(c: TypedCommand<IgnoreOutput>, ds: Seq<char>, args: Args) -> bool {
    &&& c.program@ == "ssh"@
    &&& c.capability == Capability::Mutating
    &&& c.args.deep_view() == ssh_args(
        args.remote@,
        args.known_hosts_file.deep_view(),
        args.identity_file.deep_view(),
        "zfs"@,
        zfs_create_dataset_args(ds),
    )
}

/// When the configured remote target dataset is missing from the remote
/// inventory, the command creating it; nothing otherwise.
pub fn plan_root_creation(
    all_remote_datasets: &OrganisedSnapshots,
    args: &Args,
) -> (r: Option<TypedCommand<IgnoreOutput>>)
    ensures
        r is Some <==> !all_remote_datasets.has_dataset(args.remote_dataset@),
        r matches Some(c) ==> is_remote_create(c, args.remote_dataset@, *args),
{
    if all_remote_datasets.contains_dataset(&args.remote_dataset) {
        None
    } else {
        let create = make_zfs_create_dataset_command(&args.remote_dataset);
        Some(make_run_via_ssh_command(args.remote.as_str(), create, args))
    }
}

/// The per-dataset step of a run.
pub enum DatasetPlan {
    /// The dataset lies outside the configured source tree: passed over, not
    /// an error.
    Skip,
    /// Reconcile with the named remote dataset: when it is missing remotely,
    /// first create it (its history counts as empty), then run the transfer,
    /// when one is needed.
    Reconcile {
        remote_dataset: DatasetName,
        create_remote: Option<TypedCommand<IgnoreOutput>>,
        transfer: Option<PipedCommand<IgnoreOutput>>,
    },
}

/// Decide everything about one local dataset: whether it is in scope, the
/// remote path it maps to, whether the remote dataset must first be created,
/// and which transfer, if any, brings the remote up to date.
pub fn plan_dataset(
    local_dataset: &DatasetName,
    local_snapshots: &Vec<OrganisedSnapshot>,
    remote: &OrganisedSnapshots,
    args: &Args,
) -> (r: Result<DatasetPlan, SyncError>)
    requires
        sorted_by_createtxg(local_snapshots@),
        remote.wf(),
    ensures
        r matches Ok(plan) && plan is Skip <==> !is_prefix(args.source_dataset@, local_dataset@),
        r matches Ok(plan) ==> plan matches DatasetPlan::Reconcile {
            remote_dataset: rd,
            create_remote,
            transfer,
        } ==> {
            &&& rd@ == args.remote_dataset@ + local_dataset@.skip(args.source_dataset@.len() as int)
            &&& (create_remote is Some <==> !remote.has_dataset(rd@))
            &&& (create_remote matches Some(c) ==> is_remote_create(c, rd@, *args))
            &&& sync_outcome(
                local_snapshots@,
                if remote.has_dataset(rd@) {
                    remote.spec_history(rd@)
                } else {
                    Seq::empty()
                },
                local_dataset@,
                rd@,
                *args,
                Ok(transfer),
            )
        },
        r matches Err(e) ==> e is Divergence && is_prefix(args.source_dataset@, local_dataset@),
{
    let remote_name = match remote_dataset_for(
        local_dataset.as_str(),
        args.source_dataset.as_str(),
        args.remote_dataset.as_str(),
    ) {
        Some(remote_name) => remote_name,
        None => {
            return Ok(DatasetPlan::Skip);
        },
    };
    match remote.get(&remote_name) {
        Some(remote_snapshots) => {
            proof {
                let n = choose|n: int|
                    0 <= n < remote.datasets@.len() && (#[trigger] remote.datasets@[n]).0@
                        == remote_name@ && remote_snapshots@ == remote.datasets@[n].1@;
                lemma_history_of_entry(remote, n);
                assert(remote.spec_history(remote_name@) == remote_snapshots@);
            }
            match sync_snapshots(
                local_dataset,
                local_snapshots,
                &remote_name,
                remote_snapshots,
                args,
            ) {
                Ok(transfer) => Ok(
                    DatasetPlan::Reconcile {
                        remote_dataset: remote_name,
                        create_remote: None,
                        transfer,
                    },
                ),
                Err(e) => Err(e),
            }
        },
        None => {
            // The dataset does not exist remotely: create it and treat its
            // history as empty.
            let create = make_zfs_create_dataset_command(&remote_name);
            let wrapped = make_run_via_ssh_command(args.remote.as_str(), create, args);
            let empty_history: Vec<OrganisedSnapshot> = Vec::new();
            proof {
                assert(empty_history@ =~= Seq::<OrganisedSnapshot>::empty());
            }
            match sync_snapshots(local_dataset, local_snapshots, &remote_name, &empty_history, args)
            {
                Ok(transfer) => Ok(
                    DatasetPlan::Reconcile {
                        remote_dataset: remote_name,
                        create_remote: Some(wrapped),
                        transfer,
                    },
                ),
                Err(e) => Err(e),
            }
        },
    }
}

/// The snapshot age invariant this tool maintains between two histories is
/// that snapshots shared by name appear in the same creation order on both
/// sides.  Under that invariant, whenever the youngest local snapshot's name
/// is also present remotely, the youngest common ancestor is the youngest
/// local snapshot itself — so the planner reports that no transfer is
/// needed.
pub proof fn lemma_up_to_date_when_youngest_shared(
    local: Seq<OrganisedSnapshot>,
    remote: Seq<OrganisedSnapshot>,
)
    requires
        local.len() > 0,
        name_in(remote, local[local.len() - 1].snapshot_name@),
        forall|i: int, j: int, i2: int, j2: int|
            #![trigger local[i], remote[j], local[i2], remote[j2]]
            0 <= i < local.len() && 0 <= j < remote.len() && 0 <= i2 < local.len() && 0 <= j2
                < remote.len() && local[i].snapshot_name@ == remote[j].snapshot_name@
                && local[i2].snapshot_name@ == remote[j2].snapshot_name@ ==> (i < i2 <==> j < j2),
    ensures
        common_name_exists(local, remote),
        forall|i: int, j: int| is_yca_pair(local, remote, i, j) ==> i == local.len() - 1,
{
    let last = local.len() - 1;
    let jv = choose|jv: int| 0 <= jv < remote.len() && remote[jv].snapshot_name@
        == local[last].snapshot_name@;
    assert(local[last].snapshot_name@ == remote[jv].snapshot_name@);
    assert(common_name_exists(local, remote));
    assert forall|i: int, j: int| is_yca_pair(local, remote, i, j) implies i == local.len()
        - 1 by {
        assert(name_in(local, remote[jv].snapshot_name@));
        if j < jv {
            assert(!name_in(local, remote[jv].snapshot_name@));
        }
        // j >= jv, so by order-consistency of the matching pairs (i, j) and
        // (last, jv), the local index cannot fall short of the youngest.
        assert(local[i].snapshot_name@ == remote[j].snapshot_name@);
        assert(i < last <==> j < jv);
    }
}

} // verus!
