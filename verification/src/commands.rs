//! Construction of every external invocation the orchestrator issues, each
//! with its exact argument list and capability tag.

use vstd::prelude::*;

use crate::args::Args;
use crate::typed_command::{Capability, IgnoreOutput, OutputType, ParseableOutput, RawOutput,
    TypedCommand};
use crate::zfs_types::{DatasetName, SnapshotFullName};

verus! {

/// Arguments of the snapshot listing, recursive below `parent` when one is
/// given; JSON output with exact (non-lossy) integers.
pub open spec fn zfs_list_snapshots_args(parent: Option<Seq<char>>) -> Seq<Seq<char>> {
    let base = seq!["list"@, "-t"@, "snapshot"@, "--json"@, "--json-int"@];
    match parent {
        Some(p) => base + seq!["-r"@, p],
        None => base,
    }
}

/// Arguments of the dataset listing.
pub open spec fn zfs_list_datasets_args() -> Seq<Seq<char>> {
    seq!["list"@, "-t"@, "filesystem"@, "--json"@]
}

/// Arguments of dataset creation: unmounted and read-only.
pub open spec fn zfs_create_dataset_args(dataset: Seq<char>) -> Seq<Seq<char>> {
    seq!["create"@, "-u"@, "-o"@, "readonly=on"@, dataset]
}

/// Arguments of a replication send: a full stream when the range collapses
/// to one snapshot, else an incremental stream between the two (inclusive).
pub open spec fn zfs_send_args(from: Seq<char>, to: Seq<char>) -> Seq<Seq<char>> {
    if from == to {
        seq!["send"@, "--replicate"@, "--raw"@, from]
    } else {
        seq!["send"@, "--replicate"@, "--raw"@, "-I"@, from, to]
    }
}

/// Arguments of a replication receive: unmounted, resumable, uncompressed,
/// read-only.
pub open spec fn zfs_recv_args(dataset: Seq<char>) -> Seq<Seq<char>> {
    seq!["receive"@, "-u"@, "-s"@, "-o"@, "compress=off"@, "-o"@, "readonly=on"@, "-v"@, dataset]
}

/// Arguments of a remote-execution wrapping: the target host, the optional
/// known-hosts and identity options, then the wrapped program and its
/// arguments verbatim after the end-of-options marker.
pub open spec fn ssh_args(
    target: Seq<char>,
    known_hosts_file: Option<Seq<char>>,
    identity_file: Option<Seq<char>>,
    program: Seq<char>,
    args: Seq<Seq<char>>,
) -> Seq<Seq<char>> {
    seq![target] + (match known_hosts_file {
        Some(f) => seq!["-o"@, "UserKnownHostsFile="@ + f],
        None => Seq::<Seq<char>>::empty(),
    }) + (match identity_file {
        Some(f) => seq!["-i"@, f],
        None => Seq::<Seq<char>>::empty(),
    }) + seq!["--"@, program] + args
}

/// The read-only invocation listing all snapshots, recursively below
/// `parent_dataset` when one is given.
pub fn make_zfs_list_snapshots_command(parent_dataset: Option<&DatasetName>) -> (r: TypedCommand<
    ParseableOutput,
>)
    ensures
        r.program@ == "zfs"@,
        r.capability == Capability::ReadOnly,
        r.args.deep_view() == zfs_list_snapshots_args(match parent_dataset {
            Some(p) => Some(p@),
            None => None,
        }),
{
    let mut c = TypedCommand::<ParseableOutput>::new("zfs", Capability::ReadOnly);
    c.arg("list");
    c.arg("-t");
    c.arg("snapshot");
    c.arg("--json");
    c.arg("--json-int");
    match parent_dataset {
        Some(parent) => {
            // Recursive from the parent dataset down.
            c.arg("-r");
            c.arg(parent.as_str());
            proof {
                assert(c.args.deep_view() =~= zfs_list_snapshots_args(Some(parent@)));
            }
        },
        None => {
            proof {
                assert(c.args.deep_view() =~= zfs_list_snapshots_args(
                    None::<Seq<char>>,
                ));
            }
        },
    }
    c
}

/// The read-only invocation listing all datasets.
pub fn make_zfs_list_datasets_command() -> (r: TypedCommand<ParseableOutput>)
    ensures
        r.program@ == "zfs"@,
        r.capability == Capability::ReadOnly,
        r.args.deep_view() == zfs_list_datasets_args(),
{
    let mut c = TypedCommand::<ParseableOutput>::new("zfs", Capability::ReadOnly);
    c.arg("list");
    c.arg("-t");
    c.arg("filesystem");
    c.arg("--json");
    proof {
        assert(c.args.deep_view() =~= zfs_list_datasets_args());
    }
    c
}

/// The mutating invocation creating `dataset`, unmounted and read-only.  It
/// fails when the dataset already exists, so callers check existence first.
pub fn make_zfs_create_dataset_command(dataset: &DatasetName) -> (r: TypedCommand<IgnoreOutput>)
    ensures
        r.program@ == "zfs"@,
        r.capability == Capability::Mutating,
        r.args.deep_view() == zfs_create_dataset_args(dataset@),
{
    let mut c = TypedCommand::<IgnoreOutput>::new("zfs", Capability::Mutating);
    c.arg("create");
    c.arg("-u");
    c.arg("-o");
    c.arg("readonly=on");
    c.arg(dataset.as_str());
    proof {
        assert(c.args.deep_view() =~= zfs_create_dataset_args(dataset@));
    }
    c
}

/// The read-only invocation emitting a binary replication stream: the full
/// stream of one snapshot when the range collapses, else the incremental
/// stream between the two.
pub fn make_zfs_incremental_send_command(
    from: &SnapshotFullName,
    to: &SnapshotFullName,
) -> (r: TypedCommand<RawOutput>)
    ensures
        r.program@ == "zfs"@,
        r.capability == Capability::ReadOnly,
        r.args.deep_view() == zfs_send_args(from@, to@),
{
    let mut c = TypedCommand::<RawOutput>::new("zfs", Capability::ReadOnly);
    c.arg("send");
    c.arg("--replicate");
    c.arg("--raw");
    // A single snapshot in the range is a full send of it; otherwise send
    // the incremental stream between the two.
    if *from == *to {
        c.arg(from.as_str());
        proof {
            assert(c.args.deep_view() =~= zfs_send_args(from@, to@));
        }
    } else {
        c.arg("-I");
        c.arg(from.as_str());
        c.arg(to.as_str());
        proof {
            assert(c.args.deep_view() =~= zfs_send_args(from@, to@));
        }
    }
    c
}

/// The mutating invocation consuming a replication stream into
/// `output_dataset`, left unmounted, read-only and uncompressed.
pub fn make_zfs_recv_command(output_dataset: &DatasetName) -> (r: TypedCommand<IgnoreOutput>)
    ensures
        r.program@ == "zfs"@,
        r.capability == Capability::Mutating,
        r.args.deep_view() == zfs_recv_args(output_dataset@),
{
    let mut c = TypedCommand::<IgnoreOutput>::new("zfs", Capability::Mutating);
    c.arg("receive");
    c.arg("-u");
    c.arg("-s");
    c.arg("-o");
    c.arg("compress=off");
    c.arg("-o");
    c.arg("readonly=on");
    c.arg("-v");
    c.arg(output_dataset.as_str());
    proof {
        assert(c.args.deep_view() =~= zfs_recv_args(output_dataset@));
    }
    c
}

/// Wrap an invocation to run on the remote host: the remote-execution
/// program is prepended with its own options, then the original program and
/// arguments follow verbatim.  The original's output shape and capability
/// tag are preserved unchanged.
pub fn make_run_via_ssh_command<T: OutputType>(
    target: &str,
    nested_command: TypedCommand<T>,
    args: &Args,
) -> (r: TypedCommand<T>)
    ensures
        r.program@ == "ssh"@,
        r.capability == nested_command.capability,
        r.args.deep_view() == ssh_args(
            target@,
            args.known_hosts_file.deep_view(),
            args.identity_file.deep_view(),
            nested_command.program@,
            nested_command.args.deep_view(),
        ),
{
    let mut c = TypedCommand::<T>::new("ssh", nested_command.capability);
    c.arg(target);
    match &args.known_hosts_file {
        Some(known_hosts_file) => {
            let mut opt = String::new();
            opt.append("UserKnownHostsFile=");
            opt.append(known_hosts_file.as_str());
            c.arg("-o");
            c.arg(opt.as_str());
        },
        None => {},
    }
    match &args.identity_file {
        Some(identity_file) => {
            c.arg("-i");
            c.arg(identity_file.as_str());
        },
        None => {},
    }
    c.arg("--");
    c.arg(nested_command.get_program().as_str());
    c.args(nested_command.get_args());
    proof {
        assert(c.args.deep_view() =~= ssh_args(
            target@,
            args.known_hosts_file.deep_view(),
            args.identity_file.deep_view(),
            nested_command.program@,
            nested_command.args.deep_view(),
        ));
    }
    c
}

} // verus!
