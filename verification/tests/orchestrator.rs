//! The per-dataset orchestration decisions.

use zfs_sync::args::Args;
use zfs_sync::errors::SyncError;
use zfs_sync::organised_data::{OrganisedSnapshot, OrganisedSnapshots};
use zfs_sync::sync::{plan_dataset, plan_root_creation, remote_dataset_for, DatasetPlan};
use zfs_sync::typed_command::{DryRunnable, RunPlan};

fn snap(name: &str, full: &str, txg: u64) -> OrganisedSnapshot {
    OrganisedSnapshot {
        snapshot_name: name.to_string(),
        full_name: full.to_string(),
        createtxg: txg,
    }
}

fn args_fixture() -> Args {
    Args {
        remote: "backup-host".to_string(),
        source_dataset: "pool/fs".to_string(),
        remote_dataset: "tank/backup".to_string(),
        known_hosts_file: None,
        identity_file: None,
        verbose: false,
        dry_run: false,
    }
}

#[test]
fn remote_path_substitutes_the_source_prefix() {
    assert_eq!(
        remote_dataset_for("pool/fs/home", "pool/fs", "tank/backup"),
        Some("tank/backup/home".to_string())
    );
    assert_eq!(
        remote_dataset_for("pool/fs", "pool/fs", "tank/backup"),
        Some("tank/backup".to_string())
    );
    // A dataset outside the source tree has no counterpart.
    assert_eq!(remote_dataset_for("pool/other", "pool/fs", "tank/backup"), None);
    assert_eq!(remote_dataset_for("po", "pool/fs", "tank/backup"), None);
}

#[test]
fn out_of_tree_datasets_are_skipped_not_errored() {
    let args = args_fixture();
    let remote = OrganisedSnapshots { datasets: vec![] };
    let local_snaps = vec![snap("s1", "pool/other@s1", 1)];
    let plan = plan_dataset(&"pool/other".to_string(), &local_snaps, &remote, &args)
        .expect("out-of-tree datasets are no error");
    assert!(matches!(plan, DatasetPlan::Skip));
}

#[test]
fn missing_remote_dataset_is_created_and_takes_the_full_history() {
    let args = args_fixture();
    let remote = OrganisedSnapshots { datasets: vec![] };
    let local_snaps = vec![
        snap("s1", "pool/fs/home@s1", 10),
        snap("s2", "pool/fs/home@s2", 20),
    ];
    match plan_dataset(&"pool/fs/home".to_string(), &local_snaps, &remote, &args)
        .expect("a missing remote dataset is no error")
    {
        DatasetPlan::Reconcile {
            remote_dataset,
            create_remote,
            transfer,
        } => {
            assert_eq!(remote_dataset, "tank/backup/home");
            let create = create_remote.expect("the missing dataset must be created");
            assert_eq!(create.get_program(), "ssh");
            assert!(create
                .get_args()
                .iter()
                .any(|a| a == "tank/backup/home"));
            // With an empty remote history, the whole local state up to the
            // youngest snapshot travels: a full send of that one snapshot.
            let pipe = transfer.expect("a transfer is needed");
            match pipe.run_or_dry_run_plan(false) {
                RunPlan::SpawnPipe { producer, consumer } => {
                    assert_eq!(
                        producer.args,
                        vec!["send", "--replicate", "--raw", "pool/fs/home@s2"]
                    );
                    assert_eq!(consumer.program, "ssh");
                }
                _ => panic!("without dry-run the pipe spawns its two processes"),
            }
        }
        DatasetPlan::Skip => panic!("the dataset is inside the source tree"),
    }
}

#[test]
fn present_remote_dataset_is_not_created() {
    let args = args_fixture();
    let remote = OrganisedSnapshots {
        datasets: vec![(
            "tank/backup/home".to_string(),
            vec![snap("s1", "tank/backup/home@s1", 4)],
        )],
    };
    let local_snaps = vec![
        snap("s1", "pool/fs/home@s1", 10),
        snap("s2", "pool/fs/home@s2", 20),
    ];
    match plan_dataset(&"pool/fs/home".to_string(), &local_snaps, &remote, &args)
        .expect("no divergence here")
    {
        DatasetPlan::Reconcile {
            create_remote,
            transfer,
            ..
        } => {
            assert!(create_remote.is_none());
            assert!(transfer.is_some());
        }
        DatasetPlan::Skip => panic!("the dataset is inside the source tree"),
    }
}

#[test]
fn diverged_dataset_pair_fails_the_plan() {
    let args = args_fixture();
    let remote = OrganisedSnapshots {
        datasets: vec![(
            "tank/backup/home".to_string(),
            vec![snap("s9", "tank/backup/home@s9", 4)],
        )],
    };
    let local_snaps = vec![snap("s1", "pool/fs/home@s1", 10)];
    match plan_dataset(&"pool/fs/home".to_string(), &local_snaps, &remote, &args) {
        Err(SyncError::Divergence { .. }) => {}
        Err(_) => panic!("the failure is a divergence"),
        Ok(_) => panic!("no shared name diverges"),
    }
}

#[test]
fn root_creation_only_when_missing() {
    let args = args_fixture();
    let empty = OrganisedSnapshots { datasets: vec![] };
    let create = plan_root_creation(&empty, &args).expect("a missing root is created");
    assert_eq!(create.get_program(), "ssh");
    assert!(create.get_args().iter().any(|a| a == "tank/backup"));
    let present = OrganisedSnapshots {
        datasets: vec![("tank/backup".to_string(), vec![])],
    };
    assert!(plan_root_creation(&present, &args).is_none());
}
