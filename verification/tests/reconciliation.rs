//! The reconciliation planner on concrete histories.

use zfs_sync::errors::SyncError;
use zfs_sync::organised_data::{OrganisedSnapshot, OrganisedSnapshots};
use zfs_sync::sync::{get_first_and_last, snapshots_to_sync, DatasetAction};
use zfs_sync::zfs_types::{Dataset, Snapshot, ZfsListItem, ZfsListOutput};

fn snap(name: &str, full: &str, txg: u64) -> OrganisedSnapshot {
    OrganisedSnapshot {
        snapshot_name: name.to_string(),
        full_name: full.to_string(),
        createtxg: txg,
    }
}

#[test]
fn youngest_common_ancestor() {
    assert_eq!(4, 4);
}

#[test]
fn yca_picks_youngest_shared_name() {
    // local createtxg {10,20,30} named {s1,s2,s3}; remote createtxg {5,15}
    // named {s1,s2}: the youngest common ancestor is s2 on each side.
    let local = vec![
        snap("s1", "pool/fs@s1", 10),
        snap("s2", "pool/fs@s2", 20),
        snap("s3", "pool/fs@s3", 30),
    ];
    let remote = vec![snap("s1", "tank/fs@s1", 5), snap("s2", "tank/fs@s2", 15)];
    let (f, a) = zfs_sync::organised_data::youngest_common_ancestor(&local, &remote)
        .expect("a common ancestor exists");
    assert_eq!(f.snapshot_name, "s2");
    assert_eq!(f.full_name, "pool/fs@s2");
    assert_eq!(f.createtxg, 20);
    assert_eq!(a.snapshot_name, "s2");
    assert_eq!(a.full_name, "tank/fs@s2");
    assert_eq!(a.createtxg, 15);
}

#[test]
fn yca_no_shared_name_is_none() {
    let local = vec![snap("s1", "pool/fs@s1", 10), snap("s2", "pool/fs@s2", 20)];
    let remote = vec![snap("s9", "tank/fs@s9", 7)];
    assert!(zfs_sync::organised_data::youngest_common_ancestor(&local, &remote).is_none());
}

#[test]
fn yca_symmetric_in_existence() {
    let a = vec![snap("s1", "pool/fs@s1", 10), snap("s2", "pool/fs@s2", 20)];
    let b = vec![snap("s2", "tank/fs@s2", 3)];
    let ab = zfs_sync::organised_data::youngest_common_ancestor(&a, &b);
    let ba = zfs_sync::organised_data::youngest_common_ancestor(&b, &a);
    assert_eq!(ab.is_some(), ba.is_some());
    // Each call hands back the matching element of its respective side.
    let (fa, fb) = ab.unwrap();
    assert_eq!(fa.full_name, "pool/fs@s2");
    assert_eq!(fb.full_name, "tank/fs@s2");
    let (ga, gb) = ba.unwrap();
    assert_eq!(ga.full_name, "tank/fs@s2");
    assert_eq!(gb.full_name, "pool/fs@s2");
}

#[test]
fn incremental_send_from_common_to_youngest() {
    // Scenario: the common ancestor is s2; the delta s2..s3 must travel.
    let local = vec![
        snap("s1", "pool/fs@s1", 10),
        snap("s2", "pool/fs@s2", 20),
        snap("s3", "pool/fs@s3", 30),
    ];
    let remote = vec![snap("s1", "tank/fs@s1", 5), snap("s2", "tank/fs@s2", 15)];
    let action = snapshots_to_sync(
        &"pool/fs".to_string(),
        &local,
        &"tank/fs".to_string(),
        &remote,
    )
    .expect("no divergence");
    match action {
        DatasetAction::IncrementalSend { from, to } => {
            assert_eq!(from.full_name, "pool/fs@s2");
            assert_eq!(from.createtxg, 20);
            assert_eq!(to.full_name, "pool/fs@s3");
            assert_eq!(to.createtxg, 30);
        }
        _ => panic!("expected an incremental send"),
    }
}

#[test]
fn empty_local_history_needs_nothing() {
    // Scenario: local history empty; remote history non-empty: no action, no
    // error.
    let local: Vec<OrganisedSnapshot> = vec![];
    let remote = vec![snap("s1", "tank/fs@s1", 5)];
    let action = snapshots_to_sync(
        &"pool/fs".to_string(),
        &local,
        &"tank/fs".to_string(),
        &remote,
    )
    .expect("an empty local history is not an error");
    assert!(matches!(action, DatasetAction::Nothing));
}

#[test]
fn empty_remote_history_takes_full_send() {
    let local = vec![snap("s1", "pool/fs@s1", 10), snap("s2", "pool/fs@s2", 20)];
    let remote: Vec<OrganisedSnapshot> = vec![];
    let action = snapshots_to_sync(
        &"pool/fs".to_string(),
        &local,
        &"tank/fs".to_string(),
        &remote,
    )
    .expect("an empty remote history is not an error");
    match action {
        DatasetAction::FullSend(s) => {
            assert_eq!(s.full_name, "pool/fs@s2");
            assert_eq!(s.createtxg, 20);
        }
        _ => panic!("expected a full send of the youngest local snapshot"),
    }
}

#[test]
fn divergence_names_both_datasets() {
    // Scenario: local {s1,s2}; remote {s9}: no shared name, so the run must
    // fail with a divergence error naming both dataset paths.
    let local = vec![snap("s1", "pool/fs@s1", 10), snap("s2", "pool/fs@s2", 20)];
    let remote = vec![snap("s9", "tank/fs@s9", 7)];
    let err = snapshots_to_sync(
        &"pool/fs".to_string(),
        &local,
        &"tank/fs".to_string(),
        &remote,
    )
    .expect_err("diverged histories must fail");
    match &err {
        SyncError::Divergence {
            local_dataset,
            remote_dataset,
        } => {
            assert_eq!(local_dataset, "pool/fs");
            assert_eq!(remote_dataset, "tank/fs");
        }
        _ => panic!("expected a divergence error"),
    }
    let message = err.message();
    assert!(message.contains("pool/fs"));
    assert!(message.contains("tank/fs"));
}

#[test]
fn remote_holding_youngest_local_name_is_current() {
    // The youngest local snapshot's name is present remotely: no action.
    let local = vec![snap("s1", "pool/fs@s1", 10), snap("s2", "pool/fs@s2", 20)];
    let remote = vec![snap("s1", "tank/fs@s1", 4), snap("s2", "tank/fs@s2", 9)];
    let action = snapshots_to_sync(
        &"pool/fs".to_string(),
        &local,
        &"tank/fs".to_string(),
        &remote,
    )
    .expect("no divergence");
    assert!(matches!(action, DatasetAction::Nothing));
}

#[test]
fn first_and_last_of_history() {
    let history = vec![
        snap("s1", "pool/fs@s1", 10),
        snap("s2", "pool/fs@s2", 20),
        snap("s3", "pool/fs@s3", 30),
    ];
    let (first, last) = get_first_and_last(&history).unwrap();
    assert_eq!(first.createtxg, 10);
    assert_eq!(last.createtxg, 30);
    let empty: Vec<OrganisedSnapshot> = vec![];
    assert!(get_first_and_last(&empty).is_none());
}

#[test]
fn organiser_groups_and_orders_by_createtxg() {
    // Entries arrive unordered and interleaved across datasets; each history
    // comes out ascending by creation id.
    let listing = ZfsListOutput {
        output: vec![
            ZfsListItem::Snapshot(Snapshot {
                name: "pool/a@s2".to_string(),
                createtxg: 20,
                dataset: "pool/a".to_string(),
                snapshot_name: "s2".to_string(),
            }),
            ZfsListItem::Dataset(Dataset {
                name: "pool/b".to_string(),
            }),
            ZfsListItem::Snapshot(Snapshot {
                name: "pool/a@s1".to_string(),
                createtxg: 10,
                dataset: "pool/a".to_string(),
                snapshot_name: "s1".to_string(),
            }),
        ],
    };
    let organised = OrganisedSnapshots::from(listing);
    assert_eq!(organised.datasets.len(), 2);
    let a = organised.get(&"pool/a".to_string()).unwrap();
    assert_eq!(a.len(), 2);
    assert_eq!(a[0].createtxg, 10);
    assert_eq!(a[0].snapshot_name, "s1");
    assert_eq!(a[1].createtxg, 20);
    assert_eq!(a[1].snapshot_name, "s2");
    // A dataset listed without snapshots keeps an empty history.
    let b = organised.get(&"pool/b".to_string()).unwrap();
    assert!(b.is_empty());
    assert!(organised.get(&"pool/c".to_string()).is_none());
    assert!(organised.contains_dataset(&"pool/b".to_string()));
    assert!(!organised.contains_dataset(&"pool/c".to_string()));
}

#[test]
fn organiser_keeps_one_snapshot_per_creation_id() {
    let listing = ZfsListOutput {
        output: vec![
            ZfsListItem::Snapshot(Snapshot {
                name: "pool/a@s1".to_string(),
                createtxg: 10,
                dataset: "pool/a".to_string(),
                snapshot_name: "s1".to_string(),
            }),
            ZfsListItem::Snapshot(Snapshot {
                name: "pool/a@s1".to_string(),
                createtxg: 10,
                dataset: "pool/a".to_string(),
                snapshot_name: "s1".to_string(),
            }),
        ],
    };
    let organised = OrganisedSnapshots::from(listing);
    let a = organised.get(&"pool/a".to_string()).unwrap();
    assert_eq!(a.len(), 1);
    assert_eq!(a[0].createtxg, 10);
}
