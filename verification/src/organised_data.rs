//! Per-dataset, creation-ordered snapshot inventories, and the
//! youngest-common-ancestor computation over two of them.

use vstd::prelude::*;

use crate::zfs_types::{DatasetName, Snapshot, SnapshotFullName, SnapshotName, ZfsListItem,
    ZfsListOutput};

verus! {

/// A projection of a snapshot carrying only what reconciliation needs,
/// ordered solely by creation transaction id.  Ordering by creation id (not
/// by name) is required because snapshot names are often timestamp strings
/// with ambiguous lexical order; the storage engine's monotonic counter is
/// the only trustworthy order.
#[derive(Debug)]
pub struct OrganisedSnapshot {
    pub snapshot_name: SnapshotName,
    pub full_name: SnapshotFullName,
    pub createtxg: u64,
}

impl Clone for OrganisedSnapshot {
    fn clone(&self) -> (r: Self)
        ensures
            r == *self,
    {
        OrganisedSnapshot {
            snapshot_name: self.snapshot_name.clone(),
            full_name: self.full_name.clone(),
            createtxg: self.createtxg,
        }
    }
}

/// The snapshots of `s` are in strictly ascending creation order: the oldest
/// first, the youngest last, no two sharing a creation id.
pub open spec fn sorted_by_createtxg(s: Seq<OrganisedSnapshot>) -> bool {
    forall|i: int, j: int| 0 <= i < j < s.len() ==> s[i].createtxg < s[j].createtxg
}

/// Some snapshot in `s` bears the short name `name`.
pub open spec fn name_in(s: Seq<OrganisedSnapshot>, name: Seq<char>) -> bool {
    exists|i: int| 0 <= i < s.len() && s[i].snapshot_name@ == name
}

/// The two histories share at least one short snapshot name.
pub open spec fn common_name_exists(
    from: Seq<OrganisedSnapshot>,
    against: Seq<OrganisedSnapshot>,
) -> bool {
    exists|i: int, j: int|
        #![trigger from[i], against[j]]
        0 <= i < from.len() && 0 <= j < against.len() && from[i].snapshot_name@
            == against[j].snapshot_name@
}

///`(i, j)` points at the youngest common ancestor: the names match, no entry
/// of `against` younger than `j` has its name anywhere in `from`, and no
/// entry of `from` younger than `i` bears that shared name.
pub open spec fn is_yca_pair(
    from: Seq<OrganisedSnapshot>,
    against: Seq<OrganisedSnapshot>,
    i: int,
    j: int,
) -> bool {
    &&& 0 <= i < from.len()
    &&& 0 <= j < against.len()
    &&& from[i].snapshot_name@ == against[j].snapshot_name@
    &&& forall|j2: int| j < j2 < against.len() ==> !name_in(from, against[j2].snapshot_name@)
    &&& forall|i2: int| i < i2 < from.len() ==> from[i2].snapshot_name@ != against[j].snapshot_name@
}

/// Return the most recent snapshot in `from` that is also present (by short
/// name) in `against`, together with the matching entry of `against`.
///
/// Both sides are scanned from youngest to oldest and the first exact name
/// match wins; the quadratic scan is deliberate, because snapshot names give
/// no trustworthy order to search by.
pub fn youngest_common_ancestor(
    from: &Vec<OrganisedSnapshot>,
    against: &Vec<OrganisedSnapshot>,
) -> (r: Option<(OrganisedSnapshot, OrganisedSnapshot)>)
    ensures
        r is Some <==> common_name_exists(from@, against@),
        r matches Some(p) ==> exists|i: int, j: int|
            #![trigger from@[i], against@[j]]
            is_yca_pair(from@, against@, i, j) && p.0 == from@[i] && p.1 == against@[j],
{
    let mut j: usize = against.len();
    while j > 0
        invariant
            j <= against@.len(),
            forall|j2: int| j <= j2 < against@.len() ==> !name_in(
                from@,
                against@[j2].snapshot_name@,
            ),
        decreases j,
    {
        j = j - 1;
        let mut i: usize = from.len();
        while i > 0
            invariant
                i <= from@.len(),
                j < against@.len(),
                forall|j2: int| j < j2 < against@.len() ==> !name_in(
                    from@,
                    against@[j2].snapshot_name@,
                ),
                forall|i2: int| i <= i2 < from@.len() ==> from@[i2].snapshot_name@
                    != against@[j as int].snapshot_name@,
            decreases i,
        {
            i = i - 1;
            if from[i].snapshot_name == against[j].snapshot_name {
                proof {
                    assert(is_yca_pair(from@, against@, i as int, j as int));
                }
                return Some((from[i].clone(), against[j].clone()));
            }
        }
        proof {
            assert forall|j2: int| j <= j2 < against@.len() implies !name_in(
                from@,
                against@[j2].snapshot_name@,
            ) by {
                if j2 == j {
                    assert(!name_in(from@, against@[j2].snapshot_name@)) by {
                        if name_in(from@, against@[j2].snapshot_name@) {
                            let i0 = choose|i0: int|
                                0 <= i0 < from@.len() && from@[i0].snapshot_name@
                                    == against@[j2].snapshot_name@;
                            assert(from@[i0].snapshot_name@ != against@[j as int].snapshot_name@);
                        }
                    }
                }
            }
        }
    }
    proof {
        assert(!common_name_exists(from@, against@)) by {
            if common_name_exists(from@, against@) {
                let (i0, j0) = choose|i0: int, j0: int|
                    #![trigger from@[i0], against@[j0]]
                    0 <= i0 < from@.len() && 0 <= j0 < against@.len() && from@[i0].snapshot_name@
                        == against@[j0].snapshot_name@;
                assert(name_in(from@, against@[j0].snapshot_name@));
            }
        }
    }
    None
}

/// `snaps` holds a snapshot with creation id `txg`.
pub open spec fn txg_in(snaps: Seq<OrganisedSnapshot>, txg: u64) -> bool {
    exists|k: int| 0 <= k < snaps.len() && snaps[k].createtxg == txg
}

/// `os` is the projection of the listed snapshot `s`.
pub open spec fn snap_matches(s: Snapshot, os: OrganisedSnapshot) -> bool {
    &&& os.snapshot_name@ == s.snapshot_name@
    &&& os.full_name@ == s.name@
    &&& os.createtxg == s.createtxg
}

/// Some entry among the first `upto` of `items` belongs to dataset `d`.
pub open spec fn dataset_listed_upto(items: Seq<ZfsListItem>, upto: int, d: Seq<char>) -> bool {
    exists|k: int| 0 <= k < upto && (#[trigger] items[k]).spec_dataset_name() == d
}

/// Some entry of `items` belongs to dataset `d`.
pub open spec fn dataset_listed(items: Seq<ZfsListItem>, d: Seq<char>) -> bool {
    dataset_listed_upto(items, items.len() as int, d)
}

/// `os` projects a snapshot of dataset `d` among the first `upto` of `items`.
pub open spec fn organised_from_upto(
    items: Seq<ZfsListItem>,
    upto: int,
    d: Seq<char>,
    os: OrganisedSnapshot,
) -> bool {
    exists|k: int|
        0 <= k < upto && (match #[trigger] items[k] {
            ZfsListItem::Snapshot(s) => s.dataset@ == d && snap_matches(s, os),
            ZfsListItem::Dataset(_) => false,
        })
}

/// `os` projects a snapshot of dataset `d` listed in `items`.
pub open spec fn organised_from(items: Seq<ZfsListItem>, d: Seq<char>, os: OrganisedSnapshot) -> bool {
    organised_from_upto(items, items.len() as int, d, os)
}

/// A snapshot of dataset `d` with creation id `txg` stands among the first
/// `upto` of `items`.
pub open spec fn txg_listed_upto(items: Seq<ZfsListItem>, upto: int, d: Seq<char>, txg: u64) -> bool {
    exists|k: int|
        0 <= k < upto && (match #[trigger] items[k] {
            ZfsListItem::Snapshot(s) => s.dataset@ == d && s.createtxg == txg,
            ZfsListItem::Dataset(_) => false,
        })
}

/// A snapshot of dataset `d` with creation id `txg` is listed in `items`.
pub open spec fn txg_listed(items: Seq<ZfsListItem>, d: Seq<char>, txg: u64) -> bool {
    txg_listed_upto(items, items.len() as int, d, txg)
}

/// Insert `os` into a strictly createtxg-ordered history, keeping the order;
/// a history never holds two snapshots with one creation id, so when the id
/// is already present the history is left as it is.
fn insert_snapshot(snaps: &mut Vec<OrganisedSnapshot>, os: OrganisedSnapshot)
    requires
        sorted_by_createtxg(old(snaps)@),
    ensures
        sorted_by_createtxg(final(snaps)@),
        txg_in(old(snaps)@, os.createtxg) ==> final(snaps)@ == old(snaps)@,
        txg_in(final(snaps)@, os.createtxg),
        forall|txg: u64| txg_in(old(snaps)@, txg) ==> txg_in(final(snaps)@, txg),
        forall|k: int| 0 <= k < final(snaps)@.len() ==> final(snaps)@[k] == os || old(
            snaps,
        )@.contains(final(snaps)@[k]),
{
    let mut pos: usize = 0;
    while pos < snaps.len() && snaps[pos].createtxg < os.createtxg
        invariant
            pos <= snaps@.len(),
            snaps@ == old(snaps)@,
            forall|k: int| 0 <= k < pos ==> snaps@[k].createtxg < os.createtxg,
        decreases snaps@.len() - pos,
    {
        pos = pos + 1;
    }
    if pos < snaps.len() && snaps[pos].createtxg == os.createtxg {
        return ;
    }
    proof {
        assert(!txg_in(snaps@, os.createtxg)) by {
            if txg_in(snaps@, os.createtxg) {
                let k0 = choose|k0: int|
                    0 <= k0 < snaps@.len() && snaps@[k0].createtxg == os.createtxg;
                if k0 < pos {
                } else {
                    assert(pos < snaps@.len());
                    if pos < k0 {
                        assert(snaps@[pos as int].createtxg < snaps@[k0].createtxg);
                    }
                }
            }
        }
    }
    let ghost before = snaps@;
    snaps.insert(pos, os);
    proof {
        assert(snaps@ == before.insert(pos as int, os));
        assert forall|i: int, j: int| 0 <= i < j < snaps@.len() implies snaps@[i].createtxg
            < snaps@[j].createtxg by {
            let pi = pos as int;
            if i < pi && j == pi {
                if pi < before.len() {
                }
            } else if i == pi && j > pi {
                assert(snaps@[j] == before[j - 1]);
                assert(before[pi] == snaps@[pi + 1]);
                assert(before[pi].createtxg > os.createtxg);
                if j > pi + 1 {
                    assert(before[pi].createtxg <= before[j - 1].createtxg);
                }
            } else if i < pi && j > pi {
                assert(snaps@[j] == before[j - 1]);
            } else if i > pi && j > pi {
                assert(snaps@[i] == before[i - 1]);
                assert(snaps@[j] == before[j - 1]);
            }
        }
        assert(snaps@[pos as int] == os);
        assert forall|txg: u64| txg_in(before, txg) implies txg_in(snaps@, txg) by {
            if txg_in(before, txg) {
                let k0 = choose|k0: int| 0 <= k0 < before.len() && before[k0].createtxg == txg;
                if k0 < pos as int {
                    assert(snaps@[k0].createtxg == txg);
                } else {
                    assert(snaps@[k0 + 1] == before[k0]);
                }
            }
        }
        assert forall|k: int| 0 <= k < snaps@.len() implies snaps@[k] == os || before.contains(
            snaps@[k],
        ) by {
            if k < pos as int {
                assert(snaps@[k] == before[k]);
            } else if k > pos as int {
                assert(snaps@[k] == before[k - 1]);
            }
        }
    }
}

/// Some entry of `names` has the text `d`.
pub open spec fn names_has(names: Seq<DatasetName>, d: Seq<char>) -> bool {
    exists|m: int| 0 <= m < names.len() && names[m]@ == d
}

fn names_contains(names: &Vec<DatasetName>, d: &DatasetName) -> (r: bool)
    ensures
        r == names_has(names@, d@),
{
    let mut m: usize = 0;
    while m < names.len()
        invariant
            m <= names@.len(),
            forall|m2: int| 0 <= m2 < m ==> names@[m2]@ != d@,
        decreases names@.len() - m,
    {
        if names[m] == *d {
            return true;
        }
        m = m + 1;
    }
    false
}

/// A mapping from dataset name to the dataset's ordered, duplicate-free
/// snapshot history, built once per host per run and immutable thereafter.
pub struct OrganisedSnapshots {
    pub datasets: Vec<(DatasetName, Vec<OrganisedSnapshot>)>,
}

impl OrganisedSnapshots {
    /// A history is kept for dataset `d`.
    pub open spec fn has_dataset(&self, d: Seq<char>) -> bool {
        exists|n: int| 0 <= n < self.datasets@.len() && (#[trigger] self.datasets@[n]).0@ == d
    }

    /// The history kept for dataset `d` (meaningful when it has one).
    pub open spec fn spec_history(&self, d: Seq<char>) -> Seq<OrganisedSnapshot> {
        let n = choose|n: int|
            0 <= n < self.datasets@.len() && (#[trigger] self.datasets@[n]).0@ == d;
        self.datasets@[n].1@
    }

    /// Each dataset appears once, and each history is strictly ordered by
    /// creation id.
    pub open spec fn wf(&self) -> bool {
        &&& forall|m: int, n: int|
            0 <= m < n < self.datasets@.len() ==> (#[trigger] self.datasets@[m]).0@ != (
            #[trigger] self.datasets@[n]).0@
        &&& forall|n: int|
            0 <= n < self.datasets@.len() ==> sorted_by_createtxg(
                (#[trigger] self.datasets@[n]).1@,
            )
    }

    pub fn contains_dataset(&self, name: &DatasetName) -> (r: bool)
        ensures
            r == self.has_dataset(name@),
    {
        let mut n: usize = 0;
        while n < self.datasets.len()
            invariant
                n <= self.datasets@.len(),
                forall|n2: int| 0 <= n2 < n ==> (#[trigger] self.datasets@[n2]).0@ != name@,
            decreases self.datasets@.len() - n,
        {
            if self.datasets[n].0 == *name {
                return true;
            }
            n = n + 1;
        }
        false
    }

    pub fn get(&self, name: &DatasetName) -> (r: Option<&Vec<OrganisedSnapshot>>)
        ensures
            r is Some <==> self.has_dataset(name@),
            r matches Some(v) ==> exists|n: int|
                0 <= n < self.datasets@.len() && (#[trigger] self.datasets@[n]).0@ == name@
                    && v@ == self.datasets@[n].1@,
    {
        let mut n: usize = 0;
        while n < self.datasets.len()
            invariant
                n <= self.datasets@.len(),
                forall|n2: int| 0 <= n2 < n ==> (#[trigger] self.datasets@[n2]).0@ != name@,
            decreases self.datasets@.len() - n,
        {
            if self.datasets[n].0 == *name {
                return Some(&self.datasets[n].1);
            }
            n = n + 1;
        }
        None
    }

    /// Group every listed snapshot under its owning dataset, projected to
    /// [`OrganisedSnapshot`] and ordered by creation id.  A dataset entry
    /// with no snapshots keeps an empty history.  The result does not depend
    /// on the listing's order beyond the order of the dataset names
    /// themselves: which snapshots each history holds is fixed by the
    /// listing's contents alone.
    pub fn from(value: ZfsListOutput) -> (r: Self)
        ensures
            r.wf(),
            // exactly the listed dataset names
            forall|n: int|
                0 <= n < r.datasets@.len() ==> dataset_listed(
                    value.output@,
                    (#[trigger] r.datasets@[n]).0@,
                ),
            forall|d: Seq<char>| #[trigger] dataset_listed(value.output@, d) ==> r.has_dataset(d),
            // every kept snapshot projects a listed snapshot of its dataset
            forall|n: int, k: int|
                0 <= n < r.datasets@.len() && 0 <= k < r.datasets@[n].1@.len()
                    ==> organised_from(
                    value.output@,
                    r.datasets@[n].0@,
                    #[trigger] r.datasets@[n].1@[k],
                ),
            // every listed creation id of the dataset is represented
            forall|n: int, txg: u64|
                0 <= n < r.datasets@.len() && #[trigger] txg_listed(
                    value.output@,
                    (#[trigger] r.datasets@[n]).0@,
                    txg,
                ) ==> txg_in(r.datasets@[n].1@, txg),
    {
        let items = &value.output;
        // First pass: collect each dataset name once, in order of first
        // appearance.
        let mut names: Vec<DatasetName> = Vec::new();
        let mut idx: usize = 0;
        while idx < items.len()
            invariant
                idx <= items@.len(),
                forall|m: int, n: int| 0 <= m < n < names@.len() ==> names@[m]@ != names@[n]@,
                forall|m: int|
                    0 <= m < names@.len() ==> dataset_listed_upto(
                        items@,
                        idx as int,
                        (#[trigger] names@[m])@,
                    ),
                forall|d: Seq<char>|
                    #[trigger] dataset_listed_upto(items@, idx as int, d) ==> names_has(names@, d),
            decreases items@.len() - idx,
        {
            let d = items[idx].dataset_name();
            let ghost names0 = names@;
            let had = names_contains(&names, d);
            if !had {
                names.push(d.clone());
            }
            proof {
                assert(forall|m: int| 0 <= m < names0.len() ==> names@[m] == names0[m]);
                assert forall|m: int, n2: int| 0 <= m < n2 < names@.len() implies names@[m]@
                    != names@[n2]@ by {
                    if n2 == names0.len() {
                        assert(!names_has(names0, d@));
                        assert(names0[m]@ != d@);
                    }
                }
                assert forall|m: int|
                    0 <= m < names@.len() implies dataset_listed_upto(
                    items@,
                    idx + 1,
                    (#[trigger] names@[m])@,
                ) by {
                    if m < names0.len() {
                        let k0 = choose|k0: int|
                            0 <= k0 < idx && (#[trigger] items@[k0]).spec_dataset_name()
                                == names0[m]@;
                        assert(items@[k0].spec_dataset_name() == names@[m]@);
                    } else {
                        assert(names@[m]@ == d@);
                        assert(items@[idx as int].spec_dataset_name() == names@[m]@);
                    }
                }
                assert forall|d2: Seq<char>|
                    #[trigger] dataset_listed_upto(items@, idx + 1, d2) implies names_has(
                    names@,
                    d2,
                ) by {
                    let k0 = choose|k0: int|
                        0 <= k0 < idx + 1 && (#[trigger] items@[k0]).spec_dataset_name() == d2;
                    if k0 < idx {
                        assert(dataset_listed_upto(items@, idx as int, d2));
                        assert(names_has(names0, d2));
                        let m0 = choose|m0: int| 0 <= m0 < names0.len() && names0[m0]@ == d2;
                        assert(names@[m0]@ == d2);
                    } else {
                        assert(d@ == d2);
                        if had {
                            let m0 = choose|m0: int| 0 <= m0 < names0.len() && names0[m0]@ == d@;
                            assert(names@[m0]@ == d2);
                        } else {
                            assert(names@[names0.len() as int]@ == d2);
                        }
                    }
                }
            }
            idx = idx + 1;
        }
        // Second pass: build each dataset's ordered history.
        let mut datasets: Vec<(DatasetName, Vec<OrganisedSnapshot>)> = Vec::new();
        let mut n: usize = 0;
        while n < names.len()
            invariant
                n <= names@.len(),
                datasets@.len() == n,
                forall|m: int, n2: int| 0 <= m < n2 < names@.len() ==> names@[m]@ != names@[n2]@,
                forall|m: int|
                    0 <= m < names@.len() ==> dataset_listed(items@, (#[trigger] names@[m])@),
                forall|d: Seq<char>| #[trigger] dataset_listed(items@, d) ==> names_has(names@, d),
                forall|m: int| 0 <= m < n ==> (#[trigger] datasets@[m]).0@ == names@[m]@,
                forall|m: int|
                    0 <= m < n ==> sorted_by_createtxg((#[trigger] datasets@[m]).1@),
                forall|m: int, k: int|
                    0 <= m < n && 0 <= k < datasets@[m].1@.len() ==> organised_from(
                        items@,
                        datasets@[m].0@,
                        #[trigger] datasets@[m].1@[k],
                    ),
                forall|m: int, txg: u64|
                    0 <= m < n && #[trigger] txg_listed(
                        items@,
                        (#[trigger] datasets@[m]).0@,
                        txg,
                    ) ==> txg_in(datasets@[m].1@, txg),
            decreases names@.len() - n,
        {
            let mut snaps: Vec<OrganisedSnapshot> = Vec::new();
            let mut idx2: usize = 0;
            while idx2 < items.len()
                invariant
                    idx2 <= items@.len(),
                    n < names@.len(),
                    sorted_by_createtxg(snaps@),
                    forall|k: int|
                        0 <= k < snaps@.len() ==> organised_from_upto(
                            items@,
                            idx2 as int,
                            names@[n as int]@,
                            #[trigger] snaps@[k],
                        ),
                    forall|txg: u64|
                        #[trigger] txg_listed_upto(items@, idx2 as int, names@[n as int]@, txg)
                            ==> txg_in(snaps@, txg),
                decreases items@.len() - idx2,
            {
                let ghost prev = snaps@;
                match &items[idx2] {
                    ZfsListItem::Snapshot(s) => {
                        if s.dataset == names[n] {
                            let os = OrganisedSnapshot {
                                snapshot_name: s.snapshot_name.clone(),
                                full_name: s.name.clone(),
                                createtxg: s.createtxg,
                            };
                            proof {
                                assert(snap_matches(*s, os));
                            }
                            insert_snapshot(&mut snaps, os);
                            proof {
                                assert forall|k: int| 0 <= k < snaps@.len() implies
                                    organised_from_upto(
                                    items@,
                                    idx2 + 1,
                                    names@[n as int]@,
                                    #[trigger] snaps@[k],
                                ) by {
                                    if snaps@[k] == os {
                                        assert(match items@[idx2 as int] {
                                            ZfsListItem::Snapshot(s2) => s2.dataset@
                                                == names@[n as int]@ && snap_matches(
                                                s2,
                                                snaps@[k],
                                            ),
                                            ZfsListItem::Dataset(_) => false,
                                        });
                                    } else {
                                        assert(prev.contains(snaps@[k]));
                                        let k0 = choose|k0: int|
                                            0 <= k0 < prev.len() && prev[k0] == snaps@[k];
                                        assert(organised_from_upto(
                                            items@,
                                            idx2 as int,
                                            names@[n as int]@,
                                            prev[k0],
                                        ));
                                        let k1 = choose|k1: int|
                                            0 <= k1 < idx2 as int && (match #[trigger] items@[k1] {
                                                ZfsListItem::Snapshot(s2) => s2.dataset@
                                                    == names@[n as int]@ && snap_matches(
                                                    s2,
                                                    prev[k0],
                                                ),
                                                ZfsListItem::Dataset(_) => false,
                                            });
                                        assert(match items@[k1] {
                                            ZfsListItem::Snapshot(s2) => s2.dataset@
                                                == names@[n as int]@ && snap_matches(
                                                s2,
                                                snaps@[k],
                                            ),
                                            ZfsListItem::Dataset(_) => false,
                                        });
                                    }
                                }
                            }
                        }
                    },
                    ZfsListItem::Dataset(_) => {},
                }
                proof {
                    assert forall|k: int| 0 <= k < snaps@.len() implies organised_from_upto(
                        items@,
                        idx2 + 1,
                        names@[n as int]@,
                        #[trigger] snaps@[k],
                    ) by {
                        if organised_from_upto(items@, idx2 as int, names@[n as int]@, snaps@[k]) {
                            let k1 = choose|k1: int|
                                0 <= k1 < idx2 as int && (match #[trigger] items@[k1] {
                                    ZfsListItem::Snapshot(s2) => s2.dataset@ == names@[n as int]@
                                        && snap_matches(s2, snaps@[k]),
                                    ZfsListItem::Dataset(_) => false,
                                });
                            assert(0 <= k1 < idx2 + 1);
                        }
                    }
                    assert forall|txg: u64|
                        #[trigger] txg_listed_upto(items@, idx2 + 1, names@[n as int]@, txg)
                            implies txg_in(snaps@, txg) by {
                        let k1 = choose|k1: int|
                            0 <= k1 < idx2 + 1 && (match #[trigger] items@[k1] {
                                ZfsListItem::Snapshot(s2) => s2.dataset@ == names@[n as int]@
                                    && s2.createtxg == txg,
                                ZfsListItem::Dataset(_) => false,
                            });
                        if k1 < idx2 as int {
                            assert(txg_listed_upto(items@, idx2 as int, names@[n as int]@, txg));
                            assert(txg_in(prev, txg));
                        }
                    }
                }
                idx2 = idx2 + 1;
            }
            datasets.push((names[n].clone(), snaps));
            n = n + 1;
        }
        let r = OrganisedSnapshots { datasets };
        proof {
            assert forall|d: Seq<char>| #[trigger] dataset_listed(items@, d) implies r.has_dataset(
                d,
            ) by {
                let m0 = choose|m0: int| 0 <= m0 < names@.len() && names@[m0]@ == d;
                assert((r.datasets@[m0]).0@ == d);
            }
        }
        r
    }
}

/// In a well-formed inventory, the history kept under a dataset's name is
/// the one entry bearing that name.
pub proof fn lemma_history_of_entry(os: &OrganisedSnapshots, n: int)
    requires
        os.wf(),
        0 <= n < os.datasets@.len(),
    ensures
        os.spec_history(os.datasets@[n].0@) == os.datasets@[n].1@,
{
    let d = os.datasets@[n].0@;
    let n2 = choose|n2: int| 0 <= n2 < os.datasets@.len() && (#[trigger] os.datasets@[n2]).0@ == d;
    assert(os.datasets@[n].0@ == d);
    if n2 < n {
        assert(os.datasets@[n2].0@ != os.datasets@[n].0@);
    } else if n < n2 {
        assert(os.datasets@[n].0@ != os.datasets@[n2].0@);
    }
}

/// Whether a match exists is symmetric in which side is called `from` and
/// which `against`; `youngest_common_ancestor` then hands back the matching
/// element of each respective side, as its postcondition states.
pub proof fn lemma_common_name_symmetric(a: Seq<OrganisedSnapshot>, b: Seq<OrganisedSnapshot>)
    ensures
        common_name_exists(a, b) <==> common_name_exists(b, a),
{
    if common_name_exists(a, b) {
        let (i0, j0) = choose|i0: int, j0: int|
            #![trigger a[i0], b[j0]]
            0 <= i0 < a.len() && 0 <= j0 < b.len() && a[i0].snapshot_name@ == b[j0].snapshot_name@;
        assert(0 <= j0 < b.len() && 0 <= i0 < a.len() && b[j0].snapshot_name@
            == a[i0].snapshot_name@);
    }
    if common_name_exists(b, a) {
        let (i0, j0) = choose|i0: int, j0: int|
            #![trigger b[i0], a[j0]]
            0 <= i0 < b.len() && 0 <= j0 < a.len() && b[i0].snapshot_name@ == a[j0].snapshot_name@;
        assert(0 <= j0 < a.len() && 0 <= i0 < b.len() && a[j0].snapshot_name@
            == b[i0].snapshot_name@);
    }
}

} // verus!
