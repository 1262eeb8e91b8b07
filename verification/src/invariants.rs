//! What holds of the state of every replica, whatever it has done and
//! whatever it has taken in.

use vstd::prelude::*;
use crate::change::ChangeView;
use crate::record::deleted_column;
use crate::state::{clock_after, State};
use crate::version::ColumnVersion;

verus! {

impl<K, V> State<K, V> {
    /// Deleted ids have a tombstone for a record, and only deleted records
    /// hold the reserved column.
    pub open spec fn sealed(self) -> bool {
        &&& forall|id: K| #[trigger]
            self.tombstones.contains(id) ==> self.records.contains_key(id)
                && self.records[id].is_tombstone()
        &&& forall|id: K| #[trigger]
            self.has_cell(id, deleted_column()) ==> self.tombstones.contains(id)
    }

    /// Sealed, and every generation is at least 1.
    pub open spec fn well_formed(self) -> bool {
        &&& self.sealed()
        &&& forall|id: K, name: Seq<char>| #[trigger]
            self.has_cell(id, name) ==> self.records[id].versions[name].col_version >= 1
    }

    /// No stored column was stamped later than `clock`.
    pub open spec fn stamped_within(self, clock: nat) -> bool {
        forall|id: K, name: Seq<char>| #[trigger]
            self.has_cell(id, name) ==> self.records[id].versions[name].db_version <= clock
    }

    /// Every stored column was last written by site `site_id`.
    pub open spec fn authored_by(self, site_id: u64) -> bool {
        forall|id: K, name: Seq<char>| #[trigger]
            self.has_cell(id, name) ==> self.records[id].versions[name].site_id == site_id
    }

    /// Every column of every live record has a value.
    pub open spec fn complete(self) -> bool {
        forall|id: K| #[trigger]
            self.is_live(id) ==> self.records[id].fields.dom() =~= self.records[id].versions.dom()
    }

    /// Every live record has at least one column.
    pub open spec fn populated(self) -> bool {
        forall|id: K| #[trigger] self.is_live(id) ==> exists|name: Seq<char>| self.has_cell(id, name)
    }

    /// Well formed, and every column of every live record has a value: the
    /// states that replicas reach when callers keep off the reserved column
    /// name.
    pub open spec fn regular(self) -> bool {
        self.well_formed() && self.complete()
    }

    /// The states between which convergence is owed: regular, and no live
    /// record without a column.
    pub open spec fn syncable(self) -> bool {
        self.regular() && self.populated()
    }
}

/// Every change of the batch carries a generation of at least 1.
pub open spec fn generations_start_at_one<K, V>(batch: Seq<ChangeView<K, V>>) -> bool {
    forall|i: int| 0 <= i < batch.len() ==> (#[trigger] batch[i]).version.col_version >= 1
}

/// Every change of the batch that is not a deletion carries a value.
pub open spec fn values_are_present<K, V>(batch: Seq<ChangeView<K, V>>) -> bool {
    forall|i: int|
        0 <= i < batch.len() ==> (#[trigger] batch[i]).is_deletion() || batch[i].value is Some
}

/// In a sealed state an id is deleted if and only if its record has
/// the shape of a tombstone.
pub proof fn lemma_tombstones_are_the_tombstone_records<K, V>(state: State<K, V>, id: K)
    requires
        state.sealed(),
    ensures
        state.tombstones.contains(id) <==> state.records.contains_key(id)
            && state.records[id].is_tombstone(),
{
    if state.records.contains_key(id) && state.records[id].is_tombstone() {
        assert(state.has_cell(id, deleted_column()));
    }
}

/// The empty state has every one of these properties.
pub proof fn lemma_empty_is_syncable<K, V>(clock: nat, site_id: u64)
    ensures
        State::<K, V>::empty().syncable(),
        State::<K, V>::empty().stamped_within(clock),
        State::<K, V>::empty().authored_by(site_id),
{
}

/// What a local insert keeps: the stamps stay within the clock; the state
/// stays sealed, and well formed, when the fields keep off the reserved
/// column name; it stays complete; and it stays populated when there is a
/// field at all.
pub proof fn lemma_insert_keeps_invariants<K, V>(
    state: State<K, V>,
    clock: nat,
    id: K,
    fields: Map<Seq<char>, V>,
    db_version: u64,
    site_id: u64,
)
    requires
        !state.tombstones.contains(id),
    ensures
        state.stamped_within(clock) && clock <= db_version ==> state.inserted(
            id,
            fields,
            db_version,
            site_id,
        ).stamped_within(db_version as nat),
        state.sealed() && !fields.contains_key(deleted_column()) ==> state.inserted(
            id,
            fields,
            db_version,
            site_id,
        ).sealed(),
        state.well_formed() && !fields.contains_key(deleted_column()) ==> state.inserted(
            id,
            fields,
            db_version,
            site_id,
        ).well_formed(),
        state.complete() ==> state.inserted(id, fields, db_version, site_id).complete(),
        state.authored_by(site_id) ==> state.inserted(id, fields, db_version, site_id).authored_by(
            site_id,
        ),
        state.populated() && (exists|name: Seq<char>| fields.contains_key(name))
            ==> state.inserted(id, fields, db_version, site_id).populated(),
{
    let after = state.inserted(id, fields, db_version, site_id);
    assert forall|other: K, name: Seq<char>| #[trigger]
        after.has_cell(other, name) && other != id implies state.has_cell(other, name)
        && after.records[other] == state.records[other] by {}
    if state.sealed() && !fields.contains_key(deleted_column()) {
        assert forall|other: K| #[trigger] after.tombstones.contains(other) implies after.records.contains_key(
            other,
        ) && after.records[other].is_tombstone() by {}
    }
    if state.complete() {
        assert forall|other: K| #[trigger] after.is_live(other) implies after.records[other].fields.dom()
            =~= after.records[other].versions.dom() by {
            if other != id {
                assert(state.is_live(other));
            }
        }
    }
    if state.populated() && (exists|name: Seq<char>| fields.contains_key(name)) {
        assert forall|other: K| #[trigger] after.is_live(other) implies exists|name: Seq<char>|
            after.has_cell(other, name) by {
            if other != id {
                assert(state.is_live(other));
                let name = choose|name: Seq<char>| state.has_cell(other, name);
                assert(after.has_cell(other, name));
            } else {
                let name = choose|name: Seq<char>| fields.contains_key(name);
                assert(after.has_cell(id, name));
            }
        }
    }
}

/// What a local update of a live record keeps: the stamps stay within the
/// clock; the state stays sealed when the updates keep off the reserved
/// column name, and well formed when in addition no counter overflows; it
/// stays complete and populated.
pub proof fn lemma_update_keeps_invariants<K, V>(
    state: State<K, V>,
    clock: nat,
    id: K,
    updates: Map<Seq<char>, V>,
    db_version: u64,
    site_id: u64,
)
    requires
        state.is_live(id),
    ensures
        state.stamped_within(clock) && clock <= db_version ==> state.updated(
            id,
            updates,
            db_version,
            site_id,
        ).stamped_within(db_version as nat),
        state.sealed() && !updates.contains_key(deleted_column()) ==> state.updated(
            id,
            updates,
            db_version,
            site_id,
        ).sealed(),
        state.well_formed() && !updates.contains_key(deleted_column())
            && state.records[id].can_update(updates) ==> state.updated(
            id,
            updates,
            db_version,
            site_id,
        ).well_formed(),
        state.complete() ==> state.updated(id, updates, db_version, site_id).complete(),
        state.authored_by(site_id) ==> state.updated(id, updates, db_version, site_id).authored_by(
            site_id,
        ),
        state.populated() ==> state.updated(id, updates, db_version, site_id).populated(),
{
    let after = state.updated(id, updates, db_version, site_id);
    assert forall|other: K, name: Seq<char>| #[trigger]
        after.has_cell(other, name) && (other != id || !updates.contains_key(
            name,
        )) implies state.has_cell(other, name) && after.records[other].versions[name]
        == state.records[other].versions[name] by {}
    if state.sealed() && !updates.contains_key(deleted_column()) {
        assert forall|other: K| #[trigger] after.tombstones.contains(other) implies after.records.contains_key(
            other,
        ) && after.records[other].is_tombstone() by {}
    }
    if state.well_formed() && state.records[id].can_update(updates) {
        assert forall|other: K, name: Seq<char>| #[trigger]
            after.has_cell(other, name) implies after.records[other].versions[name].col_version
            >= 1 by {
            if other == id && updates.contains_key(name) && state.records[id].versions.contains_key(
                name,
            ) {
            }
        }
    }
    if state.complete() {
        assert forall|other: K| #[trigger] after.is_live(other) implies after.records[other].fields.dom()
            =~= after.records[other].versions.dom() by {
            assert(state.is_live(other));
        }
    }
    if state.populated() {
        assert forall|other: K| #[trigger] after.is_live(other) implies exists|name: Seq<char>|
            after.has_cell(other, name) by {
            assert(state.is_live(other));
            let name = choose|name: Seq<char>| state.has_cell(other, name);
            assert(after.has_cell(other, name));
        }
    }
}

/// What deleting a record keeps: the stamps stay within the clock; the
/// state stays sealed, and well formed when the deletion has a generation
/// of 1 or more; it stays complete and populated.
pub proof fn lemma_bury_keeps_invariants<K, V>(
    state: State<K, V>,
    clock: nat,
    id: K,
    version: ColumnVersion,
)
    ensures
        state.stamped_within(clock) && clock <= version.db_version ==> state.buried(
            id,
            version,
        ).stamped_within(version.db_version as nat),
        state.sealed() ==> state.buried(id, version).sealed(),
        state.well_formed() && version.col_version >= 1 ==> state.buried(id, version).well_formed(),
        state.complete() ==> state.buried(id, version).complete(),
        state.authored_by(version.site_id) ==> state.buried(id, version).authored_by(
            version.site_id,
        ),
        state.populated() ==> state.buried(id, version).populated(),
{
    let after = state.buried(id, version);
    assert forall|other: K, name: Seq<char>| #[trigger]
        after.has_cell(other, name) && other != id implies state.has_cell(other, name)
        && after.records[other] == state.records[other] by {}
    if state.sealed() {
        assert forall|other: K| #[trigger] after.tombstones.contains(other) implies after.records.contains_key(
            other,
        ) && after.records[other].is_tombstone() by {}
    }
    if state.complete() {
        assert forall|other: K| #[trigger] after.is_live(other) implies after.records[other].fields.dom()
            =~= after.records[other].versions.dom() by {
            assert(state.is_live(other));
        }
    }
    if state.populated() {
        assert forall|other: K| #[trigger] after.is_live(other) implies exists|name: Seq<char>|
            after.has_cell(other, name) by {
            assert(state.is_live(other));
            let name = choose|name: Seq<char>| state.has_cell(other, name);
            assert(after.has_cell(other, name));
        }
    }
}

/// What taking in a change keeps: the stamps stay within a clock that has
/// moved past the change; the state stays sealed, and well formed when the
/// change has a generation of 1 or more; it stays complete when the change
/// is a deletion or carries a value; and it stays populated.
pub proof fn lemma_apply_keeps_invariants<K, V>(
    state: State<K, V>,
    clock: nat,
    change: ChangeView<K, V>,
    now: nat,
)
    ensures
        state.stamped_within(clock) && clock <= now && change.version.db_version <= now
            ==> state.apply(change).stamped_within(now),
        state.sealed() ==> state.apply(change).sealed(),
        state.well_formed() && change.version.col_version >= 1 ==> state.apply(
            change,
        ).well_formed(),
        state.complete() && (change.is_deletion() || change.value is Some) ==> state.apply(
            change,
        ).complete(),
        state.populated() ==> state.apply(change).populated(),
{
    let after = state.apply(change);
    let id = change.record_id;
    if after != state {
        assert forall|other: K, name: Seq<char>| #[trigger]
            after.has_cell(other, name) && (other != id || (!change.is_deletion() && name
                != change.col_name)) implies state.has_cell(other, name)
            && after.records[other].versions[name] == state.records[other].versions[name] by {}
        if state.sealed() {
            assert forall|other: K| #[trigger] after.tombstones.contains(other) implies after.records.contains_key(
                other,
            ) && after.records[other].is_tombstone() by {}
            assert forall|other: K| #[trigger] after.has_cell(other, deleted_column()) implies after.tombstones.contains(
                other,
            ) by {}
        }
        if state.complete() && (change.is_deletion() || change.value is Some) {
            assert forall|other: K| #[trigger] after.is_live(other) implies after.records[other].fields.dom()
                =~= after.records[other].versions.dom() by {
                if other != id {
                    assert(state.is_live(other));
                } else if state.records.contains_key(id) {
                    assert(state.is_live(id));
                }
            }
        }
        if state.populated() {
            assert forall|other: K| #[trigger] after.is_live(other) implies exists|name: Seq<char>|
                after.has_cell(other, name) by {
                if other != id {
                    assert(state.is_live(other));
                    let name = choose|name: Seq<char>| state.has_cell(other, name);
                    assert(after.has_cell(other, name));
                } else {
                    assert(after.has_cell(id, change.col_name));
                }
            }
        }
    }
}

/// What taking in a batch keeps: as for one change, with the conditions on
/// every change of the batch.
pub proof fn lemma_apply_all_keeps_invariants<K, V>(
    state: State<K, V>,
    clock: nat,
    batch: Seq<ChangeView<K, V>>,
)
    ensures
        state.stamped_within(clock) ==> state.apply_all(batch).stamped_within(
            clock_after(clock, batch),
        ),
        state.sealed() ==> state.apply_all(batch).sealed(),
        state.well_formed() && generations_start_at_one(batch) ==> state.apply_all(
            batch,
        ).well_formed(),
        state.complete() && values_are_present(batch) ==> state.apply_all(batch).complete(),
        state.populated() ==> state.apply_all(batch).populated(),
    decreases batch.len(),
{
    if batch.len() > 0 {
        let front = batch.drop_last();
        assert forall|i: int| 0 <= i < front.len() implies #[trigger] front[i] == batch[i] by {}
        if generations_start_at_one(batch) {
            assert(generations_start_at_one(front)) by {
                assert forall|i: int| 0 <= i < front.len() implies (#[trigger] front[i]).version.col_version
                    >= 1 by {}
            }
        }
        if values_are_present(batch) {
            assert(values_are_present(front)) by {
                assert forall|i: int| 0 <= i < front.len() implies (#[trigger] front[i]).is_deletion()
                    || front[i].value is Some by {}
            }
        }
        lemma_apply_all_keeps_invariants(state, clock, front);
        lemma_apply_keeps_invariants(
            state.apply_all(front),
            clock_after(clock, front),
            batch.last(),
            clock_after(clock, batch),
        );
    }
}

/// The changes that a state gives out are as good as the state: from a
/// well-formed state they carry generations of 1 or more, and from a sealed
/// and complete state every change that is not a deletion carries a value.
pub proof fn lemma_extracted_changes<K, V>(
    state: State<K, V>,
    watermark: u64,
    batch: Seq<ChangeView<K, V>>,
)
    requires
        state.extracted(watermark, batch),
    ensures
        state.well_formed() ==> generations_start_at_one(batch),
        state.sealed() && state.complete() ==> values_are_present(batch),
{
    assert forall|i: int| 0 <= i < batch.len() implies state.changes_since(watermark).contains(
        #[trigger] batch[i],
    ) by {}
    if state.well_formed() {
        assert forall|i: int| 0 <= i < batch.len() implies (#[trigger] batch[i]).version.col_version
            >= 1 by {}
    }
    if state.sealed() && state.complete() {
        assert forall|i: int| 0 <= i < batch.len() implies (#[trigger] batch[i]).is_deletion()
            || batch[i].value is Some by {
            let id = batch[i].record_id;
            if !state.tombstones.contains(id) {
                assert(state.is_live(id));
            }
        }
    }
}

} // verus!
