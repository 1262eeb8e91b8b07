//! What holds of every merge: a batch taken twice changes nothing the
//! second time, and a deleted record stays deleted.

use vstd::prelude::*;
use crate::change::ChangeView;
use crate::record::{deleted_column, RecordView};
use crate::invariants::lemma_apply_all_keeps_invariants;
use crate::state::{lemma_apply_all_step, State};
use crate::version::ColumnVersion;

verus! {

impl<K, V> State<K, V> {
    /// The state has nothing to take from `change`: either the record is
    /// deleted and the change is not a deletion, or the column is stored at
    /// a version that the change does not outrank.
    pub open spec fn covers(self, change: ChangeView<K, V>) -> bool {
        ||| self.tombstones.contains(change.record_id) && !change.is_deletion()
        ||| self.has_cell(change.record_id, change.col_name) && !change.version.outranks(
            self.records[change.record_id].versions[change.col_name],
        )
    }

    /// Every id that is deleted in `earlier` is deleted in `self`.
    pub open spec fn keeps_tombstones_of(self, earlier: State<K, V>) -> bool {
        forall|id: K| earlier.tombstones.contains(id) ==> self.tombstones.contains(id)
    }

    /// Every record that a change of the batch deletes is deleted in `self`.
    pub open spec fn buries_deletions_of(self, batch: Seq<ChangeView<K, V>>) -> bool {
        forall|i: int|
            0 <= i < batch.len() && (#[trigger] batch[i]).is_deletion()
                ==> self.tombstones.contains(batch[i].record_id)
    }

    /// The state covers every change of the batch.
    pub open spec fn covers_all(self, changes: Seq<ChangeView<K, V>>) -> bool {
        forall|i: int| 0 <= i < changes.len() ==> self.covers(#[trigger] changes[i])
    }
}

/// A change that the state covers leaves the state as it is.
pub proof fn lemma_covered_change_is_absorbed<K, V>(state: State<K, V>, change: ChangeView<K, V>)
    requires
        state.covers(change),
    ensures
        state.apply(change) == state,
{
}

/// Only a change that the state covers leaves the state as it is.
pub proof fn lemma_absorbed_change_is_covered<K, V>(state: State<K, V>, change: ChangeView<K, V>)
    requires
        state.apply(change) == state,
    ensures
        state.covers(change),
{
    let id = change.record_id;
    if state.accepts(change) && !(state.tombstones.contains(id) && !change.is_deletion()) {
        let after = state.apply(change);
        assert(after.records[id].versions[change.col_name] == change.version);
        assert(state.has_cell(id, change.col_name));
    }
}

/// Once a change has been applied, the state covers it.
pub proof fn lemma_applied_change_is_covered<K, V>(state: State<K, V>, change: ChangeView<K, V>)
    ensures
        state.apply(change).covers(change),
{
}

/// A state that covers a change still covers it after any other change.
pub proof fn lemma_cover_is_kept<K, V>(
    state: State<K, V>,
    change: ChangeView<K, V>,
    other: ChangeView<K, V>,
)
    requires
        state.covers(change),
    ensures
        state.apply(other).covers(change),
{
}

/// A state that covers a change still covers it after any batch.
pub proof fn lemma_cover_is_kept_by_batch<K, V>(
    state: State<K, V>,
    change: ChangeView<K, V>,
    batch: Seq<ChangeView<K, V>>,
)
    requires
        state.covers(change),
    ensures
        state.apply_all(batch).covers(change),
    decreases batch.len(),
{
    if batch.len() > 0 {
        lemma_cover_is_kept_by_batch(state, change, batch.drop_last());
        lemma_cover_is_kept(state.apply_all(batch.drop_last()), change, batch.last());
    }
}

/// After a batch the state covers every change of it.
pub proof fn lemma_applied_batch_is_covered<K, V>(state: State<K, V>, batch: Seq<ChangeView<K, V>>)
    ensures
        state.apply_all(batch).covers_all(batch),
    decreases batch.len(),
{
    if batch.len() > 0 {
        let before = state.apply_all(batch.drop_last());
        lemma_applied_batch_is_covered(state, batch.drop_last());
        lemma_applied_change_is_covered(before, batch.last());
        assert forall|i: int| 0 <= i < batch.len() implies state.apply_all(batch).covers(
            #[trigger] batch[i],
        ) by {
            if i < batch.len() - 1 {
                assert(batch.drop_last()[i] == batch[i]);
                lemma_cover_is_kept(before, batch[i], batch.last());
            }
        }
    }
}

/// A batch of changes that the state covers leaves the state as it is.
pub proof fn lemma_covered_batch_is_absorbed<K, V>(state: State<K, V>, batch: Seq<ChangeView<K, V>>)
    requires
        state.covers_all(batch),
    ensures
        state.apply_all(batch) == state,
    decreases batch.len(),
{
    if batch.len() > 0 {
        assert forall|i: int| 0 <= i < batch.drop_last().len() implies state.covers(
            #[trigger] batch.drop_last()[i],
        ) by {}
        lemma_covered_batch_is_absorbed(state, batch.drop_last());
        lemma_covered_change_is_absorbed(state, batch.last());
    }
}

/// Merging is idempotent: a batch that is taken in a second time changes
/// neither the records nor the tombstones.
pub proof fn lemma_merge_is_idempotent<K, V>(state: State<K, V>, batch: Seq<ChangeView<K, V>>)
    ensures
        state.apply_all(batch).apply_all(batch) == state.apply_all(batch),
{
    lemma_applied_batch_is_covered(state, batch);
    lemma_covered_batch_is_absorbed(state.apply_all(batch), batch);
}

/// Applying one batch after another is applying their concatenation.
pub proof fn lemma_apply_all_concat<K, V>(
    state: State<K, V>,
    first: Seq<ChangeView<K, V>>,
    second: Seq<ChangeView<K, V>>,
)
    ensures
        state.apply_all(first + second) == state.apply_all(first).apply_all(second),
    decreases second.len(),
{
    if second.len() > 0 {
        assert((first + second).drop_last() =~= first + second.drop_last());
        lemma_apply_all_concat(state, first, second.drop_last());
    }
}

/// Tombstones are permanent under merging: a record that is deleted stays
/// deleted whatever batch is taken in.
pub proof fn lemma_tombstones_are_kept<K, V>(state: State<K, V>, batch: Seq<ChangeView<K, V>>, id: K)
    requires
        state.tombstones.contains(id),
    ensures
        state.apply_all(batch).tombstones.contains(id),
    decreases batch.len(),
{
    if batch.len() > 0 {
        lemma_tombstones_are_kept(state, batch.drop_last(), id);
    }
}

/// A record that is deleted in a sealed state is a tombstone, without any
/// field, after any batch, whatever versions the changes for it carry.
pub proof fn lemma_tombstone_stays_a_tombstone<K, V>(
    state: State<K, V>,
    batch: Seq<ChangeView<K, V>>,
    id: K,
)
    requires
        state.sealed(),
        state.tombstones.contains(id),
    ensures
        state.apply_all(batch).tombstones.contains(id),
        state.apply_all(batch).records.contains_key(id),
        state.apply_all(batch).records[id].is_tombstone(),
{
    lemma_tombstones_are_kept(state, batch, id);
    lemma_apply_all_keeps_invariants(state, 0, batch);
}

/// Tombstones are permanent under local mutations too.
pub proof fn lemma_mutations_keep_tombstones<K, V>(
    state: State<K, V>,
    id: K,
    other: K,
    columns: Map<Seq<char>, V>,
    version: ColumnVersion,
)
    requires
        state.tombstones.contains(id),
    ensures
        state.inserted(other, columns, version.db_version, version.site_id).tombstones.contains(id),
        state.updated(other, columns, version.db_version, version.site_id).tombstones.contains(id),
        state.buried(other, version).tombstones.contains(id),
{
}

/// A batch that holds a deletion leaves the record deleted: it is among the
/// tombstones and its record is a tombstone, without any field.
pub proof fn lemma_deletion_buries<K, V>(state: State<K, V>, batch: Seq<ChangeView<K, V>>, i: int)
    requires
        state.sealed(),
        0 <= i < batch.len(),
        batch[i].is_deletion(),
    ensures
        state.apply_all(batch).tombstones.contains(batch[i].record_id),
        state.apply_all(batch).records.contains_key(batch[i].record_id),
        state.apply_all(batch).records[batch[i].record_id].is_tombstone(),
{
    let id = batch[i].record_id;
    let front = batch.take(i);
    let rest = batch.skip(i + 1);
    lemma_apply_all_keeps_invariants(state, 0, front);
    let middle = state.apply_all(front);
    lemma_apply_all_step(state, 0, batch, i);
    assert(batch =~= batch.take(i + 1) + rest);
    lemma_apply_all_concat(state, batch.take(i + 1), rest);
    lemma_tombstones_are_kept(middle.apply(batch[i]), rest, id);
    lemma_apply_all_keeps_invariants(state, 0, batch);
}

/// What a merge does to deleted records: those that were deleted stay so,
/// and in a sealed state those that the batch deletes are deleted, whatever
/// versions the other changes carry. The state stays sealed, so each of
/// them is a tombstone without any field.
pub proof fn lemma_merge_keeps_the_deleted<K, V>(state: State<K, V>, batch: Seq<ChangeView<K, V>>)
    ensures
        state.apply_all(batch).keeps_tombstones_of(state),
        state.sealed() ==> state.apply_all(batch).sealed() && state.apply_all(
            batch,
        ).buries_deletions_of(batch),
{
    let after = state.apply_all(batch);
    assert forall|id: K| state.tombstones.contains(id) implies after.tombstones.contains(id) by {
        lemma_tombstones_are_kept(state, batch, id);
    }
    if state.sealed() {
        lemma_apply_all_keeps_invariants(state, 0, batch);
        assert forall|i: int|
            0 <= i < batch.len() && (#[trigger] batch[i]).is_deletion() implies after.tombstones.contains(
            batch[i].record_id,
        ) by {
            lemma_deletion_buries(state, batch, i);
        }
    }
}

/// What a full pull does to deleted records: in sealed states, every record
/// that is deleted at the source is deleted at the target afterwards.
pub proof fn lemma_pull_keeps_the_deleted<K, V>(
    target: State<K, V>,
    source: State<K, V>,
    batch: Seq<ChangeView<K, V>>,
)
    requires
        target.sealed(),
        source.sealed(),
        source.extracted(0, batch),
    ensures
        target.apply_all(batch).keeps_tombstones_of(source),
{
    assert forall|id: K| source.tombstones.contains(id) implies target.apply_all(
        batch,
    ).tombstones.contains(id) by {
        lemma_tombstone_absorption(target, source, batch, id);
    }
}

/// Tombstones are absorbing: when a replica takes in everything that a
/// replica with record `id` deleted gives out, record `id` is deleted there
/// too and holds no field.
pub proof fn lemma_tombstone_absorption<K, V>(
    target: State<K, V>,
    source: State<K, V>,
    batch: Seq<ChangeView<K, V>>,
    id: K,
)
    requires
        target.sealed(),
        source.sealed(),
        source.tombstones.contains(id),
        source.extracted(0, batch),
    ensures
        target.apply_all(batch).tombstones.contains(id),
        target.apply_all(batch).records.contains_key(id),
        target.apply_all(batch).records[id].is_tombstone(),
{
    let deletion = source.change_of(id, deleted_column());
    assert(batch.to_set().contains(deletion));
    let i = choose|i: int| 0 <= i < batch.len() && batch[i] == deletion;
    lemma_deletion_buries(target, batch, i);
}

} // verus!
