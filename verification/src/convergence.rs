//! Why the order in which changes arrive does not matter: what a replica
//! holds after it has taken in the changes of a peer, stated cell by cell.

use vstd::prelude::*;
use crate::change::ChangeView;
use crate::laws::{
    lemma_absorbed_change_is_covered, lemma_applied_batch_is_covered, lemma_cover_is_kept_by_batch,
    lemma_covered_change_is_absorbed,
};
use crate::record::{deleted_column, RecordView};
use crate::state::State;

verus! {

impl<K, V> State<K, V> {
    /// `taken` holds the change that carries column `name` of record `id`.
    pub open spec fn gives(self, taken: Set<ChangeView<K, V>>, id: K, name: Seq<char>) -> bool {
        self.has_cell(id, name) && taken.contains(self.change_of(id, name))
    }

    /// `taken` holds a change of record `id`.
    pub open spec fn gives_some(self, taken: Set<ChangeView<K, V>>, id: K) -> bool {
        exists|name: Seq<char>| self.gives(taken, id, name)
    }

    /// Of column `name` of record `id`, the version that `source` gives in
    /// `taken` replaces what `self` holds.
    pub open spec fn yields_to(
        self,
        source: State<K, V>,
        taken: Set<ChangeView<K, V>>,
        id: K,
        name: Seq<char>,
    ) -> bool {
        source.gives(taken, id, name) && (!self.has_cell(id, name)
            || source.records[id].versions[name].outranks(self.records[id].versions[name]))
    }

    /// Of column `name` of record `id`, the version that `source` gives in
    /// `taken` replaces what `self` holds, and it comes with a value.
    pub open spec fn takes_value(
        self,
        source: State<K, V>,
        taken: Set<ChangeView<K, V>>,
        id: K,
        name: Seq<char>,
    ) -> bool {
        self.yields_to(source, taken, id, name) && source.records[id].fields.contains_key(name)
    }

    /// Record `id` after `self` has taken from `source` the changes in
    /// `taken`.
    pub open spec fn absorbed_record(
        self,
        source: State<K, V>,
        taken: Set<ChangeView<K, V>>,
        id: K,
    ) -> RecordView<V> {
        if source.tombstones.contains(id) {
            if self.yields_to(source, taken, id, deleted_column()) {
                RecordView::tombstone(source.records[id].versions[deleted_column()])
            } else {
                self.records[id]
            }
        } else if self.tombstones.contains(id) {
            self.records[id]
        } else {
            RecordView {
                fields: Map::new(
                    |name: Seq<char>|
                        self.record(id).fields.contains_key(name) || self.takes_value(
                            source,
                            taken,
                            id,
                            name,
                        ),
                    |name: Seq<char>|
                        if self.takes_value(source, taken, id, name) {
                            source.records[id].fields[name]
                        } else {
                            self.records[id].fields[name]
                        },
                ),
                versions: Map::new(
                    |name: Seq<char>|
                        self.has_cell(id, name) || source.gives(taken, id, name),
                    |name: Seq<char>|
                        if self.yields_to(source, taken, id, name) {
                            source.records[id].versions[name]
                        } else {
                            self.records[id].versions[name]
                        },
                ),
            }
        }
    }

    /// The state after `self` has taken from `source` the changes in
    /// `taken`, whatever the order: a deletion buries the record unless a
    /// deletion of higher rank is there already, a deleted record takes
    /// nothing else, and a live record takes each column that it lacks or
    /// that outranks its own: the version always, the value where there is
    /// one.
    pub open spec fn absorbed(self, source: State<K, V>, taken: Set<ChangeView<K, V>>) -> Self {
        State {
            records: Map::new(
                |id: K| self.records.contains_key(id) || source.gives_some(taken, id),
                |id: K| self.absorbed_record(source, taken, id),
            ),
            tombstones: Set::new(
                |id: K|
                    self.tombstones.contains(id) || (source.tombstones.contains(id) && source.gives(
                        taken,
                        id,
                        deleted_column(),
                    )),
            ),
        }
    }

    /// The state after `self` has taken in everything that `source` holds at
    /// or above `watermark`.
    pub open spec fn merged_with(self, source: State<K, V>, watermark: u64) -> Self {
        self.absorbed(source, source.changes_since(watermark))
    }

    /// Every change of the batch is one that `self` gives out.
    pub open spec fn gives_out(self, batch: Seq<ChangeView<K, V>>) -> bool {
        forall|i: int|
            0 <= i < batch.len() ==> self.changes_since(0).contains(#[trigger] batch[i])
    }
}

/// Taking nothing leaves the state as it is.
pub proof fn lemma_absorbed_nothing<K, V>(target: State<K, V>, source: State<K, V>)
    ensures
        target.absorbed(source, Set::empty()) == target,
{
    let taken = Set::<ChangeView<K, V>>::empty();
    let after = target.absorbed(source, taken);
    assert forall|id: K| #[trigger] after.records.contains_key(id) implies target.records.contains_key(
        id,
    ) && after.records[id] == target.records[id] by {
        let record = target.absorbed_record(source, taken, id);
        assert(record.fields =~= target.records[id].fields);
        assert(record.versions =~= target.records[id].versions);
    }
    assert(after.records =~= target.records);
    assert(after.tombstones =~= target.tombstones);
}

/// One more change from `source` is one more cell taken.
pub proof fn lemma_absorbed_step<K, V>(
    target: State<K, V>,
    source: State<K, V>,
    taken: Set<ChangeView<K, V>>,
    change: ChangeView<K, V>,
)
    requires
        target.sealed(),
        source.sealed(),
        source.changes_since(0).contains(change),
        !taken.contains(change),
    ensures
        target.absorbed(source, taken).apply(change) == target.absorbed(
            source,
            taken.insert(change),
        ),
{
    let id = change.record_id;
    let col = change.col_name;
    let more = taken.insert(change);
    let before = target.absorbed(source, taken);
    let stepped = before.apply(change);
    let after = target.absorbed(source, more);
    assert(source.gives(more, id, col));
    assert forall|other: K, name: Seq<char>| other != id || name != col implies source.gives(
        more,
        other,
        name,
    ) == source.gives(taken, other, name) by {}
    assert forall|other: K, name: Seq<char>| other != id || name != col implies target.yields_to(
        source,
        more,
        other,
        name,
    ) == target.yields_to(source, taken, other, name) by {}
    assert forall|other: K| other != id implies source.gives_some(more, other)
        == source.gives_some(taken, other) by {}
    if source.tombstones.contains(id) {
        if !before.accepts(change) {
            assert(target.has_cell(id, deleted_column()));
        }
    } else {
        assert(source.is_live(id));
        if !target.tombstones.contains(id) {
            if !source.gives_some(taken, id) {
                assert forall|name: Seq<char>| !source.gives(taken, id, name) by {}
            }
            assert(stepped.records[id].fields =~= after.records[id].fields);
            assert(stepped.records[id].versions =~= after.records[id].versions);
        }
    }
    assert forall|other: K| #[trigger] stepped.records.contains_key(other) && other
        != id implies stepped.records[other] == after.records[other] by {
        let old_record = target.absorbed_record(source, taken, other);
        let new_record = target.absorbed_record(source, more, other);
        assert(old_record.fields =~= new_record.fields);
        assert(old_record.versions =~= new_record.versions);
    }
    assert(stepped.records =~= after.records);
    assert(stepped.tombstones =~= after.tombstones);
}

/// A batch of distinct changes that `source` gives out, taken in order,
/// leaves what the cell-by-cell statement says.
pub proof fn lemma_apply_all_is_absorbed<K, V>(
    target: State<K, V>,
    source: State<K, V>,
    batch: Seq<ChangeView<K, V>>,
)
    requires
        target.sealed(),
        source.sealed(),
        source.gives_out(batch),
        batch.no_duplicates(),
    ensures
        target.apply_all(batch) == target.absorbed(source, batch.to_set()),
    decreases batch.len(),
{
    if batch.len() == 0 {
        assert(batch.to_set() =~= Set::<ChangeView<K, V>>::empty());
        lemma_absorbed_nothing(target, source);
    } else {
        let front = batch.drop_last();
        let last = batch.last();
        assert forall|i: int| 0 <= i < front.len() implies source.changes_since(0).contains(
            #[trigger] front[i],
        ) by {}
        lemma_apply_all_is_absorbed(target, source, front);
        assert(batch =~= front.push(last));
        front.lemma_push_to_set_commute(last);
        lemma_absorbed_step(target, source, front.to_set(), last);
    }
}

/// Merging does not depend on the order of the batch: whatever order the
/// changes of `source` at or above `watermark` come in, the replica that
/// takes them in reaches the same state.
pub proof fn lemma_merge_order_is_irrelevant<K, V>(
    target: State<K, V>,
    source: State<K, V>,
    watermark: u64,
    batch: Seq<ChangeView<K, V>>,
)
    requires
        target.sealed(),
        source.sealed(),
        source.extracted(watermark, batch),
    ensures
        target.apply_all(batch) == target.merged_with(source, watermark),
{
    assert forall|i: int| 0 <= i < batch.len() implies source.changes_since(0).contains(
        #[trigger] batch[i],
    ) by {
        assert(source.changes_since(watermark).contains(batch[i]));
    }
    lemma_apply_all_is_absorbed(target, source, batch);
}

impl<K, V> State<K, V> {
    /// `self` has nothing to take from what `source` holds below
    /// `watermark`: each of those changes, merged alone, leaves `self` as it
    /// is.
    pub open spec fn has_seen_below(self, source: State<K, V>, watermark: u64) -> bool {
        forall|change: ChangeView<K, V>| #[trigger]
            source.changes_since(0).contains(change) && change.version.db_version < watermark
                ==> self.apply(change) == self
    }
}

/// A replica that has pulled everything from a peer has seen, from then on,
/// all that the peer still holds from that time: whatever either of them
/// takes in later, what the peer now holds below the watermark and held
/// then is covered.
pub proof fn lemma_pull_makes_seen<K, V>(
    target: State<K, V>,
    source_then: State<K, V>,
    pulled: Seq<ChangeView<K, V>>,
    later: Seq<ChangeView<K, V>>,
    source_now: State<K, V>,
    watermark: u64,
)
    requires
        source_then.extracted(0, pulled),
        forall|change: ChangeView<K, V>| #[trigger]
            source_now.changes_since(0).contains(change) && change.version.db_version < watermark
                ==> source_then.changes_since(0).contains(change),
    ensures
        target.apply_all(pulled).apply_all(later).has_seen_below(source_now, watermark),
{
    let after = target.apply_all(pulled).apply_all(later);
    lemma_applied_batch_is_covered(target, pulled);
    assert forall|change: ChangeView<K, V>| #[trigger]
        source_now.changes_since(0).contains(change) && change.version.db_version
            < watermark implies after.apply(change) == after by {
        assert(pulled.to_set().contains(change));
        let i = choose|i: int| 0 <= i < pulled.len() && pulled[i] == change;
        assert(target.apply_all(pulled).covers(pulled[i]));
        lemma_cover_is_kept_by_batch(target.apply_all(pulled), change, later);
        lemma_covered_change_is_absorbed(after, change);
    }
}

/// What a replica holds after a pull does not depend on the watermark, as
/// long as the replica has seen what lies below it.
pub proof fn lemma_merged_with_any_watermark<K, V>(
    target: State<K, V>,
    source: State<K, V>,
    watermark: u64,
)
    requires
        target.sealed(),
        source.sealed(),
        target.has_seen_below(source, watermark),
    ensures
        target.merged_with(source, watermark) == target.merged_with(source, 0),
{
    let part = source.changes_since(watermark);
    let full = source.changes_since(0);
    let low = target.merged_with(source, watermark);
    let high = target.merged_with(source, 0);
    // A cell below the watermark is one that the target covers.
    assert forall|id: K, name: Seq<char>|
        source.gives(full, id, name) && !source.gives(part, id, name) implies target.covers(
        source.change_of(id, name),
    ) by {
        lemma_absorbed_change_is_covered(target, source.change_of(id, name));
    }
    assert forall|id: K| #[trigger] high.records.contains_key(id) implies low.records.contains_key(
        id,
    ) && high.records[id] == low.records[id] by {
        if !source.tombstones.contains(id) && !target.tombstones.contains(id) {
            assert(high.records[id].fields =~= low.records[id].fields);
            assert(high.records[id].versions =~= low.records[id].versions);
        }
    }
    assert forall|id: K| #[trigger] low.records.contains_key(id) implies high.records.contains_key(
        id,
    ) by {
        if source.gives_some(part, id) {
            let name = choose|name: Seq<char>| source.gives(part, id, name);
            assert(source.gives(full, id, name));
        }
    }
    assert(low.records =~= high.records);
    assert(low.tombstones =~= high.tombstones);
}

/// Watermark safety: a replica that has seen what `source` holds below the
/// watermark reaches the same state by pulling the changes at or above the
/// watermark as by pulling them all, whatever order either batch comes in.
pub proof fn lemma_watermark_is_safe<K, V>(
    target: State<K, V>,
    source: State<K, V>,
    watermark: u64,
    part: Seq<ChangeView<K, V>>,
    full: Seq<ChangeView<K, V>>,
)
    requires
        target.sealed(),
        source.sealed(),
        target.has_seen_below(source, watermark),
        source.extracted(watermark, part),
        source.extracted(0, full),
    ensures
        target.apply_all(part) == target.apply_all(full),
{
    lemma_merge_order_is_irrelevant(target, source, watermark, part);
    lemma_merge_order_is_irrelevant(target, source, 0, full);
    lemma_merged_with_any_watermark(target, source, watermark);
}

} // verus!
