//! Pulling the changes of one replica into another.

use vstd::prelude::*;
use std::hash::Hash;
use crate::change::{batch_view, ChangeView};
use crate::keys::{exact_clone, sound_keys};
use crate::replica::CRDT;
use crate::convergence::{lemma_merge_order_is_irrelevant, lemma_merged_with_any_watermark};
use crate::laws::lemma_pull_keeps_the_deleted;
use crate::invariants::lemma_extracted_changes;
use crate::state::{clock_after, lemma_clock_after_prefix, lemma_max_db_version_is_unique, State};

verus! {

/// Whatever order the changes of `source` at or above `watermark` come in,
/// taking them in keeps a clock that reads `clock` within its range.
pub open spec fn sync_fits<K, V>(source: State<K, V>, watermark: u64, clock: nat) -> bool {
    forall|changes: Seq<ChangeView<K, V>>| #[trigger]
        source.extracted(watermark, changes) ==> clock_after(clock, changes) <= u64::MAX
}

/// A batch moves the clock at most one step per change beyond the highest
/// reading it meets.
pub proof fn lemma_clock_after_bound<K, V>(clock: nat, changes: Seq<ChangeView<K, V>>, bound: nat)
    requires
        forall|i: int| 0 <= i < changes.len() ==> (#[trigger] changes[i]).version.db_version <= bound,
    ensures
        clock_after(clock, changes) <= vstd::math::max(clock as int, bound as int) + changes.len(),
    decreases changes.len(),
{
    if changes.len() > 0 {
        let front = changes.drop_last();
        assert forall|i: int| 0 <= i < front.len() implies (#[trigger] front[i]).version.db_version
            <= bound by {}
        lemma_clock_after_bound(clock, front, bound);
    }
}

/// A pull fits when the clock of the target and the stamps of the source
/// leave room for one step per change.
pub proof fn lemma_sync_fits<K, V>(source: State<K, V>, watermark: u64, clock: nat, bound: nat)
    requires
        source.stamped_within(bound),
        source.changes_since(watermark).finite(),
        vstd::math::max(clock as int, bound as int) + source.changes_since(watermark).len()
            <= u64::MAX,
    ensures
        sync_fits(source, watermark, clock),
{
    assert forall|changes: Seq<ChangeView<K, V>>| #[trigger]
        source.extracted(watermark, changes) implies clock_after(clock, changes) <= u64::MAX by {
        changes.unique_seq_to_set();
        assert forall|i: int| 0 <= i < changes.len() implies (#[trigger] changes[i]).version.db_version
            <= bound by {
            let change = changes[i];
            assert(source.changes_since(watermark).contains(change));
        }
        lemma_clock_after_bound(clock, changes, bound);
    }
}

/// `after` and `clock_now` are what a replica in state `before` with clock
/// `clock` comes to when it takes in the changes of `source` at or above
/// `watermark`, in one of the orders in which they can come.
pub open spec fn synced_from<K, V>(
    before: State<K, V>,
    clock: nat,
    source: State<K, V>,
    watermark: u64,
    after: State<K, V>,
    clock_now: nat,
) -> bool {
    exists|changes: Seq<ChangeView<K, V>>|
        {
            &&& #[trigger] source.extracted(watermark, changes)
            &&& after == before.apply_all(changes)
            &&& clock_now == clock_after(clock, changes)
        }
}

/// Brings `target` up to date with the changes of `source` at or above
/// `last_db_version`.
pub fn sync_nodes<K, V>(source: &CRDT<K, V>, target: &mut CRDT<K, V>, last_db_version: u64) where
    K: Eq + Hash + Clone,
    V: Clone,

    requires
        sound_keys::<K>(),
        exact_clone::<V>(),
        sync_fits(source@, last_db_version, old(target).clock@),
    ensures
        final(target).node_id == old(target).node_id,
        old(target).clock@ <= final(target).clock@,
        synced_from(
            old(target)@,
            old(target).clock@,
            source@,
            last_db_version,
            final(target)@,
            final(target).clock@,
        ),
        source.is_valid() && old(target).is_valid() ==> final(target).is_valid(),
        source@.sealed() && old(target)@.sealed() ==> final(target)@ == old(target)@.merged_with(source@, last_db_version),
        source@.sealed() && old(target)@.sealed() && old(target)@.has_seen_below(
            source@,
            last_db_version,
        ) ==> final(target)@ == old(target)@.merged_with(source@, 0),
        final(target)@.keeps_tombstones_of(old(target)@),
        old(target)@.sealed() ==> final(target)@.sealed(),
        source@.sealed() && old(target)@.sealed() && last_db_version == 0 ==> final(target)@.keeps_tombstones_of(source@),
{
    let changes = source.get_changes_since(last_db_version);
    proof {
        let batch = batch_view(changes@);
        lemma_clock_after_prefix(old(target).clock@, batch, 0);
        lemma_extracted_changes(source@, last_db_version, batch);
        if source@.sealed() && old(target)@.sealed() {
            lemma_merge_order_is_irrelevant(old(target)@, source@, last_db_version, batch);
            if old(target)@.has_seen_below(source@, last_db_version) {
                lemma_merged_with_any_watermark(old(target)@, source@, last_db_version);
            }
            if last_db_version == 0 {
                lemma_pull_keeps_the_deleted(old(target)@, source@, batch);
            }
        }
    }
    target.merge_changes(changes.as_slice());
}

/// A replica together with the watermark of its last pull.
pub struct NodeState<K, V> where K: Eq + Hash + Clone, V: Clone {
    crdt: CRDT<K, V>,
    last_db_version: u64,
}

impl<K, V> NodeState<K, V> where K: Eq + Hash + Clone, V: Clone {
    /// The replica that the node holds.
    pub closed spec fn replica(&self) -> CRDT<K, V> {
        self.crdt
    }

    /// The watermark that the next pull starts from.
    pub closed spec fn watermark(&self) -> u64 {
        self.last_db_version
    }

    /// A node for site `node_id` that holds nothing and has pulled nothing.
    pub fn new(node_id: u64) -> (node: Self)
        ensures
            node.replica().node_id == node_id,
            node.replica().clock@ == 0,
            node.replica()@ == State::<K, V>::empty(),
            node.watermark() == 0,
    {
        NodeState { crdt: CRDT::new(node_id), last_db_version: 0 }
    }

    /// The replica that the node holds.
    pub fn crdt(&self) -> (replica: &CRDT<K, V>)
        ensures
            *replica == self.replica(),
    {
        &self.crdt
    }

    /// The watermark that the next pull starts from.
    pub fn last_db_version(&self) -> (watermark: u64)
        ensures
            watermark == self.watermark(),
    {
        self.last_db_version
    }

    /// Pulls the changes of `source` at or above the watermark, then moves
    /// the watermark to the highest clock reading among the columns that
    /// `source` stores. Whatever `source` writes afterwards is stamped later
    /// than that, so the next pull takes it in. A source that stores nothing
    /// leaves the watermark where it is.
    pub fn sync_from(&mut self, source: &CRDT<K, V>)
        requires
            sound_keys::<K>(),
            exact_clone::<V>(),
            sync_fits(source@, old(self).watermark(), old(self).replica().clock@),
        ensures
            final(self).replica().node_id == old(self).replica().node_id,
            old(self).replica().clock@ <= final(self).replica().clock@,
            synced_from(
                old(self).replica()@,
                old(self).replica().clock@,
                source@,
                old(self).watermark(),
                final(self).replica()@,
                final(self).replica().clock@,
            ),
            forall|reading: u64|
                source@.is_max_db_version(reading) ==> final(self).watermark() == reading,
            (forall|id: K, name: Seq<char>| !source@.has_cell(id, name)) ==> final(self).watermark() == old(self).watermark(),
            source.is_valid() && old(self).replica().is_valid() ==> final(self).replica().is_valid(),
            source@.sealed() && old(self).replica()@.sealed() ==> final(self).replica()@
                == old(self).replica()@.merged_with(source@, old(self).watermark()),
            source@.sealed() && old(self).replica()@.sealed() && old(self).replica()@.has_seen_below(source@, old(self).watermark()) ==> final(self).replica()@
                == old(self).replica()@.merged_with(source@, 0),
            final(self).replica()@.keeps_tombstones_of(old(self).replica()@),
            old(self).replica()@.sealed() ==> final(self).replica()@.sealed(),
            source@.sealed() && old(self).replica()@.sealed() && old(self).watermark() == 0
                ==> final(self).replica()@.keeps_tombstones_of(source@),
    {
        sync_nodes(source, &mut self.crdt, self.last_db_version);
        if let Some(highest) = source.max_db_version() {
            proof {
                assert forall|reading: u64| source@.is_max_db_version(reading) implies reading
                    == highest by {
                    lemma_max_db_version_is_unique(source@, reading, highest);
                }
            }
            self.last_db_version = highest;
        }
    }
}

} // verus!
