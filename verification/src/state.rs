//! The replicated state as a mathematical value, and what each operation
//! of a replica does to it.

use vstd::prelude::*;
use crate::change::ChangeView;
use crate::record::{deleted_column, RecordView};
use crate::version::{merge_decision, ColumnVersion};

verus! {

/// What replicas converge on: the records by id, and the ids known to be
/// deleted. The clock and the site id of a replica are not part of it.
#[verifier::reject_recursive_types(K)]
pub struct State<K, V> {
    pub records: Map<K, RecordView<V>>,
    pub tombstones: Set<K>,
}

impl<K, V> State<K, V> {
    /// The state of a replica that has seen nothing.
    pub open spec fn empty() -> Self {
        State { records: Map::empty(), tombstones: Set::empty() }
    }

    /// The record stored under `id`, or a record without columns.
    pub open spec fn record(self, id: K) -> RecordView<V> {
        if self.records.contains_key(id) {
            self.records[id]
        } else {
            RecordView::empty()
        }
    }

    /// Column `name` of record `id` has a stored version.
    pub open spec fn has_cell(self, id: K, name: Seq<char>) -> bool {
        self.records.contains_key(id) && self.records[id].versions.contains_key(name)
    }

    /// The stored version of column `name` of record `id`, if there is one.
    pub open spec fn local_version(self, id: K, name: Seq<char>) -> Option<ColumnVersion> {
        if self.has_cell(id, name) {
            Some(self.records[id].versions[name])
        } else {
            None
        }
    }

    /// Record `id` is stored and not deleted.
    pub open spec fn is_live(self, id: K) -> bool {
        self.records.contains_key(id) && !self.tombstones.contains(id)
    }

    /// The state after a local insert stamped `db_version` by `site_id`.
    pub open spec fn inserted(
        self,
        id: K,
        fields: Map<Seq<char>, V>,
        db_version: u64,
        site_id: u64,
    ) -> Self {
        State {
            records: self.records.insert(id, RecordView::inserted(fields, db_version, site_id)),
            tombstones: self.tombstones,
        }
    }

    /// The state after a local update of a stored record.
    pub open spec fn updated(
        self,
        id: K,
        updates: Map<Seq<char>, V>,
        db_version: u64,
        site_id: u64,
    ) -> Self {
        State {
            records: self.records.insert(id, self.records[id].updated(updates, db_version, site_id)),
            tombstones: self.tombstones,
        }
    }

    /// The state after record `id` was deleted at `version`.
    pub open spec fn buried(self, id: K, version: ColumnVersion) -> Self {
        State {
            records: self.records.insert(id, RecordView::tombstone(version)),
            tombstones: self.tombstones.insert(id),
        }
    }

    /// The decision on an incoming change: its version against the local
    /// version of the same column of the same record.
    pub open spec fn accepts(self, change: ChangeView<K, V>) -> bool {
        merge_decision(
            self.local_version(change.record_id, change.col_name),
            change.is_deletion(),
            change.version,
            change.is_deletion(),
        )
    }

    /// The state after one incoming change.
    ///
    /// An accepted deletion buries the record. An accepted change of another
    /// column is stored unless the record is buried, in which case it is
    /// dropped. A rejected change leaves the state as it is.
    pub open spec fn apply(self, change: ChangeView<K, V>) -> Self {
        if !self.accepts(change) {
            self
        } else if change.is_deletion() {
            self.buried(change.record_id, change.version)
        } else if self.tombstones.contains(change.record_id) {
            self
        } else {
            State {
                records: self.records.insert(
                    change.record_id,
                    self.record(change.record_id).stored(
                        change.col_name,
                        change.value,
                        change.version,
                    ),
                ),
                tombstones: self.tombstones,
            }
        }
    }

    /// The state after a batch of incoming changes, taken in order.
    pub open spec fn apply_all(self, changes: Seq<ChangeView<K, V>>) -> Self
        decreases changes.len(),
    {
        if changes.len() == 0 {
            self
        } else {
            self.apply_all(changes.drop_last()).apply(changes.last())
        }
    }

    /// `reading` is the highest clock reading among the stored columns.
    pub open spec fn is_max_db_version(self, reading: u64) -> bool {
        &&& exists|id: K, name: Seq<char>| #[trigger]
            self.has_cell(id, name) && self.records[id].versions[name].db_version == reading
        &&& forall|id: K, name: Seq<char>| #[trigger]
            self.has_cell(id, name) ==> self.records[id].versions[name].db_version <= reading
    }

    /// The change that carries column `name` of record `id`.
    pub open spec fn change_of(self, id: K, name: Seq<char>) -> ChangeView<K, V> {
        ChangeView {
            record_id: id,
            col_name: name,
            value: if name != deleted_column() && self.records[id].fields.contains_key(name) {
                Some(self.records[id].fields[name])
            } else {
                None
            },
            version: self.records[id].versions[name],
        }
    }

    /// The changes that carry every stored column whose clock reading is at
    /// least `watermark`.
    pub open spec fn changes_since(self, watermark: u64) -> Set<ChangeView<K, V>> {
        Set::new(
            |change: ChangeView<K, V>|
                {
                    &&& self.has_cell(change.record_id, change.col_name)
                    &&& change == self.change_of(change.record_id, change.col_name)
                    &&& change.version.db_version >= watermark
                },
        )
    }

    /// `changes` lists the changes at or above `watermark`, each once, in
    /// some order.
    pub open spec fn extracted(self, watermark: u64, changes: Seq<ChangeView<K, V>>) -> bool {
        &&& changes.no_duplicates()
        &&& changes.to_set() == self.changes_since(watermark)
    }
}

/// A state has at most one highest clock reading.
pub proof fn lemma_max_db_version_is_unique<K, V>(state: State<K, V>, one: u64, other: u64)
    requires
        state.is_max_db_version(one),
        state.is_max_db_version(other),
    ensures
        one == other,
{
    let (id, name) = choose|id: K, name: Seq<char>| #[trigger]
        state.has_cell(id, name) && state.records[id].versions[name].db_version == one;
    let (id2, name2) = choose|id: K, name: Seq<char>| #[trigger]
        state.has_cell(id, name) && state.records[id].versions[name].db_version == other;
    assert(state.has_cell(id, name) && state.has_cell(id2, name2));
}

/// The clock reading after a batch of incoming changes: each change moves the
/// clock past its own reading and the change's.
pub open spec fn clock_after<K, V>(clock: nat, changes: Seq<ChangeView<K, V>>) -> nat
    decreases changes.len(),
{
    if changes.len() == 0 {
        clock
    } else {
        let before = clock_after(clock, changes.drop_last());
        let received = changes.last().version.db_version as nat;
        if before >= received {
            before + 1
        } else {
            received + 1
        }
    }
}

/// A batch never moves the clock back, and a longer batch moves it further.
pub proof fn lemma_clock_after_prefix<K, V>(clock: nat, changes: Seq<ChangeView<K, V>>, n: int)
    requires
        0 <= n <= changes.len(),
    ensures
        clock <= clock_after(clock, changes.take(n)) <= clock_after(clock, changes),
        n < changes.len() ==> changes[n].version.db_version < clock_after(clock, changes),
        n < changes.len() ==> clock_after(clock, changes.take(n)) < clock_after(clock, changes),
    decreases changes.len(),
{
    if n == changes.len() {
        assert(changes.take(n) =~= changes);
        if changes.len() > 0 {
            lemma_clock_after_prefix(clock, changes.drop_last(), n - 1);
        }
    } else {
        assert(changes.drop_last().take(n) =~= changes.take(n));
        lemma_clock_after_prefix(clock, changes.drop_last(), n);
    }
}

/// Taking one more change of a batch is one more step.
pub proof fn lemma_apply_all_step<K, V>(state: State<K, V>, clock: nat, changes: Seq<ChangeView<K, V>>, n: int)
    requires
        0 <= n < changes.len(),
    ensures
        state.apply_all(changes.take(n + 1)) == state.apply_all(changes.take(n)).apply(changes[n]),
        clock_after(clock, changes.take(n + 1)) == vstd::math::max(
            clock_after(clock, changes.take(n)) as int,
            changes[n].version.db_version as int,
        ) + 1,
{
    assert(changes.take(n + 1).drop_last() =~= changes.take(n));
}

} // verus!
