//! A replica: the record store of one site, its clock, and the operations
//! that change them.

use vstd::prelude::*;
use vstd::std_specs::hash::*;
use std::collections::HashMap;
use std::collections::HashSet;
use std::hash::Hash;
use vstd::std_specs::iter::IteratorSpec;
use crate::change::{batch_view, Change, ChangeView};
use crate::clock::LogicalClock;
use crate::columns::Columns;
use crate::record::{deleted_column, Record, RecordView, DELETED_COLUMN};
use crate::keys::{exact_clone, sound_keys};
use crate::laws::lemma_merge_keeps_the_deleted;
use crate::invariants::{
    generations_start_at_one, lemma_apply_all_keeps_invariants, lemma_apply_keeps_invariants,
    lemma_bury_keeps_invariants, lemma_empty_is_syncable, lemma_insert_keeps_invariants,
    lemma_update_keeps_invariants,
};
use crate::state::{clock_after, lemma_apply_all_step, lemma_clock_after_prefix, State};
use crate::version::{should_accept, ColumnVersion};
use crate::walk::{
    gathered, lemma_gather_done, lemma_gather_enter, lemma_gather_leave, lemma_gather_skip,
    lemma_gather_take, lemma_survey_leave, lemma_survey_next, lemma_walk_covers, passed, surveyed,
};

verus! {

/// What became of a local mutation.
#[derive(Debug, Clone, Copy, PartialEq, Eq, Structural)]
pub enum MutationOutcome {
    /// The mutation was carried out.
    Applied,
    /// Nothing was done: the record is deleted, and deleted records stay so.
    IgnoredTombstoned,
    /// Nothing was done: there is no such record.
    IgnoredMissing,
}

/// The replica of one site.
#[derive(Debug)]
pub struct CRDT<K, V> where K: Eq + Hash + Clone {
    pub node_id: u64,
    pub clock: LogicalClock,
    pub data: HashMap<K, Record<V>>,
    pub tombstones: HashSet<K>,
}

impl<K, V> View for CRDT<K, V> where K: Eq + Hash + Clone {
    type V = State<K, V>;

    open spec fn view(&self) -> State<K, V> {
        State {
            records: self.data@.map_values(|record: Record<V>| record@),
            tombstones: self.tombstones@,
        }
    }
}

/// A copy of a set of record ids, made by `HashSet::clone` of std, for
/// which vstd has no specification. Believed without proof: where the ids
/// hash and compare as the hash tables expect and clone to themselves, the
/// copy holds the same ids. std clones the table id by id.
#[verifier::external_body]
fn clone_ids<K: Eq + Hash + Clone>(ids: &HashSet<K>) -> (copy: HashSet<K>)
    ensures
        sound_keys::<K>() ==> copy@ == ids@,
{
    ids.clone()
}

impl<K, V> Clone for CRDT<K, V> where K: Eq + Hash + Clone, V: Clone {
    /// A copy of the replica: same site, same clock reading and, where ids
    /// and values clone to themselves, same state.
    fn clone(&self) -> (copy: Self)
        ensures
            copy.node_id == self.node_id,
            copy.clock@ == self.clock@,
            sound_keys::<K>() && exact_clone::<V>() ==> copy@ == self@,
    {
        CRDT {
            node_id: self.node_id,
            clock: self.clock.clone(),
            data: self.data.clone(),
            tombstones: clone_ids(&self.tombstones),
        }
    }
}

impl<K, V> CRDT<K, V> where K: Eq + Hash + Clone, V: Clone {
    /// The state is well formed and no stored column was stamped later
    /// than the clock reads.
    pub open spec fn is_valid(&self) -> bool {
        self@.well_formed() && self@.stamped_within(self.clock@)
    }

    /// The replica holds only what its own site has written, in a state
    /// from which convergence is owed: what a replica is that was built by
    /// local inserts with at least one field, updates and deletes, all
    /// keeping off the reserved column name.
    pub open spec fn is_local(&self) -> bool {
        self@.syncable() && self@.authored_by(self.node_id)
    }

    /// A replica for site `node_id` that holds nothing.
    pub fn new(node_id: u64) -> (replica: Self)
        ensures
            replica.node_id == node_id,
            replica.clock@ == 0,
            replica@ == State::<K, V>::empty(),
            replica.is_valid(),
            replica.is_local(),
    {
        let replica = CRDT {
            node_id,
            clock: LogicalClock::new(),
            data: HashMap::new(),
            tombstones: HashSet::new(),
        };
        proof {
            assert(replica@.records =~= Map::<K, RecordView<V>>::empty());
            lemma_empty_is_syncable::<K, V>(0, node_id);
        }
        replica
    }

    /// Stores `fields` as record `record_id`, every column at its first
    /// generation. A record that is there already is overwritten as a whole.
    /// A deleted record stays deleted.
    pub fn insert(&mut self, record_id: K, fields: Columns<V>) -> (outcome: MutationOutcome)
        requires
            sound_keys::<K>(),
            !old(self).tombstones@.contains(record_id) ==> old(self).clock@ < u64::MAX,
        ensures
            final(self).node_id == old(self).node_id,
            old(self).tombstones@.contains(record_id) ==> {
                &&& outcome == MutationOutcome::IgnoredTombstoned
                &&& final(self)@ == old(self)@
                &&& final(self).clock@ == old(self).clock@
            },
            !old(self).tombstones@.contains(record_id) ==> {
                &&& outcome == MutationOutcome::Applied
                &&& final(self).clock@ == old(self).clock@ + 1
                &&& final(self)@ == old(self)@.inserted(
                    record_id,
                    fields@,
                    (old(self).clock@ + 1) as u64,
                    old(self).node_id,
                )
            },
            old(self).clock@ <= final(self).clock@,
            old(self).is_valid() && !fields@.contains_key(deleted_column()) ==> final(self).is_valid(),
            old(self).is_local() && !fields@.contains_key(deleted_column()) && (exists|
                name: Seq<char>,
            | fields@.contains_key(name)) ==> final(self).is_local(),
            final(self)@.keeps_tombstones_of(old(self)@),
            old(self)@.sealed() && !fields@.contains_key(deleted_column()) ==> final(self)@.sealed(),
    {
        if self.tombstones.contains(&record_id) {
            return MutationOutcome::IgnoredTombstoned;
        }
        let db_version = self.clock.tick();
        let version = ColumnVersion::new(1, db_version, self.node_id, 0);
        let mut column_versions: Columns<ColumnVersion> = Columns::new();
        let count = fields.len();
        let mut i: usize = 0;
        while i < count
            invariant
                count == fields.names().len(),
                i <= count,
                fields.names().to_set() == fields@.dom(),
                column_versions@.dom() == fields.names().take(i as int).to_set(),
                forall|name: Seq<char>| #[trigger]
                    column_versions@.contains_key(name) ==> column_versions@[name] == version,
            decreases count - i,
        {
            match fields.entry(i) {
                Some((name, _)) => {
                    column_versions.insert(name.clone(), version);
                    proof {
                        let done = fields.names().take(i as int);
                        assert(fields.names().take(i + 1) =~= done.push(name@));
                        done.lemma_push_to_set_commute(name@);
                    }
                },
                None => {},
            }
            i += 1;
        }
        proof {
            assert(fields.names().take(count as int) =~= fields.names());
            assert(column_versions@ =~= RecordView::inserted(
                fields@,
                db_version,
                self.node_id,
            ).versions);
        }
        let record = Record::new(fields, column_versions);
        self.data.insert(record_id, record);
        proof {
            assert(self@.records =~= old(self)@.inserted(
                record_id,
                fields@,
                db_version,
                self.node_id,
            ).records);
            lemma_insert_keeps_invariants(
                old(self)@,
                old(self).clock@,
                record_id,
                fields@,
                db_version,
                self.node_id,
            );
        }
        MutationOutcome::Applied
    }

    /// Deletes record `record_id`: its fields go, and only the version of the
    /// deletion is kept. A deleted record stays deleted.
    pub fn delete(&mut self, record_id: &K) -> (outcome: MutationOutcome)
        requires
            sound_keys::<K>(),
            !old(self).tombstones@.contains(*record_id) ==> old(self).clock@ < u64::MAX,
        ensures
            final(self).node_id == old(self).node_id,
            old(self).tombstones@.contains(*record_id) ==> {
                &&& outcome == MutationOutcome::IgnoredTombstoned
                &&& final(self)@ == old(self)@
                &&& final(self).clock@ == old(self).clock@
            },
            !old(self).tombstones@.contains(*record_id) ==> {
                &&& outcome == MutationOutcome::Applied
                &&& final(self).clock@ == old(self).clock@ + 1
                &&& final(self)@ == old(self)@.buried(
                    *record_id,
                    ColumnVersion::fresh((old(self).clock@ + 1) as u64, old(self).node_id),
                )
            },
            old(self).clock@ <= final(self).clock@,
            old(self).is_valid() ==> final(self).is_valid(),
            old(self).is_local() ==> final(self).is_local(),
            final(self)@.keeps_tombstones_of(old(self)@),
            old(self)@.sealed() ==> final(self)@.sealed(),
    {
        if self.tombstones.contains(record_id) {
            return MutationOutcome::IgnoredTombstoned;
        }
        let db_version = self.clock.tick();
        let version = ColumnVersion::new(1, db_version, self.node_id, 0);
        self.bury(record_id, version);
        proof {
            lemma_bury_keeps_invariants(old(self)@, old(self).clock@, *record_id, version);
        }
        MutationOutcome::Applied
    }

    /// Rewrites the listed columns of record `record_id`. Each of them moves
    /// to its next generation; a column that the record did not have starts
    /// at its first. Nothing happens to a record that is deleted or missing.
    pub fn update(&mut self, record_id: &K, updates: Columns<V>) -> (outcome: MutationOutcome)
        requires
            sound_keys::<K>(),
            old(self)@.is_live(*record_id) ==> old(self).clock@ < u64::MAX && old(
                self,
            )@.records[*record_id].can_update(updates@),
        ensures
            final(self).node_id == old(self).node_id,
            old(self)@.tombstones.contains(*record_id) ==> {
                &&& outcome == MutationOutcome::IgnoredTombstoned
                &&& final(self)@ == old(self)@
                &&& final(self).clock@ == old(self).clock@
            },
            !old(self)@.tombstones.contains(*record_id) && !old(self)@.records.contains_key(
                *record_id,
            ) ==> {
                &&& outcome == MutationOutcome::IgnoredMissing
                &&& final(self)@ == old(self)@
                &&& final(self).clock@ == old(self).clock@
            },
            old(self)@.is_live(*record_id) ==> {
                &&& outcome == MutationOutcome::Applied
                &&& final(self).clock@ == old(self).clock@ + 1
                &&& final(self)@ == old(self)@.updated(
                    *record_id,
                    updates@,
                    (old(self).clock@ + 1) as u64,
                    old(self).node_id,
                )
            },
            old(self).clock@ <= final(self).clock@,
            old(self).is_valid() && !updates@.contains_key(deleted_column()) ==> final(self).is_valid(),
            old(self).is_local() && !updates@.contains_key(deleted_column()) ==> final(self).is_local(),
            final(self)@.keeps_tombstones_of(old(self)@),
            old(self)@.sealed() && !updates@.contains_key(deleted_column()) ==> final(self)@.sealed(),
    {
        if self.tombstones.contains(record_id) {
            return MutationOutcome::IgnoredTombstoned;
        }
        let stored = self.data.remove(record_id);
        match stored {
            None => {
                proof {
                    assert(self.data@ =~= old(self).data@);
                }
                MutationOutcome::IgnoredMissing
            },
            Some(record) => {
                let db_version = self.clock.tick();
                let site_id = self.node_id;
                let ghost initial = record@;
                let ghost all = updates@;
                let mut record = record;
                let mut updates = updates;
                proof {
                    let none = all.remove_keys(all.dom());
                    let same = initial.updated(none, db_version, site_id);
                    assert(same.fields =~= initial.fields);
                    assert(same.versions =~= initial.versions);
                }
                loop
                    invariant
                        initial.can_update(all),
                        updates@.submap_of(all),
                        record@ == initial.updated(
                            all.remove_keys(updates@.dom()),
                            db_version,
                            site_id,
                        ),
                    ensures
                        record@ == initial.updated(all, db_version, site_id),
                    decreases updates@.len(),
                {
                    let ghost before = record@;
                    match updates.pop() {
                        None => {
                            proof {
                                assert(all.remove_keys(updates@.dom()) =~= all);
                            }
                            break ;
                        },
                        Some((name, value)) => {
                            proof {
                                assert(all.dom().contains(name@));
                                assert(before.versions.contains_key(name@)
                                    <==> initial.versions.contains_key(name@));
                            }
                            let version = match record.column_versions.get_column(&name) {
                                Some(v) => ColumnVersion::new(
                                    v.col_version + 1,
                                    db_version,
                                    site_id,
                                    v.seq + 1,
                                ),
                                None => ColumnVersion::new(1, db_version, site_id, 0),
                            };
                            record.column_versions.insert(name.clone(), version);
                            record.fields.insert(name, value);
                            proof {
                                let grown = all.remove_keys(updates@.dom());
                                let wanted = initial.updated(grown, db_version, site_id);
                                assert(record@.fields =~= wanted.fields);
                                assert(record@.versions =~= wanted.versions);
                            }
                        },
                    }
                }
                self.data.insert(record_id.clone(), record);
                proof {
                    assert(self@.records =~= old(self)@.updated(
                        *record_id,
                        all,
                        db_version,
                        site_id,
                    ).records);
                    lemma_update_keeps_invariants(
                        old(self)@,
                        old(self).clock@,
                        *record_id,
                        all,
                        db_version,
                        site_id,
                    );
                }
                MutationOutcome::Applied
            },
        }
    }

    /// Takes in one change from a peer: moves the clock past the change, then
    /// keeps either the local column or the incoming one.
    pub fn merge_change(&mut self, change: &Change<K, V>)
        requires
            sound_keys::<K>(),
            exact_clone::<V>(),
            old(self).clock@ < u64::MAX,
            change.db_version < u64::MAX,
        ensures
            final(self).node_id == old(self).node_id,
            final(self).clock@ == vstd::math::max(
                old(self).clock@ as int,
                change.db_version as int,
            ) + 1,
            final(self)@ == old(self)@.apply(change@),
            old(self).clock@ <= final(self).clock@,
            old(self).is_valid() && change.col_version >= 1 ==> final(self).is_valid(),
    {
        let deleted = DELETED_COLUMN.to_owned();
        self.take_in(change, &deleted);
    }

    /// Whether the clock can take in the batch without leaving its range.
    pub fn merge_fits(&self, changes: &[Change<K, V>]) -> (fits: bool)
        ensures
            fits == (clock_after(self.clock@, batch_view(changes@)) <= u64::MAX),
    {
        let ghost batch = batch_view(changes@);
        let mut clock = self.clock.current_time();
        let mut i: usize = 0;
        proof {
            assert(batch.take(0) =~= Seq::<ChangeView<K, V>>::empty());
        }
        while i < changes.len()
            invariant
                batch == batch_view(changes@),
                i <= changes@.len(),
                clock == clock_after(self.clock@, batch.take(i as int)),
            decreases changes@.len() - i,
        {
            proof {
                lemma_clock_after_prefix(self.clock@, batch, i + 1);
                lemma_apply_all_step(self@, self.clock@, batch, i as int);
            }
            let received = changes[i].db_version;
            let reached = if clock < received {
                received
            } else {
                clock
            };
            if reached == u64::MAX {
                return false;
            }
            clock = reached + 1;
            i += 1;
        }
        proof {
            assert(batch.take(i as int) =~= batch);
        }
        true
    }

    /// Takes in a batch of changes from a peer, one after the other.
    pub fn merge_changes(&mut self, changes: &[Change<K, V>])
        requires
            sound_keys::<K>(),
            exact_clone::<V>(),
            clock_after(old(self).clock@, batch_view(changes@)) <= u64::MAX,
        ensures
            final(self).node_id == old(self).node_id,
            final(self).clock@ == clock_after(old(self).clock@, batch_view(changes@)),
            old(self).clock@ <= final(self).clock@,
            final(self)@ == old(self)@.apply_all(batch_view(changes@)),
            old(self).is_valid() && generations_start_at_one(batch_view(changes@)) ==> final(self).is_valid(),
            final(self)@.keeps_tombstones_of(old(self)@),
            old(self)@.sealed() ==> final(self)@.sealed() && final(self)@.buries_deletions_of(
                batch_view(changes@),
            ),
    {
        let ghost batch = batch_view(changes@);
        let deleted = DELETED_COLUMN.to_owned();
        let mut i: usize = 0;
        proof {
            lemma_clock_after_prefix(old(self).clock@, batch, 0);
        }
        while i < changes.len()
            invariant
                sound_keys::<K>(),
                exact_clone::<V>(),
                batch == batch_view(changes@),
                deleted@ == deleted_column(),
                i <= changes@.len(),
                clock_after(old(self).clock@, batch) <= u64::MAX,
                self.node_id == old(self).node_id,
                self.clock@ == clock_after(old(self).clock@, batch.take(i as int)),
                self@ == old(self)@.apply_all(batch.take(i as int)),
            decreases changes@.len() - i,
        {
            proof {
                lemma_clock_after_prefix(old(self).clock@, batch, i as int);
                lemma_apply_all_step(old(self)@, old(self).clock@, batch, i as int);
            }
            self.take_in(&changes[i], &deleted);
            i += 1;
        }
        proof {
            assert(batch.take(i as int) =~= batch);
            lemma_apply_all_keeps_invariants(old(self)@, old(self).clock@, batch);
            lemma_merge_keeps_the_deleted(old(self)@, batch);
        }
    }

    /// The changes that carry every stored column whose clock reading is at
    /// least `last_db_version`, each once, in no particular order. A live
    /// column travels with its current value, a deletion without one.
    pub fn get_changes_since(&self, last_db_version: u64) -> (changes: Vec<Change<K, V>>)
        requires
            sound_keys::<K>(),
            exact_clone::<V>(),
        ensures
            self@.extracted(last_db_version, batch_view(changes@)),
    {
        let mut changes: Vec<Change<K, V>> = Vec::new();
        let deleted = DELETED_COLUMN.to_owned();
        let ghost state = self@;
        let ghost all = self.data.iter().remaining();
        let ghost ids = all.map_values(|pair: (&K, &Record<V>)| *pair.0);
        proof {
            lemma_walk_covers(self.data@, all);
        }
        for pair in it: self.data.iter()
            invariant
                sound_keys::<K>(),
                exact_clone::<V>(),
                deleted@ == deleted_column(),
                state == self@,
                it.seq() == all,
                ids == all.map_values(|pair: (&K, &Record<V>)| *pair.0),
                ids.no_duplicates(),
                ids.to_set() == self.data@.dom(),
                forall|i: int|
                    0 <= i < all.len() ==> self.data@[#[trigger] ids[i]] == *all[i].1,
                gathered(
                    state,
                    last_db_version,
                    batch_view(changes@),
                    ids,
                    it.index() as int,
                    Seq::empty(),
                    0,
                ),
        {
            let record_id = pair.0;
            let record = pair.1;
            let ghost k = it.index() as int;
            let count = record.column_versions.len();
            let ghost names = record.column_versions.names();
            proof {
                lemma_gather_enter(state, last_db_version, batch_view(changes@), ids, k, names);
            }
            let mut j: usize = 0;
            while j < count
                invariant
                    sound_keys::<K>(),
                    exact_clone::<V>(),
                    deleted@ == deleted_column(),
                    0 <= k < ids.len(),
                    ids[k] == *record_id,
                    ids.no_duplicates(),
                    state.records.contains_key(*record_id),
                    state.records[*record_id] == record@,
                    names == record.column_versions.names(),
                    count == names.len(),
                    j <= count,
                    gathered(
                        state,
                        last_db_version,
                        batch_view(changes@),
                        ids,
                        k,
                        names,
                        j as int,
                    ),
                decreases count - j,
            {
                match record.column_versions.entry(j) {
                    Some((name, version)) => {
                        if version.db_version >= last_db_version {
                            let value = if *name != deleted {
                                match record.fields.get_column(name) {
                                    Some(v) => Some(v.clone()),
                                    None => None,
                                }
                            } else {
                                None
                            };
                            let change = Change {
                                record_id: record_id.clone(),
                                col_name: name.clone(),
                                value,
                                col_version: version.col_version,
                                db_version: version.db_version,
                                site_id: version.site_id,
                                seq: version.seq,
                            };
                            proof {
                                lemma_gather_take(
                                    state,
                                    last_db_version,
                                    batch_view(changes@),
                                    ids,
                                    k,
                                    names,
                                    j as int,
                                );
                                assert(batch_view(changes@.push(change)) =~= batch_view(
                                    changes@,
                                ).push(change@));
                            }
                            changes.push(change);
                        } else {
                            proof {
                                lemma_gather_skip(
                                    state,
                                    last_db_version,
                                    batch_view(changes@),
                                    ids,
                                    k,
                                    names,
                                    j as int,
                                );
                            }
                        }
                    },
                    None => {},
                }
                j += 1;
            }
            proof {
                lemma_gather_leave(state, last_db_version, batch_view(changes@), ids, k, names);
            }
        }
        proof {
            assert(state.records.dom() =~= self.data@.dom());
            lemma_gather_done(state, last_db_version, batch_view(changes@), ids);
        }
        changes
    }

    /// The highest clock reading among the stored columns, or `None` when
    /// nothing is stored. After a pull from this replica it is the watermark
    /// for the next one.
    pub fn max_db_version(&self) -> (highest: Option<u64>)
        requires
            sound_keys::<K>(),
        ensures
            match highest {
                Some(reading) => self@.is_max_db_version(reading),
                None => forall|id: K, name: Seq<char>| !self@.has_cell(id, name),
            },
    {
        let mut highest: Option<u64> = None;
        let ghost state = self@;
        let ghost all = self.data.iter().remaining();
        let ghost ids = all.map_values(|pair: (&K, &Record<V>)| *pair.0);
        proof {
            lemma_walk_covers(self.data@, all);
        }
        for pair in it: self.data.iter()
            invariant
                state == self@,
                it.seq() == all,
                ids == all.map_values(|pair: (&K, &Record<V>)| *pair.0),
                ids.to_set() == self.data@.dom(),
                forall|i: int|
                    0 <= i < all.len() ==> self.data@[#[trigger] ids[i]] == *all[i].1,
                surveyed(state, highest, ids, it.index() as int, Seq::empty(), 0),
        {
            let record = pair.1;
            let ghost k = it.index() as int;
            let count = record.column_versions.len();
            let ghost names = record.column_versions.names();
            let mut j: usize = 0;
            while j < count
                invariant
                    0 <= k < ids.len(),
                    state.records.contains_key(ids[k]),
                    state.records[ids[k]] == record@,
                    names == record.column_versions.names(),
                    count == names.len(),
                    j <= count,
                    surveyed(state, highest, ids, k, names, j as int),
                decreases count - j,
            {
                match record.column_versions.entry(j) {
                    Some((_, version)) => {
                        let ghost before = highest;
                        let raise = match highest {
                            Some(reading) => version.db_version > reading,
                            None => true,
                        };
                        if raise {
                            highest = Some(version.db_version);
                        }
                        proof {
                            lemma_survey_next(state, before, highest, ids, k, names, j as int);
                        }
                    },
                    None => {},
                }
                j += 1;
            }
            proof {
                lemma_survey_leave(state, highest, ids, k, names);
            }
        }
        proof {
            assert(ids.take(ids.len() as int) =~= ids);
            assert forall|id: K, name: Seq<char>| state.has_cell(id, name) implies passed(
                ids,
                ids.len() as int,
                Seq::empty(),
                0,
                id,
                name,
            ) by {}
        }
        highest
    }

    /// Takes in one change, with the reserved column name at hand.
    fn take_in(&mut self, change: &Change<K, V>, deleted: &String)
        requires
            sound_keys::<K>(),
            exact_clone::<V>(),
            old(self).clock@ < u64::MAX,
            change.db_version < u64::MAX,
            deleted@ == deleted_column(),
        ensures
            final(self).node_id == old(self).node_id,
            final(self).clock@ == vstd::math::max(
                old(self).clock@ as int,
                change.db_version as int,
            ) + 1,
            final(self)@ == old(self)@.apply(change@),
            old(self).clock@ <= final(self).clock@,
            old(self).is_valid() && change.col_version >= 1 ==> final(self).is_valid(),
    {
        proof {
            lemma_apply_keeps_invariants(
                old(self)@,
                old(self).clock@,
                change@,
                (vstd::math::max(old(self).clock@ as int, change.db_version as int) + 1) as nat,
            );
        }
        self.clock.update(change.db_version);
        let remote = ColumnVersion::new(
            change.col_version,
            change.db_version,
            change.site_id,
            change.seq,
        );
        let is_deletion = change.col_name == *deleted;
        let local: Option<ColumnVersion> = match self.data.get(&change.record_id) {
            Some(record) => match record.column_versions.get_column(&change.col_name) {
                Some(version) => Some(*version),
                None => None,
            },
            None => None,
        };
        let accept = match local {
            Some(version) => should_accept(Some(&version), is_deletion, &remote, is_deletion),
            None => should_accept(None, is_deletion, &remote, is_deletion),
        };
        if accept {
            if is_deletion {
                self.bury(&change.record_id, remote);
            } else if !self.tombstones.contains(&change.record_id) {
                let mut record = match self.data.remove(&change.record_id) {
                    Some(record) => record,
                    None => Record::new(Columns::new(), Columns::new()),
                };
                match &change.value {
                    Some(value) => {
                        record.fields.insert(change.col_name.clone(), value.clone());
                    },
                    None => {},
                }
                record.column_versions.insert(change.col_name.clone(), remote);
                self.data.insert(change.record_id.clone(), record);
                proof {
                    assert(self@.records =~= old(self)@.apply(change@).records);
                }
            }
        }
    }

    /// Marks `record_id` as deleted at `version`.
    fn bury(&mut self, record_id: &K, version: ColumnVersion)
        requires
            sound_keys::<K>(),
        ensures
            final(self).node_id == old(self).node_id,
            final(self).clock == old(self).clock,
            final(self)@ == old(self)@.buried(*record_id, version),
    {
        self.tombstones.insert(record_id.clone());
        self.data.insert(record_id.clone(), Record::tombstone(version));
        proof {
            assert(self@.records =~= old(self)@.buried(*record_id, version).records);
        }
    }
}

} // verus!
