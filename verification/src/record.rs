//! Records: the field values of one record id and the version of each column.

use vstd::prelude::*;
use crate::columns::Columns;
use crate::keys::exact_clone;
use crate::version::ColumnVersion;

verus! {

/// The column name under which a deleted record keeps the version of its
/// deletion. It is reserved: ordinary data must not use it.
pub const DELETED_COLUMN: &'static str = "__deleted__";

/// The reserved column name, as contracts see it.
pub open spec fn deleted_column() -> Seq<char> {
    "__deleted__"@
}

/// What a record holds: values by column name, versions by column name.
pub struct RecordView<V> {
    pub fields: Map<Seq<char>, V>,
    pub versions: Map<Seq<char>, ColumnVersion>,
}

impl<V> RecordView<V> {
    /// A record without any column.
    pub open spec fn empty() -> Self {
        RecordView { fields: Map::empty(), versions: Map::empty() }
    }

    /// The record that stands for a deleted record id: no fields, and the
    /// version of the deletion under the reserved column name.
    pub open spec fn tombstone(version: ColumnVersion) -> Self {
        RecordView { fields: Map::empty(), versions: Map::empty().insert(deleted_column(), version) }
    }

    /// The record has the shape of a tombstone.
    pub open spec fn is_tombstone(self) -> bool {
        &&& self.fields.dom() =~= Set::<Seq<char>>::empty()
        &&& self.versions.dom() =~= Set::<Seq<char>>::empty().insert(deleted_column())
    }

    /// The record that a local insert writes: every supplied column at its
    /// first generation.
    pub open spec fn inserted(fields: Map<Seq<char>, V>, db_version: u64, site_id: u64) -> Self {
        RecordView {
            fields,
            versions: Map::new(
                |name: Seq<char>| fields.contains_key(name),
                |name: Seq<char>| ColumnVersion::fresh(db_version, site_id),
            ),
        }
    }

    /// The version that column `name` gets when it is rewritten locally.
    pub open spec fn next_version(self, name: Seq<char>, db_version: u64, site_id: u64) -> ColumnVersion {
        if self.versions.contains_key(name) {
            self.versions[name].bumped(db_version, site_id)
        } else {
            ColumnVersion::fresh(db_version, site_id)
        }
    }

    /// The record after a local update: the listed columns take their new
    /// values and their next versions, the others stay.
    pub open spec fn updated(self, updates: Map<Seq<char>, V>, db_version: u64, site_id: u64) -> Self {
        RecordView {
            fields: self.fields.union_prefer_right(updates),
            versions: Map::new(
                |name: Seq<char>| self.versions.contains_key(name) || updates.contains_key(name),
                |name: Seq<char>|
                    if updates.contains_key(name) {
                        self.next_version(name, db_version, site_id)
                    } else {
                        self.versions[name]
                    },
            ),
        }
    }

    /// Rewriting the listed columns cannot overflow a counter.
    pub open spec fn can_update(self, updates: Map<Seq<char>, V>) -> bool {
        forall|name: Seq<char>| #[trigger]
            updates.contains_key(name) && self.versions.contains_key(name)
                ==> self.versions[name].col_version < u64::MAX && self.versions[name].seq
                < u64::MAX
    }

    /// The record after it has taken a column from a peer.
    pub open spec fn stored(self, name: Seq<char>, value: Option<V>, version: ColumnVersion) -> Self {
        RecordView {
            fields: match value {
                Some(v) => self.fields.insert(name, v),
                None => self.fields,
            },
            versions: self.versions.insert(name, version),
        }
    }
}

/// One record: its field values and the version of each of its columns.
#[derive(Debug, PartialEq, Eq)]
pub struct Record<V> {
    pub fields: Columns<V>,
    pub column_versions: Columns<ColumnVersion>,
}

impl<V> View for Record<V> {
    type V = RecordView<V>;

    open spec fn view(&self) -> RecordView<V> {
        RecordView { fields: self.fields@, versions: self.column_versions@ }
    }
}

impl<V> Record<V> {
    /// The record with these fields and these versions.
    pub fn new(fields: Columns<V>, column_versions: Columns<ColumnVersion>) -> (record: Self)
        ensures
            record.fields == fields,
            record.column_versions == column_versions,
    {
        Record { fields, column_versions }
    }

    /// The record that marks a deletion made at `version`.
    pub fn tombstone(version: ColumnVersion) -> (record: Self)
        ensures
            record@ == RecordView::<V>::tombstone(version),
    {
        let mut column_versions: Columns<ColumnVersion> = Columns::new();
        column_versions.insert(DELETED_COLUMN.to_owned(), version);
        Record { fields: Columns::new(), column_versions }
    }
}

impl<V: Clone> Clone for Record<V> {
    fn clone(&self) -> (copy: Self)
        ensures
            exact_clone::<V>() ==> copy@ == self@,
    {
        let copy = Record {
            fields: self.fields.clone(),
            column_versions: self.column_versions.clone(),
        };
        proof {
            if exact_clone::<V>() {
                assert(copy@.fields =~= self@.fields);
                assert(copy@.versions =~= self@.versions);
            }
        }
        copy
    }
}

} // verus!
