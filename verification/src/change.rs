//! Changes: the unit that replicas exchange.

use vstd::prelude::*;
use crate::record::deleted_column;
use crate::version::ColumnVersion;

verus! {

/// The state of one column of one record at one version, ready to be sent
/// to a peer. A deletion travels under the reserved column name, without a
/// value.
#[derive(Debug, Clone)]
pub struct Change<K, V> {
    pub record_id: K,
    pub col_name: String,
    pub value: Option<V>,
    pub col_version: u64,
    pub db_version: u64,
    pub site_id: u64,
    pub seq: u64,
}

/// A change as contracts see it.
pub struct ChangeView<K, V> {
    pub record_id: K,
    pub col_name: Seq<char>,
    pub value: Option<V>,
    pub version: ColumnVersion,
}

impl<K, V> ChangeView<K, V> {
    /// The change deletes its record.
    pub open spec fn is_deletion(self) -> bool {
        self.col_name == deleted_column()
    }
}

impl<K, V> View for Change<K, V> {
    type V = ChangeView<K, V>;

    open spec fn view(&self) -> ChangeView<K, V> {
        ChangeView {
            record_id: self.record_id,
            col_name: self.col_name@,
            value: self.value,
            version: self.version(),
        }
    }
}

impl<K, V> Change<K, V> {
    /// The version stamp that the change carries.
    pub open spec fn version(&self) -> ColumnVersion {
        ColumnVersion {
            col_version: self.col_version,
            db_version: self.db_version,
            site_id: self.site_id,
            seq: self.seq,
        }
    }
}

/// A batch of changes as contracts see it.
pub open spec fn batch_view<K, V>(changes: Seq<Change<K, V>>) -> Seq<ChangeView<K, V>> {
    changes.map_values(|c: Change<K, V>| c@)
}

} // verus!
