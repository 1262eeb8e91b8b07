//! Column versions and the rule that decides between two of them.

use vstd::prelude::*;

verus! {

/// The version stamp of one column of one record.
#[derive(Debug, Clone, Copy, PartialEq, Eq, Structural)]
pub struct ColumnVersion {
    /// Update generation of the column.
    pub col_version: u64,
    /// Clock reading of the replica that produced or accepted this version.
    pub db_version: u64,
    /// The replica that authored this version.
    pub site_id: u64,
    /// Counter that breaks the last ties at the authoring replica.
    pub seq: u64,
}

impl ColumnVersion {
    /// The stamp with these four parts.
    pub fn new(col_version: u64, db_version: u64, site_id: u64, seq: u64) -> (version: Self)
        ensures
            version == (ColumnVersion { col_version, db_version, site_id, seq }),
    {
        ColumnVersion { col_version, db_version, site_id, seq }
    }

    /// The stamp of a column that a replica writes for the first time.
    pub open spec fn fresh(db_version: u64, site_id: u64) -> ColumnVersion {
        ColumnVersion { col_version: 1, db_version, site_id, seq: 0 }
    }

    /// The stamp that follows `self` when replica `site_id` rewrites the column
    /// at clock reading `db_version`.
    pub open spec fn bumped(self, db_version: u64, site_id: u64) -> ColumnVersion
        recommends
            self.col_version < u64::MAX,
            self.seq < u64::MAX,
    {
        ColumnVersion {
            col_version: (self.col_version + 1) as u64,
            db_version,
            site_id,
            seq: (self.seq + 1) as u64,
        }
    }

    /// The part of a stamp that ranks it: generation, then site, then
    /// sequence number. The clock reading takes no part.
    pub open spec fn rank(self) -> (u64, u64, u64) {
        (self.col_version, self.site_id, self.seq)
    }

    /// `self` ranks strictly above `other`, compared lexicographically.
    pub open spec fn outranks(self, other: ColumnVersion) -> bool {
        ||| self.col_version > other.col_version
        ||| self.col_version == other.col_version && self.site_id > other.site_id
        ||| self.col_version == other.col_version && self.site_id == other.site_id && self.seq
            > other.seq
    }
}

/// Whether an incoming column version replaces the local one.
///
/// A newer generation always wins and an older one always loses. Within a
/// generation a deletion beats anything that is not a deletion; what is left
/// is settled by the site and then by the sequence number.
pub open spec fn merge_decision(
    local: Option<ColumnVersion>,
    local_is_deletion: bool,
    remote: ColumnVersion,
    remote_is_deletion: bool,
) -> bool {
    match local {
        None => true,
        Some(l) => {
            if remote.col_version > l.col_version {
                true
            } else if remote.col_version < l.col_version {
                false
            } else if remote_is_deletion && !local_is_deletion {
                true
            } else if local_is_deletion && !remote_is_deletion {
                false
            } else if remote.site_id > l.site_id {
                true
            } else if remote.site_id < l.site_id {
                false
            } else {
                remote.seq > l.seq
            }
        },
    }
}

/// Decides whether the incoming version `remote` is accepted over `local`.
pub fn should_accept(
    local: Option<&ColumnVersion>,
    local_is_deletion: bool,
    remote: &ColumnVersion,
    remote_is_deletion: bool,
) -> (accept: bool)
    ensures
        accept == merge_decision(
            match local {
                Some(l) => Some(*l),
                None => None,
            },
            local_is_deletion,
            *remote,
            remote_is_deletion,
        ),
{
    match local {
        None => true,
        Some(l) => {
            if remote.col_version > l.col_version {
                true
            } else if remote.col_version < l.col_version {
                false
            } else if remote_is_deletion && !local_is_deletion {
                true
            } else if local_is_deletion && !remote_is_deletion {
                false
            } else if remote.site_id > l.site_id {
                true
            } else if remote.site_id < l.site_id {
                false
            } else {
                remote.seq > l.seq
            }
        },
    }
}

/// Between two versions of the same kind the decision is the lexicographic
/// order on generation, site and sequence number.
pub proof fn lemma_decision_is_rank_order(local: ColumnVersion, remote: ColumnVersion, deletion: bool)
    ensures
        merge_decision(Some(local), deletion, remote, deletion) == remote.outranks(local),
{
}

/// At equal generation a deletion is accepted over any other column and never
/// gives way to one.
pub proof fn lemma_deletion_has_priority(local: ColumnVersion, remote: ColumnVersion)
    requires
        local.col_version == remote.col_version,
    ensures
        merge_decision(Some(local), false, remote, true),
        !merge_decision(Some(local), true, remote, false),
{
}

/// Ranking is a strict total order on ranks: irreflexive, transitive, and
/// two versions that do not outrank each other have the same rank.
pub proof fn lemma_outranks_is_strict_total_order(a: ColumnVersion, b: ColumnVersion, c: ColumnVersion)
    ensures
        !a.outranks(a),
        a.outranks(b) && b.outranks(c) ==> a.outranks(c),
        a.outranks(b) ==> !b.outranks(a),
        !a.outranks(b) && !b.outranks(a) ==> a.rank() == b.rank(),
{
}

} // verus!
