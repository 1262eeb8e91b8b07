//! The state that two replicas agree on once each has taken in everything
//! the other holds, and why any exchange between replicas ends there.

use vstd::prelude::*;
use crate::change::ChangeView;
use crate::convergence::lemma_merge_order_is_irrelevant;
use crate::record::{deleted_column, RecordView};
use crate::state::State;

verus! {

impl<K, V> State<K, V> {
    /// Where both states hold a column at the same rank, they hold the same
    /// version and the same value: no two writes share a rank.
    pub open spec fn agrees_with(self, other: State<K, V>) -> bool {
        forall|id: K, name: Seq<char>|
            #![trigger self.has_cell(id, name), other.has_cell(id, name)]
            self.has_cell(id, name) && other.has_cell(id, name)
                && self.records[id].versions[name].rank() == other.records[id].versions[name].rank()
                ==> self.change_of(id, name) == other.change_of(id, name)
    }

    /// The state after `self` has taken in everything that `other` holds.
    pub open spec fn join(self, other: State<K, V>) -> Self {
        self.merged_with(other, 0)
    }

    /// Of column `name` of record `id`, what the join with `other` keeps:
    /// the offer of `other` where it is the only one or outranks the offer
    /// of `self`, else the offer of `self`.
    pub open spec fn preferred(self, other: State<K, V>, id: K, name: Seq<char>) -> ChangeView<K, V> {
        if other.offers(self, id, name) && (!self.offers(other, id, name)
            || other.records[id].versions[name].outranks(self.records[id].versions[name])) {
            other.change_of(id, name)
        } else {
            self.change_of(id, name)
        }
    }

    /// Column `name` of record `id` is one that the join with `other` may
    /// keep: the column is stored, and if either state has the record
    /// deleted, then this one has.
    pub open spec fn offers(self, other: State<K, V>, id: K, name: Seq<char>) -> bool {
        self.has_cell(id, name) && (other.tombstones.contains(id) ==> self.tombstones.contains(id))
    }
}

/// Two regular states that hold the same cells are the same state.
pub proof fn lemma_equal_by_cells<K, V>(left: State<K, V>, right: State<K, V>)
    requires
        left.regular(),
        right.regular(),
        left.tombstones =~= right.tombstones,
        left.records.dom() =~= right.records.dom(),
        forall|id: K, name: Seq<char>| left.has_cell(id, name) <==> right.has_cell(id, name),
        forall|id: K, name: Seq<char>| #[trigger]
            left.has_cell(id, name) ==> left.change_of(id, name) == right.change_of(id, name),
    ensures
        left == right,
{
    assert forall|id: K| #[trigger] left.records.contains_key(id) implies left.records[id]
        == right.records[id] by {
        let l = left.records[id];
        let r = right.records[id];
        assert forall|name: Seq<char>| l.versions.contains_key(name) <==> r.versions.contains_key(
            name,
        ) by {
            assert(left.has_cell(id, name) <==> right.has_cell(id, name));
        }
        assert forall|name: Seq<char>| l.versions.contains_key(name) implies l.versions[name]
            == r.versions[name] by {
            assert(left.has_cell(id, name));
        }
        assert(l.versions =~= r.versions);
        if left.tombstones.contains(id) {
            assert(l.fields =~= r.fields);
        } else {
            assert(left.is_live(id));
            assert(right.is_live(id));
            assert forall|name: Seq<char>| l.fields.contains_key(name) implies r.fields.contains_key(
                name,
            ) && l.fields[name] == r.fields[name] by {
                assert(left.has_cell(id, name));
            }
            assert forall|name: Seq<char>| r.fields.contains_key(name) implies l.fields.contains_key(
                name,
            ) by {}
        }
    }
    assert(left.records =~= right.records);
}

/// The join, cell by cell: its tombstones and records are those of either
/// state, and of each column it holds the offer that ranks highest.
pub proof fn lemma_join_cells<K, V>(left: State<K, V>, right: State<K, V>)
    requires
        left.syncable(),
        right.syncable(),
    ensures
        left.join(right).syncable(),
        forall|id: K|
            left.join(right).tombstones.contains(id) <==> left.tombstones.contains(id)
                || right.tombstones.contains(id),
        forall|id: K|
            left.join(right).records.contains_key(id) <==> left.records.contains_key(id)
                || right.records.contains_key(id),
        forall|id: K, name: Seq<char>|
            left.join(right).has_cell(id, name) <==> left.offers(right, id, name) || right.offers(
                left,
                id,
                name,
            ),
        forall|id: K, name: Seq<char>| #[trigger]
            left.join(right).has_cell(id, name) ==> left.join(right).change_of(id, name) == left.preferred(
                right,
                id,
                name,
            ),
{
    let full = right.changes_since(0);
    let joined = left.join(right);
    assert forall|id: K, name: Seq<char>| right.gives(full, id, name) == right.has_cell(
        id,
        name,
    ) by {}
    assert forall|id: K| right.gives_some(full, id) == right.records.contains_key(id) by {
        if right.records.contains_key(id) {
            if right.tombstones.contains(id) {
                assert(right.gives(full, id, deleted_column()));
            } else {
                assert(right.is_live(id));
            }
        }
    }
    assert forall|id: K|
        joined.tombstones.contains(id) <==> left.tombstones.contains(id)
            || right.tombstones.contains(id) by {}
    assert forall|id: K| #[trigger] joined.records.contains_key(id) implies ({
        &&& forall|name: Seq<char>|
            joined.has_cell(id, name) <==> left.offers(right, id, name) || right.offers(
                left,
                id,
                name,
            )
        &&& forall|name: Seq<char>| #[trigger]
            joined.has_cell(id, name) ==> joined.change_of(id, name) == left.preferred(right, id, name)
        &&& joined.tombstones.contains(id) ==> joined.records[id].is_tombstone()
        &&& !joined.tombstones.contains(id) ==> joined.records[id].fields.dom()
            =~= joined.records[id].versions.dom()
        &&& joined.has_cell(id, deleted_column()) ==> joined.tombstones.contains(id)
        &&& forall|name: Seq<char>| #[trigger]
            joined.has_cell(id, name) ==> joined.records[id].versions[name].col_version >= 1
        &&& exists|name: Seq<char>| joined.has_cell(id, name)
    }) by {
        let record = joined.records[id];
        if right.tombstones.contains(id) {
            assert(joined.has_cell(id, deleted_column()));
            assert forall|name: Seq<char>|
                joined.has_cell(id, name) <==> left.offers(right, id, name) || right.offers(
                    left,
                    id,
                    name,
                ) by {}
        } else if left.tombstones.contains(id) {
            assert(joined.has_cell(id, deleted_column()));
            assert forall|name: Seq<char>|
                joined.has_cell(id, name) <==> left.offers(right, id, name) || right.offers(
                    left,
                    id,
                    name,
                ) by {}
        } else {
            if left.records.contains_key(id) {
                assert(left.is_live(id));
                let name = choose|name: Seq<char>| left.has_cell(id, name);
                assert(joined.has_cell(id, name));
            } else {
                let name = choose|name: Seq<char>| right.has_cell(id, name);
                assert(joined.has_cell(id, name));
            }
            if right.records.contains_key(id) {
                assert(right.is_live(id));
            }
            assert forall|name: Seq<char>| record.fields.contains_key(name)
                <==> record.versions.contains_key(name) by {}
            assert forall|name: Seq<char>| #[trigger]
                joined.has_cell(id, name) implies joined.change_of(id, name) == left.preferred(right, id, name) by {}
        }
    }
    assert(joined.populated()) by {
        assert forall|id: K| #[trigger] joined.is_live(id) implies exists|name: Seq<char>|
            joined.has_cell(id, name) by {}
    }
}

/// Joining a state with itself changes nothing.
pub proof fn lemma_join_is_idempotent<K, V>(state: State<K, V>)
    requires
        state.syncable(),
    ensures
        state.join(state) == state,
{
    lemma_join_cells(state, state);
    lemma_equal_by_cells(state.join(state), state);
}

/// Between states that agree, the join does not depend on who takes from
/// whom.
pub proof fn lemma_join_commutes<K, V>(left: State<K, V>, right: State<K, V>)
    requires
        left.syncable(),
        right.syncable(),
        left.agrees_with(right),
    ensures
        left.join(right) == right.join(left),
{
    lemma_join_cells(left, right);
    lemma_join_cells(right, left);
    let ab = left.join(right);
    let ba = right.join(left);
    assert forall|id: K, name: Seq<char>| #[trigger] ab.has_cell(id, name) implies ab.change_of(
        id,
        name,
    ) == ba.change_of(id, name) by {}
    lemma_equal_by_cells(ab, ba);
}

/// A join agrees with every state that both of its sides agree with.
pub proof fn lemma_join_keeps_agreement<K, V>(
    left: State<K, V>,
    right: State<K, V>,
    other: State<K, V>,
)
    requires
        left.syncable(),
        right.syncable(),
        left.agrees_with(other),
        right.agrees_with(other),
    ensures
        left.join(right).agrees_with(other),
        other.agrees_with(left.join(right)),
{
    lemma_join_cells(left, right);
    let joined = left.join(right);
    assert forall|id: K, name: Seq<char>|
        #![trigger joined.has_cell(id, name), other.has_cell(id, name)]
        joined.has_cell(id, name) && other.has_cell(id, name)
            && joined.records[id].versions[name].rank()
            == other.records[id].versions[name].rank() implies joined.change_of(id, name)
        == other.change_of(id, name) by {}
}

/// Between states that agree, joining is associative.
pub proof fn lemma_join_associates<K, V>(a: State<K, V>, b: State<K, V>, c: State<K, V>)
    requires
        a.syncable(),
        b.syncable(),
        c.syncable(),
        a.agrees_with(b),
        a.agrees_with(c),
        b.agrees_with(c),
    ensures
        a.join(b).join(c) == a.join(b.join(c)),
{
    lemma_join_cells(a, b);
    lemma_join_cells(b, c);
    lemma_join_cells(a.join(b), c);
    lemma_join_cells(a, b.join(c));
    let ab = a.join(b);
    let bc = b.join(c);
    let left = ab.join(c);
    let right = a.join(bc);
    assert forall|id: K, name: Seq<char>| left.has_cell(id, name) <==> right.has_cell(
        id,
        name,
    ) by {}
    assert forall|id: K, name: Seq<char>| #[trigger] left.has_cell(id, name) implies left.change_of(
        id,
        name,
    ) == right.change_of(id, name) by {
        if ab.has_cell(id, name) {
            assert(ab.change_of(id, name) == a.change_of(id, name) || ab.change_of(id, name)
                == b.change_of(id, name));
        }
        if bc.has_cell(id, name) {
            assert(bc.change_of(id, name) == b.change_of(id, name) || bc.change_of(id, name)
                == c.change_of(id, name));
        }
    }
    lemma_equal_by_cells(left, right);
}

/// States that different sites have written agree: the site is part of the
/// rank, so no column of one has the rank of a column of the other.
pub proof fn lemma_distinct_authors_agree<K, V>(
    left: State<K, V>,
    left_site: u64,
    right: State<K, V>,
    right_site: u64,
)
    requires
        left.authored_by(left_site),
        right.authored_by(right_site),
        left_site != right_site,
    ensures
        left.agrees_with(right),
        right.agrees_with(left),
{
}

/// A state that has taken in a join has nothing more to take from either
/// side of it.
pub proof fn lemma_join_absorbs<K, V>(left: State<K, V>, right: State<K, V>)
    requires
        left.syncable(),
        right.syncable(),
        left.agrees_with(right),
    ensures
        right.join(left.join(right)) == left.join(right),
        left.join(right).join(right) == left.join(right),
{
    let joined = left.join(right);
    lemma_join_cells(left, right);
    lemma_join_keeps_agreement(left, right, right);
    lemma_join_commutes(right, joined);
    lemma_join_associates(left, right, right);
    lemma_join_is_idempotent(right);
}

/// A pull of everything is a join: whatever order the changes of `source`
/// come in, the replica that takes them all in ends at the join.
pub proof fn lemma_full_pull_is_join<K, V>(
    target: State<K, V>,
    source: State<K, V>,
    batch: Seq<ChangeView<K, V>>,
)
    requires
        target.sealed(),
        source.sealed(),
        source.extracted(0, batch),
    ensures
        target.apply_all(batch) == target.join(source),
{
    lemma_merge_order_is_irrelevant(target, source, 0, batch);
}

/// Two replicas that exchange everything converge, whoever pulls first:
/// after `a` has pulled from `b` and `b` from the merged `a`, both hold the
/// same state, and it is the state that both hold after the exchange in
/// the opposite order.
pub proof fn lemma_bidirectional_sync_converges<K, V>(
    a: State<K, V>,
    b: State<K, V>,
    from_b: Seq<ChangeView<K, V>>,
    from_merged_a: Seq<ChangeView<K, V>>,
    from_a: Seq<ChangeView<K, V>>,
    from_merged_b: Seq<ChangeView<K, V>>,
)
    requires
        a.syncable(),
        b.syncable(),
        a.agrees_with(b),
        b.extracted(0, from_b),
        a.apply_all(from_b).extracted(0, from_merged_a),
        a.extracted(0, from_a),
        b.apply_all(from_a).extracted(0, from_merged_b),
    ensures
        b.apply_all(from_merged_a) == a.apply_all(from_b),
        a.apply_all(from_merged_b) == b.apply_all(from_a),
        a.apply_all(from_b) == b.apply_all(from_a),
{
    lemma_full_pull_is_join(a, b, from_b);
    lemma_full_pull_is_join(b, a, from_a);
    lemma_join_cells(a, b);
    lemma_join_cells(b, a);
    lemma_join_commutes(a, b);
    lemma_full_pull_is_join(b, a.join(b), from_merged_a);
    lemma_full_pull_is_join(a, b.join(a), from_merged_b);
    lemma_join_absorbs(a, b);
    lemma_join_absorbs(b, a);
}

/// Two replicas of different sites, each holding only what its own site has
/// written, converge when they exchange everything, whoever pulls first and
/// whatever order the batches come in.
pub proof fn lemma_local_replicas_converge<K, V>(
    a: State<K, V>,
    site_a: u64,
    b: State<K, V>,
    site_b: u64,
    from_b: Seq<ChangeView<K, V>>,
    from_merged_a: Seq<ChangeView<K, V>>,
    from_a: Seq<ChangeView<K, V>>,
    from_merged_b: Seq<ChangeView<K, V>>,
)
    requires
        a.syncable(),
        b.syncable(),
        a.authored_by(site_a),
        b.authored_by(site_b),
        site_a != site_b,
        b.extracted(0, from_b),
        a.apply_all(from_b).extracted(0, from_merged_a),
        a.extracted(0, from_a),
        b.apply_all(from_a).extracted(0, from_merged_b),
    ensures
        b.apply_all(from_merged_a) == a.apply_all(from_b),
        a.apply_all(from_merged_b) == b.apply_all(from_a),
        a.apply_all(from_b) == b.apply_all(from_a),
{
    lemma_distinct_authors_agree(a, site_a, b, site_b);
    lemma_bidirectional_sync_converges(a, b, from_b, from_merged_a, from_a, from_merged_b);
}

} // verus!
