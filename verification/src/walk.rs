//! Walking over the records of a replica, column by column: what has been
//! collected when the walk has come to a given place.

use vstd::prelude::*;
use crate::change::ChangeView;
use crate::state::State;

verus! {

/// A walk over a hash map meets every key once, each with its value.
pub(crate) proof fn lemma_walk_covers<K, T>(map: Map<K, T>, all: Seq<(&K, &T)>)
    requires
        all.len() == map.dom().len(),
        forall|i: int|
            0 <= i < all.len() ==> map.contains_key(*(#[trigger] all[i]).0) && map[*all[i].0]
                == *all[i].1,
        forall|k: K| #[trigger] map.contains_key(k) ==> all.contains((&k, &map[k])),
    ensures
        ({
            let ids = all.map_values(|pair: (&K, &T)| *pair.0);
            &&& ids.no_duplicates()
            &&& ids.to_set() == map.dom()
            &&& forall|i: int| 0 <= i < all.len() ==> map[#[trigger] ids[i]] == *all[i].1
        }),
{
    let ids = all.map_values(|pair: (&K, &T)| *pair.0);
    assert forall|k: K| map.dom().contains(k) implies ids.to_set().contains(k) by {
        let i = choose|i: int| 0 <= i < all.len() && all[i] == (&k, &map[k]);
        assert(ids[i] == k);
    }
    assert forall|k: K| ids.to_set().contains(k) implies map.dom().contains(k) by {}
    assert(ids.to_set() =~= map.dom());
    ids.lemma_no_dup_set_cardinality();
}

/// The walk over the records has gone past column `name` of record `id`:
/// the first `k` records are done, and of record `ids[k]` the first `j`
/// columns.
pub(crate) open spec fn passed<K>(ids: Seq<K>, k: int, names: Seq<Seq<char>>, j: int, id: K, name: Seq<char>) -> bool {
    ids.take(k).contains(id) || (0 <= k < ids.len() && ids[k] == id && names.take(j).contains(
        name,
    ))
}

/// `out` holds, each once, the changes at or above the watermark that the
/// walk has gone past.
pub(crate) open spec fn gathered<K, V>(
    state: State<K, V>,
    watermark: u64,
    out: Seq<ChangeView<K, V>>,
    ids: Seq<K>,
    k: int,
    names: Seq<Seq<char>>,
    j: int,
) -> bool {
    &&& out.no_duplicates()
    &&& forall|c: ChangeView<K, V>| #[trigger]
        out.contains(c) <==> state.changes_since(watermark).contains(c) && passed(
            ids,
            k,
            names,
            j,
            c.record_id,
            c.col_name,
        )
}

/// Coming to a record, none of its columns has been passed.
pub(crate) proof fn lemma_gather_enter<K, V>(
    state: State<K, V>,
    watermark: u64,
    out: Seq<ChangeView<K, V>>,
    ids: Seq<K>,
    k: int,
    names: Seq<Seq<char>>,
)
    requires
        gathered(state, watermark, out, ids, k, Seq::empty(), 0),
    ensures
        gathered(state, watermark, out, ids, k, names, 0),
{
}

/// `highest` is the highest clock reading among the columns that the walk
/// has gone past, or `None` when it has gone past none.
pub(crate) open spec fn surveyed<K, V>(
    state: State<K, V>,
    highest: Option<u64>,
    ids: Seq<K>,
    k: int,
    names: Seq<Seq<char>>,
    j: int,
) -> bool {
    &&& forall|id: K, name: Seq<char>| #[trigger]
        state.has_cell(id, name) && passed(ids, k, names, j, id, name) ==> highest is Some
            && state.records[id].versions[name].db_version <= highest->0
    &&& highest is Some ==> exists|id: K, name: Seq<char>| #[trigger]
        state.has_cell(id, name) && state.records[id].versions[name].db_version == highest->0
}

/// Going past one more column: the highest reading is the higher of the
/// two.
pub(crate) proof fn lemma_survey_next<K, V>(
    state: State<K, V>,
    before: Option<u64>,
    highest: Option<u64>,
    ids: Seq<K>,
    k: int,
    names: Seq<Seq<char>>,
    j: int,
)
    requires
        0 <= k < ids.len(),
        0 <= j < names.len(),
        state.has_cell(ids[k], names[j]),
        surveyed(state, before, ids, k, names, j),
        ({
            let reading = state.records[ids[k]].versions[names[j]].db_version;
            highest == if before is None || reading > before->0 {
                Some(reading)
            } else {
                before
            }
        }),
    ensures
        surveyed(state, highest, ids, k, names, j + 1),
{
    assert forall|id: K, name: Seq<char>| #[trigger]
        state.has_cell(id, name) && passed(ids, k, names, j + 1, id, name) implies highest is Some
        && state.records[id].versions[name].db_version <= highest->0 by {
        lemma_take_next(names, j, name);
    }
}

/// Leaving a record whose columns have all been passed.
pub(crate) proof fn lemma_survey_leave<K, V>(
    state: State<K, V>,
    highest: Option<u64>,
    ids: Seq<K>,
    k: int,
    names: Seq<Seq<char>>,
)
    requires
        0 <= k < ids.len(),
        state.records.contains_key(ids[k]),
        names.to_set() == state.records[ids[k]].versions.dom(),
        surveyed(state, highest, ids, k, names, names.len() as int),
    ensures
        surveyed(state, highest, ids, k + 1, Seq::empty(), 0),
{
    assert(names.take(names.len() as int) =~= names);
    assert forall|id: K, name: Seq<char>| #[trigger]
        state.has_cell(id, name) && passed(ids, k + 1, Seq::empty(), 0, id, name) implies highest
        is Some && state.records[id].versions[name].db_version <= highest->0 by {
        lemma_take_next(ids, k, id);
    }
}

/// One more element of a sequence: what the longer prefix holds.
pub(crate) proof fn lemma_take_next<A>(s: Seq<A>, n: int, x: A)
    requires
        0 <= n < s.len(),
    ensures
        s.take(n + 1).contains(x) <==> s.take(n).contains(x) || s[n] == x,
        s.no_duplicates() ==> !s.take(n).contains(s[n]),
{
    let long = s.take(n + 1);
    if s[n] == x {
        assert(long[n] == x);
    }
}

/// Leaving a record whose columns have all been passed.
pub(crate) proof fn lemma_gather_leave<K, V>(
    state: State<K, V>,
    watermark: u64,
    out: Seq<ChangeView<K, V>>,
    ids: Seq<K>,
    k: int,
    names: Seq<Seq<char>>,
)
    requires
        0 <= k < ids.len(),
        state.records.contains_key(ids[k]),
        names.to_set() == state.records[ids[k]].versions.dom(),
        gathered(state, watermark, out, ids, k, names, names.len() as int),
    ensures
        gathered(state, watermark, out, ids, k + 1, Seq::empty(), 0),
{
    assert(names.take(names.len() as int) =~= names);
    assert forall|c: ChangeView<K, V>| #[trigger]
        out.contains(c) <==> state.changes_since(watermark).contains(c) && passed(
            ids,
            k + 1,
            Seq::empty(),
            0,
            c.record_id,
            c.col_name,
        ) by {
        lemma_take_next(ids, k, c.record_id);
    }
}

/// Going past a column that lies below the watermark.
pub(crate) proof fn lemma_gather_skip<K, V>(
    state: State<K, V>,
    watermark: u64,
    out: Seq<ChangeView<K, V>>,
    ids: Seq<K>,
    k: int,
    names: Seq<Seq<char>>,
    j: int,
)
    requires
        0 <= k < ids.len(),
        0 <= j < names.len(),
        state.has_cell(ids[k], names[j]),
        state.records[ids[k]].versions[names[j]].db_version < watermark,
        gathered(state, watermark, out, ids, k, names, j),
    ensures
        gathered(state, watermark, out, ids, k, names, j + 1),
{
    assert forall|c: ChangeView<K, V>| #[trigger]
        out.contains(c) <==> state.changes_since(watermark).contains(c) && passed(
            ids,
            k,
            names,
            j + 1,
            c.record_id,
            c.col_name,
        ) by {
        lemma_take_next(names, j, c.col_name);
    }
}

/// Going past a column at or above the watermark, and taking its change.
pub(crate) proof fn lemma_gather_take<K, V>(
    state: State<K, V>,
    watermark: u64,
    out: Seq<ChangeView<K, V>>,
    ids: Seq<K>,
    k: int,
    names: Seq<Seq<char>>,
    j: int,
)
    requires
        0 <= k < ids.len(),
        0 <= j < names.len(),
        ids.no_duplicates(),
        names.no_duplicates(),
        state.has_cell(ids[k], names[j]),
        state.records[ids[k]].versions[names[j]].db_version >= watermark,
        gathered(state, watermark, out, ids, k, names, j),
    ensures
        gathered(
            state,
            watermark,
            out.push(state.change_of(ids[k], names[j])),
            ids,
            k,
            names,
            j + 1,
        ),
{
    let new = state.change_of(ids[k], names[j]);
    let grown = out.push(new);
    assert(!passed(ids, k, names, j, ids[k], names[j])) by {
        lemma_take_next(ids, k, ids[k]);
        lemma_take_next(names, j, names[j]);
    }
    assert forall|a: int, b: int| 0 <= a < grown.len() && 0 <= b < grown.len() && a != b implies grown[a]
        != grown[b] by {
        if a < out.len() && b < out.len() {
        } else if a < out.len() {
            assert(out.contains(out[a]));
        } else {
            assert(out.contains(out[b]));
        }
    }
    assert forall|c: ChangeView<K, V>| #[trigger]
        grown.contains(c) <==> state.changes_since(watermark).contains(c) && passed(
            ids,
            k,
            names,
            j + 1,
            c.record_id,
            c.col_name,
        ) by {
        lemma_take_next(names, j, c.col_name);
        lemma_take_next(out.push(new), out.len() as int, c);
        assert(grown.take(out.len() as int) =~= out);
    }
}

/// At the end of the walk every change at or above the watermark is there.
pub(crate) proof fn lemma_gather_done<K, V>(
    state: State<K, V>,
    watermark: u64,
    out: Seq<ChangeView<K, V>>,
    ids: Seq<K>,
)
    requires
        ids.to_set() == state.records.dom(),
        gathered(state, watermark, out, ids, ids.len() as int, Seq::empty(), 0),
    ensures
        state.extracted(watermark, out),
{
    assert(ids.take(ids.len() as int) =~= ids);
    assert forall|c: ChangeView<K, V>|
        out.to_set().contains(c) <==> state.changes_since(watermark).contains(c) by {}
    assert(out.to_set() =~= state.changes_since(watermark));
}

} // verus!
