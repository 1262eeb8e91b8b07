//! Any number of replicas under any schedule of pulls: what a replica holds
//! depends only on whose data has reached it.

use vstd::prelude::*;
use crate::join::{
    lemma_distinct_authors_agree, lemma_join_absorbs, lemma_join_associates, lemma_join_cells, lemma_join_commutes,
    lemma_join_is_idempotent, lemma_join_keeps_agreement, lemma_equal_by_cells,
};
use crate::state::State;

verus! {

/// The replicas can be synchronized: each state is syncable and any two of
/// them agree.
pub open spec fn fleet<K, V>(start: Seq<State<K, V>>) -> bool {
    &&& forall|i: int| 0 <= i < start.len() ==> (#[trigger] start[i]).syncable()
    &&& forall|i: int, j: int|
        0 <= i < start.len() && 0 <= j < start.len() ==> (#[trigger] start[i]).agrees_with(
            #[trigger] start[j],
        )
}

/// Replicas of pairwise different sites, each holding only what its own site
/// has written, can be synchronized.
pub proof fn lemma_distinct_authors_form_a_fleet<K, V>(start: Seq<State<K, V>>, sites: Seq<u64>)
    requires
        sites.len() == start.len(),
        sites.no_duplicates(),
        forall|i: int|
            0 <= i < start.len() ==> (#[trigger] start[i]).syncable() && start[i].authored_by(
                sites[i],
            ),
    ensures
        fleet(start),
{
    assert forall|i: int, j: int| 0 <= i < start.len() && 0 <= j < start.len() implies (
    #[trigger] start[i]).agrees_with(#[trigger] start[j]) by {
        if i != j {
            lemma_distinct_authors_agree(start[i], sites[i], start[j], sites[j]);
        }
    }
}

/// A pull names replicas that exist.
pub open spec fn valid_pull(count: nat, pull: (int, int)) -> bool {
    0 <= pull.0 < count && 0 <= pull.1 < count
}

/// The states after a schedule of pulls. A pull `(target, source)` has
/// replica `target` take in everything that replica `source` holds.
pub open spec fn run<K, V>(start: Seq<State<K, V>>, schedule: Seq<(int, int)>) -> Seq<State<K, V>>
    decreases schedule.len(),
{
    if schedule.len() == 0 {
        start
    } else {
        let before = run(start, schedule.drop_last());
        let pull = schedule.last();
        if valid_pull(start.len(), pull) {
            before.update(pull.0, before[pull.0].join(before[pull.1]))
        } else {
            before
        }
    }
}

/// For each replica, the replicas whose starting state has reached it after
/// the schedule, directly or through others.
pub open spec fn heard(count: nat, schedule: Seq<(int, int)>) -> Seq<Set<int>>
    decreases schedule.len(),
{
    if schedule.len() == 0 {
        Seq::new(count, |i: int| Set::<int>::empty().insert(i))
    } else {
        let before = heard(count, schedule.drop_last());
        let pull = schedule.last();
        if valid_pull(count, pull) {
            before.update(pull.0, before[pull.0].union(before[pull.1]))
        } else {
            before
        }
    }
}

/// At some point of the schedule replica `target` pulls from replica
/// `source`.
pub open spec fn pulls(schedule: Seq<(int, int)>, target: int, source: int) -> bool {
    schedule.contains((target, source))
}

/// Every replica pulls from every other replica at some point of the
/// schedule.
pub open spec fn full_mesh(count: nat, schedule: Seq<(int, int)>) -> bool {
    forall|target: int, source: int|
        0 <= target < count && 0 <= source < count && target != source ==> #[trigger] pulls(
            schedule,
            target,
            source,
        )
}

/// Every replica.
pub open spec fn everyone(count: nat) -> Set<int> {
    Set::new(|i: int| 0 <= i < count)
}

/// The join of the starting states of the replicas in `who`, among the
/// first `upto` replicas.
pub open spec fn join_of<K, V>(start: Seq<State<K, V>>, who: Set<int>, upto: nat) -> State<K, V>
    decreases upto,
{
    if upto == 0 {
        State::empty()
    } else {
        let rest = join_of(start, who, (upto - 1) as nat);
        if who.contains(upto - 1) {
            rest.join(start[upto - 1])
        } else {
            rest
        }
    }
}

/// The empty state joined with a state is that state.
pub proof fn lemma_join_with_empty<K, V>(state: State<K, V>)
    requires
        state.syncable(),
    ensures
        State::<K, V>::empty().join(state) == state,
        state.join(State::<K, V>::empty()) == state,
        State::<K, V>::empty().syncable(),
        State::<K, V>::empty().agrees_with(state),
        state.agrees_with(State::<K, V>::empty()),
{
    let empty = State::<K, V>::empty();
    lemma_join_cells(empty, state);
    lemma_join_cells(state, empty);
    lemma_equal_by_cells(empty.join(state), state);
    lemma_equal_by_cells(state.join(empty), state);
}

/// A join of starting states is syncable and agrees with every starting
/// state.
pub proof fn lemma_join_of_is_syncable<K, V>(
    start: Seq<State<K, V>>,
    who: Set<int>,
    upto: nat,
    k: int,
)
    requires
        fleet(start),
        upto <= start.len(),
        0 <= k < start.len(),
    ensures
        join_of(start, who, upto).syncable(),
        join_of(start, who, upto).agrees_with(start[k]),
        start[k].agrees_with(join_of(start, who, upto)),
    decreases upto,
{
    if upto == 0 {
        lemma_join_with_empty(start[k]);
    } else {
        let rest = join_of(start, who, (upto - 1) as nat);
        lemma_join_of_is_syncable(start, who, (upto - 1) as nat, k);
        lemma_join_of_is_syncable(start, who, (upto - 1) as nat, upto - 1);
        if who.contains(upto - 1) {
            lemma_join_cells(rest, start[upto - 1]);
            lemma_join_keeps_agreement(rest, start[upto - 1], start[k]);
        }
    }
}

/// Two joins of starting states agree.
pub proof fn lemma_joins_of_agree<K, V>(
    start: Seq<State<K, V>>,
    one: Set<int>,
    n: nat,
    other: Set<int>,
    m: nat,
)
    requires
        fleet(start),
        n <= start.len(),
        m <= start.len(),
    ensures
        join_of(start, one, n).syncable(),
        join_of(start, other, m).syncable(),
        join_of(start, one, n).agrees_with(join_of(start, other, m)),
    decreases m,
{
    let left = join_of(start, one, n);
    if m == 0 {
        if start.len() > 0 {
            lemma_join_of_is_syncable(start, one, n, 0);
            lemma_join_with_empty(left);
        } else {
            lemma_join_with_empty(State::<K, V>::empty());
        }
    } else {
        let rest = join_of(start, other, (m - 1) as nat);
        lemma_joins_of_agree(start, one, n, other, (m - 1) as nat);
        lemma_join_of_is_syncable(start, one, n, m - 1);
        if other.contains(m - 1) {
            lemma_join_cells(rest, start[m - 1]);
            lemma_join_keeps_agreement(rest, start[m - 1], left);
        }
    }
}

/// The join over a union is the join of the joins.
pub proof fn lemma_join_of_union<K, V>(
    start: Seq<State<K, V>>,
    one: Set<int>,
    other: Set<int>,
    upto: nat,
)
    requires
        fleet(start),
        upto <= start.len(),
    ensures
        join_of(start, one.union(other), upto) == join_of(start, one, upto).join(
            join_of(start, other, upto),
        ),
    decreases upto,
{
    if upto == 0 {
        lemma_join_with_empty(State::<K, V>::empty());
    } else {
        let before = (upto - 1) as nat;
        let s = join_of(start, one, before);
        let t = join_of(start, other, before);
        let x = start[upto - 1];
        lemma_join_of_union(start, one, other, before);
        lemma_joins_of_agree(start, one, before, other, before);
        lemma_join_of_is_syncable(start, one, before, upto - 1);
        lemma_join_of_is_syncable(start, other, before, upto - 1);
        lemma_join_cells(s, t);
        lemma_join_cells(s, x);
        lemma_join_cells(t, x);
        lemma_join_keeps_agreement(s, t, x);
        lemma_join_keeps_agreement(t, x, s);
        if one.contains(upto - 1) && other.contains(upto - 1) {
            // (s + x) + (t + x) == s + (x + (t + x)) == s + (t + x) == (s + t) + x
            lemma_join_keeps_agreement(t, x, x);
            lemma_join_associates(s, x, t.join(x));
            lemma_join_absorbs(t, x);
            lemma_join_associates(s, t, x);
        } else if one.contains(upto - 1) {
            // (s + x) + t == s + (x + t) == s + (t + x) == (s + t) + x
            lemma_join_associates(s, x, t);
            lemma_join_commutes(x, t);
            lemma_join_associates(s, t, x);
        } else if other.contains(upto - 1) {
            lemma_join_associates(s, t, x);
        }
    }
}

/// Alone, a replica holds its starting state.
pub proof fn lemma_join_of_one<K, V>(start: Seq<State<K, V>>, i: int, upto: nat)
    requires
        fleet(start),
        0 <= i < start.len(),
        upto <= start.len(),
    ensures
        join_of(start, Set::<int>::empty().insert(i), upto) == if i < upto {
            start[i]
        } else {
            State::empty()
        },
    decreases upto,
{
    if upto > 0 {
        lemma_join_of_one(start, i, (upto - 1) as nat);
        if i == upto - 1 {
            lemma_join_with_empty(start[i]);
        }
    }
}

/// The shape of what a schedule leaves: as many states and as many sets as
/// there are replicas.
pub proof fn lemma_run_keeps_count<K, V>(start: Seq<State<K, V>>, schedule: Seq<(int, int)>)
    ensures
        run(start, schedule).len() == start.len(),
        heard(start.len(), schedule).len() == start.len(),
    decreases schedule.len(),
{
    if schedule.len() > 0 {
        lemma_run_keeps_count(start, schedule.drop_last());
    }
}

/// After any schedule a replica holds the join of the starting states that
/// have reached it.
pub proof fn lemma_run_is_join_of_heard<K, V>(
    start: Seq<State<K, V>>,
    schedule: Seq<(int, int)>,
    i: int,
)
    requires
        fleet(start),
        0 <= i < start.len(),
    ensures
        run(start, schedule).len() == start.len(),
        heard(start.len(), schedule).len() == start.len(),
        run(start, schedule)[i] == join_of(start, heard(start.len(), schedule)[i], start.len()),
    decreases schedule.len(),
{
    lemma_run_keeps_count(start, schedule);
    if schedule.len() == 0 {
        lemma_join_of_one(start, i, start.len());
    } else {
        let earlier = schedule.drop_last();
        let pull = schedule.last();
        lemma_run_keeps_count(start, earlier);
        lemma_run_is_join_of_heard(start, earlier, i);
        if valid_pull(start.len(), pull) && pull.0 == i {
            lemma_run_is_join_of_heard(start, earlier, pull.1);
            let known = heard(start.len(), earlier);
            lemma_join_of_union(start, known[i], known[pull.1], start.len());
        }
    }
}

/// What a replica has heard of only grows, it includes the replica itself
/// and what it pulled from, and it names replicas only.
pub proof fn lemma_heard_grows(count: nat, schedule: Seq<(int, int)>, upto: int, i: int)
    requires
        0 <= upto <= schedule.len(),
        0 <= i < count,
    ensures
        heard(count, schedule).len() == count,
        heard(count, schedule)[i].contains(i),
        heard(count, schedule.take(upto))[i].subset_of(heard(count, schedule)[i]),
        heard(count, schedule)[i].subset_of(everyone(count)),
        upto < schedule.len() && schedule[upto].0 == i && valid_pull(count, schedule[upto])
            ==> heard(count, schedule)[i].contains(schedule[upto].1),
    decreases schedule.len(),
{
    if schedule.len() == 0 {
        assert(schedule.take(upto) =~= schedule);
    } else {
        let earlier = schedule.drop_last();
        let pull = schedule.last();
        if upto == schedule.len() {
            assert(schedule.take(upto) =~= schedule);
            lemma_heard_grows(count, earlier, 0, i);
            if valid_pull(count, pull) {
                lemma_heard_grows(count, earlier, 0, pull.1);
            }
        } else {
            assert(earlier.take(upto) =~= schedule.take(upto));
            lemma_heard_grows(count, earlier, upto, i);
            if valid_pull(count, pull) {
                lemma_heard_grows(count, earlier, 0, pull.1);
            }
        }
    }
}

/// After a schedule in which every replica pulls from every other, every
/// replica has heard of every replica.
pub proof fn lemma_full_mesh_hears_everyone(count: nat, schedule: Seq<(int, int)>, i: int)
    requires
        full_mesh(count, schedule),
        0 <= i < count,
    ensures
        heard(count, schedule)[i] == everyone(count),
{
    let known = heard(count, schedule)[i];
    lemma_heard_grows(count, schedule, 0, i);
    assert forall|j: int| 0 <= j < count implies known.contains(j) by {
        if j != i {
            assert(pulls(schedule, i, j));
            let at = choose|at: int| 0 <= at < schedule.len() && schedule[at] == (i, j);
            lemma_heard_grows(count, schedule, at, i);
        }
    }
    assert(known =~= everyone(count));
}

/// Convergence of a full mesh: whatever the order of the pulls, after a
/// schedule in which every replica pulls everything from every other, all
/// replicas hold the same state, and any other such schedule ends in it.
pub proof fn lemma_full_mesh_converges<K, V>(
    start: Seq<State<K, V>>,
    one: Seq<(int, int)>,
    i: int,
    other: Seq<(int, int)>,
    j: int,
)
    requires
        fleet(start),
        full_mesh(start.len(), one),
        full_mesh(start.len(), other),
        0 <= i < start.len(),
        0 <= j < start.len(),
    ensures
        run(start, one)[i] == run(start, other)[j],
        run(start, one)[i] == run(start, one)[j],
{
    lemma_full_mesh_hears_everyone(start.len(), one, i);
    lemma_full_mesh_hears_everyone(start.len(), one, j);
    lemma_full_mesh_hears_everyone(start.len(), other, j);
    lemma_schedules_converge(start, one, i, other, j);
    lemma_schedules_converge(start, one, i, one, j);
}

/// Convergence under any schedule: two replicas that the same starting
/// states have reached hold the same state, whatever the schedules that
/// brought them there. In particular, once every replica has heard of every
/// other, all of them hold the same state, and every schedule that goes
/// that far ends in it.
pub proof fn lemma_schedules_converge<K, V>(
    start: Seq<State<K, V>>,
    one: Seq<(int, int)>,
    i: int,
    other: Seq<(int, int)>,
    j: int,
)
    requires
        fleet(start),
        0 <= i < start.len(),
        0 <= j < start.len(),
        heard(start.len(), one)[i] == heard(start.len(), other)[j],
    ensures
        run(start, one)[i] == run(start, other)[j],
{
    lemma_run_is_join_of_heard(start, one, i);
    lemma_run_is_join_of_heard(start, other, j);
}

} // verus!
