//! What holds of every pool, stated over the model and proved once.

use vstd::prelude::*;
use crate::model::PoolState;

verus! {

/// One step of a pool's life as its holder sees it: `held` is the set of
/// slots whose loans the holder keeps. A step lends the lowest free slot,
/// finds the pool exhausted, or ends one of the loans that are held. The
/// partition of the storage stays as it is.
pub open spec fn loan_step<V>(
    before: PoolState<V>,
    held_before: Set<int>,
    after: PoolState<V>,
    held_after: Set<int>,
) -> bool {
    &&& after.buffer_size == before.buffer_size
    &&& after.storage.len() == before.storage.len()
    &&& {
        ||| exists|index: int|
            {
                &&& #[trigger] before.lowest_free(index)
                &&& after.loaned == before.loaned.insert(index)
                &&& held_after == held_before.insert(index)
            }
        ||| {
            &&& before.exhausted()
            &&& after.loaned == before.loaned
            &&& held_after == held_before
        }
        ||| exists|index: int|
            {
                &&& #[trigger] held_before.contains(index)
                &&& after.loaned == before.loaned.remove(index)
                &&& held_after == held_before.remove(index)
            }
    }
}

/// A history of a pool: it starts with no slot on loan and none held, and
/// each state follows from the one before by a step.
pub open spec fn loan_history<V>(states: Seq<PoolState<V>>, held: Seq<Set<int>>) -> bool {
    &&& states.len() == held.len()
    &&& states.len() > 0
    &&& states[0].loaned == Set::<int>::empty()
    &&& held[0] == Set::<int>::empty()
    &&& forall|t: int|
        0 <= t < states.len() - 1 ==> #[trigger] loan_step(
            states[t],
            held[t],
            states[t + 1],
            held[t + 1],
        )
}

/// The windows of two different slots share no storage position.
pub proof fn lemma_windows_disjoint<V>(state: PoolState<V>, first: int, second: int, position: int)
    requires
        first != second,
    ensures
        !(state.in_window(first, position) && state.in_window(second, position)),
{
    let size = state.buffer_size as int;
    if first < second {
        assert((first + 1) * size <= second * size) by (nonlinear_arith)
            requires
                first + 1 <= second,
                0 <= size,
        ;
    } else {
        assert((second + 1) * size <= first * size) by (nonlinear_arith)
            requires
                second + 1 <= first,
                0 <= size,
        ;
    }
}

/// The window of a slot of the pool lies inside the storage, where the
/// storage is a whole number of slots.
pub proof fn lemma_window_in_storage<V>(state: PoolState<V>, index: int, position: int)
    requires
        state.storage.len() == state.slots() * state.buffer_size,
        0 <= index < state.slots(),
        state.in_window(index, position),
    ensures
        0 <= position < state.storage.len(),
{
    let size = state.buffer_size as int;
    let slots = state.slots();
    assert(0 <= index * size && (index + 1) * size <= slots * size) by (nonlinear_arith)
        requires
            0 <= index < slots,
            0 <= size,
    ;
}

/// At every point of a history the slots that the pool records as on loan
/// are exactly those whose loans are held, each of them is a slot of the
/// pool, and the windows of any two of them share no storage position.
pub proof fn lemma_history_exclusive<V>(
    states: Seq<PoolState<V>>,
    held: Seq<Set<int>>,
    t: int,
)
    requires
        loan_history(states, held),
        0 <= t < states.len(),
    ensures
        states[t].loaned == held[t],
        forall|i: int| held[t].contains(i) ==> 0 <= i < states[t].slots(),
        forall|i: int, j: int, position: int|
            held[t].contains(i) && held[t].contains(j) && i != j ==> !(states[t].in_window(
                i,
                position,
            ) && states[t].in_window(j, position)),
    decreases t,
{
    if t > 0 {
        let p = t - 1;
        lemma_history_exclusive(states, held, p);
        assert(loan_step(states[p], held[p], states[p + 1], held[p + 1]));
        assert(states[t].slots() == states[p].slots());
    }
    assert forall|i: int, j: int, position: int|
        held[t].contains(i) && held[t].contains(j) && i != j implies !(states[t].in_window(
        i,
        position,
    ) && states[t].in_window(j, position)) by {
        lemma_windows_disjoint(states[t], i, j, position);
    }
}

/// A pool without slots lends nothing: it is exhausted, and no index is
/// its lowest free slot.
pub proof fn lemma_no_slots_exhausted<V>(state: PoolState<V>)
    requires
        state.slots() == 0,
    ensures
        state.exhausted(),
        forall|index: int| !state.lowest_free(index),
{
}

/// A pool is exhausted exactly when it has no lowest free slot, so a
/// request for a slot has one outcome only.
pub proof fn lemma_exhausted_or_free<V>(state: PoolState<V>)
    ensures
        state.exhausted() <==> forall|index: int| !state.lowest_free(index),
{
    if !state.exhausted() {
        let j = choose|j: int| 0 <= j < state.slots() && !state.loaned.contains(j);
        lemma_lowest_free_exists(state, j);
    }
}

proof fn lemma_lowest_free_exists<V>(state: PoolState<V>, bound: int)
    requires
        0 <= bound < state.slots(),
        !state.loaned.contains(bound),
    ensures
        exists|index: int| state.lowest_free(index),
    decreases bound,
{
    if forall|j: int| 0 <= j < bound ==> state.loaned.contains(j) {
        assert(state.lowest_free(bound));
    } else {
        let j = choose|j: int| 0 <= j < bound && !state.loaned.contains(j);
        lemma_lowest_free_exists(state, j);
    }
}

/// A pool has at most one lowest free slot.
pub proof fn lemma_lowest_free_unique<V>(state: PoolState<V>, first: int, second: int)
    requires
        state.lowest_free(first),
        state.lowest_free(second),
    ensures
        first == second,
{
}

/// In a pool with no slot on loan the lowest free slot is slot 0.
pub proof fn lemma_idle_lends_first<V>(state: PoolState<V>, index: int)
    requires
        state.idle(),
        state.lowest_free(index),
    ensures
        index == 0,
{
    if index > 0 {
        assert(state.loaned.contains(0));
    }
}

/// Lending the lowest free slot and ending that loan leaves the set of
/// loans as it was, so the next request is served with the same slot.
pub proof fn lemma_release_then_same_slot<V>(
    before: PoolState<V>,
    lent: PoolState<V>,
    released: PoolState<V>,
    first: int,
    second: int,
)
    requires
        before.lowest_free(first),
        lent.loaned == before.loaned.insert(first),
        released.loaned == lent.loaned.remove(first),
        released.storage.len() == before.storage.len(),
        released.buffer_size == before.buffer_size,
        released.lowest_free(second),
    ensures
        released.loaned == before.loaned,
        second == first,
{
    assert(released.loaned =~= before.loaned);
}

} // verus!
