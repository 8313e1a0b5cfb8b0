//! The consistency of the output manager's storage, and that the operations
//! keep it.
//!
//! A store is consistent where each output is held in one place, each
//! transaction has one bundle, and what is encumbered is not unspent
//! ([`StoreState::is_consistent`]). A fetch changes nothing, and neither
//! does an operation that is refused; the lemmas here speak of the
//! operations that go through. Most keep a consistent store consistent
//! whatever they are given. Those that bring outputs or bundles in from
//! outside do so where what they bring in is new to the store.

use crate::output_manager::clock::Timestamp;
use crate::output_manager::database::{
    DbKeyRecord,
    DbKeyValueRecord,
    KeyManagerRecord,
    OutputRecord,
    PendingRecord,
    TxId,
};
use crate::output_manager::store_laws::lemma_take_outputs_keeps_keys_apart;
use crate::output_manager::store_state::{
    first_with_key,
    holds_key,
    is_ordering_of,
    lemma_first_with_key,
    spending_keys,
    take_outputs,
    timed_out_ids,
    Place,
    StoreState,
};
use vstd::prelude::*;

verus! {

/// The empty store is consistent.
pub proof fn lemma_empty_is_consistent()
    ensures
        StoreState::empty().is_consistent(),
{
}

/// Where every place of one state either comes from a place of another that
/// held the same spending key, no two from the same, or holds a key that no
/// other place of the state holds, the state has its keys unique if the other
/// has. `origin` tells where a place comes from, `None` for one that is new.
pub proof fn lemma_keys_stay_unique(
    before: StoreState,
    after: StoreState,
    origin: spec_fn(Place) -> Option<Place>,
)
    requires
        before.keys_are_unique(),
        forall|p: Place| #[trigger]
            after.has_place(p) && origin(p) is Some ==> before.has_place(origin(p)->0)
                && before.output_at(origin(p)->0).spending_key == after.output_at(p).spending_key,
        forall|p: Place, q: Place|
            #![trigger after.has_place(p), after.has_place(q)]
            after.has_place(p) && after.has_place(q) && origin(p) is Some && origin(p) == origin(q)
                ==> p == q,
        forall|p: Place, q: Place|
            #![trigger after.has_place(p), after.has_place(q)]
            after.has_place(p) && after.has_place(q) && origin(p) is None && after.output_at(
                p,
            ).spending_key == after.output_at(q).spending_key ==> p == q,
    ensures
        after.keys_are_unique(),
{
    assert forall|p: Place, q: Place|
        #![trigger after.has_place(p), after.has_place(q)]
        after.has_place(p) && after.has_place(q) && after.output_at(p).spending_key
            == after.output_at(q).spending_key implies p == q by {
        if origin(p) is Some && origin(q) is Some {
            assert(before.has_place(origin(p)->0) && before.has_place(origin(q)->0));
        }
    }
}

/// The unique keys put the encumbered outputs apart from the unspent ones.
pub proof fn lemma_unique_keys_keep_encumbered_apart(state: StoreState)
    requires
        state.keys_are_unique(),
    ensures
        state.encumbered_outputs_are_not_unspent(),
{
    assert forall|tx_id: TxId, short_term: bool, index: int| #[trigger]
        state.has_place(Place::ToBeSpent { tx_id, short_term, index }) implies !holds_key(
        state.unspent,
        state.output_at(Place::ToBeSpent { tx_id, short_term, index }).spending_key,
    ) by {
        let place = Place::ToBeSpent { tx_id, short_term, index };
        let key = state.output_at(place).spending_key;
        if holds_key(state.unspent, key) {
            let i = choose|i: int|
                0 <= i < state.unspent.len() && (#[trigger] state.unspent[i]).spending_key == key;
            assert(state.has_place(Place::Unspent(i)));
            assert(state.has_place(place));
        }
    }
}

/// In a state whose keys are unique the unspent outputs have different
/// spending keys.
pub proof fn lemma_unspent_keys_differ(state: StoreState)
    requires
        state.keys_are_unique(),
    ensures
        spending_keys(state.unspent).no_duplicates(),
{
    let keys = spending_keys(state.unspent);
    assert forall|i: int, j: int| 0 <= i < keys.len() && 0 <= j < keys.len() && i != j implies keys[i]
        != keys[j] by {
        assert(state.has_place(Place::Unspent(i)) && state.has_place(Place::Unspent(j)));
    }
}

/// Inserting an output keeps the store consistent where the output's
/// spending key is not held anywhere yet.
pub proof fn lemma_insert_output_keeps_consistency(
    state: StoreState,
    key: Seq<u8>,
    output: OutputRecord,
    spent: bool,
)
    requires
        state.is_consistent(),
        !state.holds(output.spending_key),
    ensures
        state.insert(
            if spent {
                DbKeyValueRecord::SpentOutput(key, output)
            } else {
                DbKeyValueRecord::UnspentOutput(key, output)
            },
        ) matches Ok(next) ==> next.is_consistent(),
{
    let pair = if spent {
        DbKeyValueRecord::SpentOutput(key, output)
    } else {
        DbKeyValueRecord::UnspentOutput(key, output)
    };
    if let Ok(next) = state.insert(pair) {
        let new_place = if spent {
            Place::Spent(state.spent.len() as int)
        } else {
            Place::Unspent(state.unspent.len() as int)
        };
        let origin = |p: Place|
            if p == new_place {
                None
            } else {
                Some(p)
            };
        assert forall|p: Place, q: Place|
            #![trigger next.has_place(p), next.has_place(q)]
            next.has_place(p) && next.has_place(q) && origin(p) is None && next.output_at(
                p,
            ).spending_key == next.output_at(q).spending_key implies p == q by {
            if q != p {
                assert(state.has_place(q) && state.output_at(q).spending_key
                    == output.spending_key);
            }
        }
        lemma_keys_stay_unique(state, next, origin);
        lemma_unique_keys_keep_encumbered_apart(next);
    }
}

/// The state without the bundle of `tx_id` that awaits mining, or without
/// the one that is being negotiated.
pub open spec fn without(state: StoreState, tx_id: TxId, short_term: bool) -> StoreState {
    if short_term {
        StoreState { short_term_pending: state.short_term_pending.remove(tx_id), ..state }
    } else {
        StoreState { pending: state.pending.remove(tx_id), ..state }
    }
}

/// Whether the outputs of a bundle have spending keys that differ from each
/// other and from every key that the state holds.
pub open spec fn bundle_is_new(state: StoreState, bundle: PendingRecord) -> bool {
    let outputs = bundle.outputs_to_be_spent + bundle.outputs_to_be_received;
    &&& spending_keys(outputs).no_duplicates()
    &&& forall|i: int| 0 <= i < outputs.len() ==> !state.holds((#[trigger] outputs[i]).spending_key)
}

/// Inserting a bundle among those that await mining keeps the store
/// consistent where no bundle is being negotiated under its identifier and
/// its outputs are new to the store, the bundle that it replaces set aside.
pub proof fn lemma_insert_bundle_keeps_consistency(
    state: StoreState,
    tx_id: TxId,
    bundle: PendingRecord,
)
    requires
        state.is_consistent(),
        !state.short_term_pending.contains_key(tx_id),
        bundle_is_new(without(state, tx_id, false), bundle),
    ensures
        state.insert(DbKeyValueRecord::PendingTransactionOutputs(tx_id, bundle)) matches Ok(next)
            ==> next.is_consistent(),
{
    let next = state.insert(DbKeyValueRecord::PendingTransactionOutputs(tx_id, bundle))->Ok_0;
    let rest = without(state, tx_id, false);
    let outputs = bundle.outputs_to_be_spent + bundle.outputs_to_be_received;
    let sent = bundle.outputs_to_be_spent.len() as int;
    let keys = spending_keys(outputs);
    // Where in `outputs` a place of the new bundle stands.
    let slot = |p: Place|
        match p {
            Place::ToBeSpent { tx_id: t, short_term, index } => index,
            Place::ToBeReceived { tx_id: t, short_term, index } => sent + index,
            _ => 0,
        };
    let is_new = |p: Place|
        match p {
            Place::ToBeSpent { tx_id: t, short_term, index } => t == tx_id && !short_term,
            Place::ToBeReceived { tx_id: t, short_term, index } => t == tx_id && !short_term,
            _ => false,
        };
    let origin = |p: Place|
        if is_new(p) {
            None
        } else {
            Some(p)
        };
    assert forall|p: Place| #[trigger] next.has_place(p) && is_new(p) implies 0 <= slot(p)
        < outputs.len() && outputs[slot(p)] == next.output_at(p) by {}
    assert forall|p: Place| #[trigger] next.has_place(p) && !is_new(p) implies rest.has_place(p)
        && rest.output_at(p) == next.output_at(p) && state.has_place(p) && state.output_at(p)
        == next.output_at(p) by {}
    assert forall|p: Place, q: Place|
        #![trigger next.has_place(p), next.has_place(q)]
        next.has_place(p) && next.has_place(q) && origin(p) is None && next.output_at(
            p,
        ).spending_key == next.output_at(q).spending_key implies p == q by {
        if is_new(q) {
            assert(keys[slot(p)] == keys[slot(q)]);
            assert(slot(p) == slot(q));
        } else {
            assert(rest.has_place(q) && rest.output_at(q).spending_key == outputs[slot(
                p,
            )].spending_key);
            assert(rest.holds(outputs[slot(p)].spending_key));
        }
    }
    lemma_keys_stay_unique(state, next, origin);
    lemma_unique_keys_keep_encumbered_apart(next);
}

/// Storing a key manager state keeps the store consistent.
pub proof fn lemma_insert_key_manager_state_keeps_consistency(
    state: StoreState,
    key_manager_state: KeyManagerRecord,
)
    requires
        state.is_consistent(),
    ensures
        state.insert(DbKeyValueRecord::KeyManagerState(key_manager_state)) matches Ok(next)
            ==> next.is_consistent(),
{
    let next = state.insert(DbKeyValueRecord::KeyManagerState(key_manager_state))->Ok_0;
    lemma_keys_stay_unique(state, next, |p: Place| Some(p));
    lemma_unique_keys_keep_encumbered_apart(next);
}

/// Removing a value keeps the store consistent.
pub proof fn lemma_remove_keeps_consistency(state: StoreState, key: DbKeyRecord)
    requires
        state.is_consistent(),
    ensures
        state.remove(key) matches Ok((next, value)) ==> next.is_consistent(),
{
    if let Ok((next, value)) = state.remove(key) {
        match key {
            DbKeyRecord::SpentOutput(k) => {
                lemma_first_with_key(state.spent, k);
                let at = first_with_key(state.spent, k);
                let origin = |p: Place|
                    match p {
                        Place::Spent(i) => if i < at {
                            Some(p)
                        } else {
                            Some(Place::Spent(i + 1))
                        },
                        _ => Some(p),
                    };
                lemma_keys_stay_unique(state, next, origin);
            },
            DbKeyRecord::UnspentOutput(k) => {
                lemma_first_with_key(state.unspent, k);
                let at = first_with_key(state.unspent, k);
                let origin = |p: Place|
                    match p {
                        Place::Unspent(i) => if i < at {
                            Some(p)
                        } else {
                            Some(Place::Unspent(i + 1))
                        },
                        _ => Some(p),
                    };
                lemma_keys_stay_unique(state, next, origin);
            },
            _ => {
                lemma_keys_stay_unique(state, next, |p: Place| Some(p));
            },
        }
        lemma_unique_keys_keep_encumbered_apart(next);
    }
}

/// Encumbering outputs keeps the store consistent where no bundle awaits
/// mining under the identifier and the spending key of the change output, if
/// there is one, is not held anywhere, the bundle that is replaced set
/// aside.
pub proof fn lemma_encumber_keeps_consistency(
    state: StoreState,
    tx_id: TxId,
    keys: Seq<Seq<u8>>,
    change_output: Option<OutputRecord>,
    now: Timestamp,
)
    requires
        state.is_consistent(),
        !state.pending.contains_key(tx_id),
        change_output matches Some(output) ==> !without(state, tx_id, true).holds(
            output.spending_key,
        ),
    ensures
        state.short_term_encumber_outputs(tx_id, keys, change_output, now) matches Ok(next)
            ==> next.is_consistent(),
{
    if let Ok(next) = state.short_term_encumber_outputs(tx_id, keys, change_output, now) {
        let (left, taken) = take_outputs(state.unspent, keys)->0;
        let all = left + taken;
        let rest = without(state, tx_id, true);
        lemma_unspent_keys_differ(state);
        lemma_take_outputs_keeps_keys_apart(state.unspent, keys);
        let found = |output: OutputRecord|
            choose|i: int| 0 <= i < state.unspent.len() && state.unspent[i] == output;
        let origin = |p: Place|
            match p {
                Place::Unspent(j) => Some(Place::Unspent(found(left[j]))),
                Place::ToBeSpent { tx_id: t, short_term, index } => if t == tx_id && short_term {
                    Some(Place::Unspent(found(taken[index])))
                } else {
                    Some(p)
                },
                Place::ToBeReceived { tx_id: t, short_term, index } => if t == tx_id
                    && short_term {
                    None
                } else {
                    Some(p)
                },
                _ => Some(p),
            };
        // Where in `left + taken` a place stands that came from the unspent
        // outputs.
        let slot = |p: Place|
            match p {
                Place::Unspent(j) => j,
                Place::ToBeSpent { tx_id: t, short_term, index } => left.len() + index,
                _ => 0,
            };
        let moved = |p: Place|
            match p {
                Place::Unspent(j) => true,
                Place::ToBeSpent { tx_id: t, short_term, index } => t == tx_id && short_term,
                _ => false,
            };
        assert forall|p: Place| #[trigger] next.has_place(p) && moved(p) implies 0 <= slot(p)
            < all.len() && all[slot(p)] == next.output_at(p) && origin(p) == Some(
            Place::Unspent(found(all[slot(p)])),
        ) && state.unspent.contains(all[slot(p)]) by {}
        assert forall|p: Place| #[trigger]
            next.has_place(p) && origin(p) is Some implies state.has_place(origin(p)->0)
            && state.output_at(origin(p)->0).spending_key == next.output_at(p).spending_key
            && rest.has_place(origin(p)->0) && rest.output_at(origin(p)->0) == state.output_at(
            origin(p)->0,
        ) by {
            if moved(p) {
                assert(state.unspent.contains(all[slot(p)]));
            }
        }
        assert forall|p: Place, q: Place|
            #![trigger next.has_place(p), next.has_place(q)]
            next.has_place(p) && next.has_place(q) && origin(p) is Some && origin(p) == origin(
                q,
            ) implies p == q by {
            if moved(p) {
                assert(state.unspent.contains(all[slot(p)]));
                assert(moved(q));
                assert(state.unspent.contains(all[slot(q)]));
                assert(all[slot(p)] == all[slot(q)]);
                assert(spending_keys(all)[slot(p)] == spending_keys(all)[slot(q)]);
                assert(slot(p) == slot(q));
            } else if moved(q) {
                assert(state.unspent.contains(all[slot(q)]));
            }
        }
        assert forall|p: Place, q: Place|
            #![trigger next.has_place(p), next.has_place(q)]
            next.has_place(p) && next.has_place(q) && origin(p) is None && next.output_at(
                p,
            ).spending_key == next.output_at(q).spending_key implies p == q by {
            if origin(q) is Some {
                assert(next.has_place(q) && origin(q) is Some);
                assert(rest.has_place(origin(q)->0));
                assert(rest.holds(change_output->0.spending_key));
            }
        }
        lemma_keys_stay_unique(state, next, origin);
        lemma_unique_keys_keep_encumbered_apart(next);
    }
}

/// Confirming the outputs encumbered for a transaction keeps the store
/// consistent.
pub proof fn lemma_confirm_encumbered_keeps_consistency(state: StoreState, tx_id: TxId)
    requires
        state.is_consistent(),
    ensures
        state.confirm_encumbered_outputs(tx_id) matches Ok(next) ==> next.is_consistent(),
{
    if let Ok(next) = state.confirm_encumbered_outputs(tx_id) {
        assert(!state.pending.contains_key(tx_id));
        let origin = |p: Place|
            match p {
                Place::ToBeSpent { tx_id: t, short_term, index } => if t == tx_id {
                    Some(Place::ToBeSpent { tx_id, short_term: true, index })
                } else {
                    Some(p)
                },
                Place::ToBeReceived { tx_id: t, short_term, index } => if t == tx_id {
                    Some(Place::ToBeReceived { tx_id, short_term: true, index })
                } else {
                    Some(p)
                },
                _ => Some(p),
            };
        lemma_keys_stay_unique(state, next, origin);
        lemma_unique_keys_keep_encumbered_apart(next);
    }
}

/// Confirming that a transaction was mined keeps the store consistent.
pub proof fn lemma_confirm_transaction_keeps_consistency(state: StoreState, tx_id: TxId)
    requires
        state.is_consistent(),
    ensures
        state.confirm_transaction(tx_id) matches Ok(next) ==> next.is_consistent(),
{
    if let Ok(next) = state.confirm_transaction(tx_id) {
        let short_term = !state.pending.contains_key(tx_id);
        let spent = state.spent.len() as int;
        let unspent = state.unspent.len() as int;
        let origin = |p: Place|
            match p {
                Place::Spent(i) => if i < spent {
                    Some(p)
                } else {
                    Some(Place::ToBeSpent { tx_id, short_term, index: i - spent })
                },
                Place::Unspent(i) => if i < unspent {
                    Some(p)
                } else {
                    Some(Place::ToBeReceived { tx_id, short_term, index: i - unspent })
                },
                _ => Some(p),
            };
        lemma_keys_stay_unique(state, next, origin);
        lemma_unique_keys_keep_encumbered_apart(next);
    }
}

/// Cancelling a transaction keeps the store consistent.
pub proof fn lemma_cancel_keeps_consistency(state: StoreState, tx_id: TxId)
    requires
        state.is_consistent(),
    ensures
        state.cancel_pending_transaction(tx_id) matches Ok(next) ==> next.is_consistent(),
{
    if let Ok(next) = state.cancel_pending_transaction(tx_id) {
        let short_term = !state.pending.contains_key(tx_id);
        let held = state.unspent.len() as int;
        let origin = |p: Place|
            match p {
                Place::Unspent(i) => if i < held {
                    Some(p)
                } else {
                    Some(Place::ToBeSpent { tx_id, short_term, index: i - held })
                },
                _ => Some(p),
            };
        lemma_keys_stay_unique(state, next, origin);
        lemma_unique_keys_keep_encumbered_apart(next);
    }
}

/// Cancelling transactions one after the other keeps the store consistent.
pub proof fn lemma_cancel_all_keeps_consistency(state: StoreState, order: Seq<TxId>)
    requires
        state.is_consistent(),
    ensures
        state.cancel_all(order).is_consistent(),
    decreases order.len(),
{
    if order.len() > 0 {
        lemma_cancel_all_keeps_consistency(state, order.drop_last());
        lemma_cancel_keeps_consistency(state.cancel_all(order.drop_last()), order.last());
    }
}

/// Clearing the short-term encumbrances keeps the store consistent, whatever
/// the order in which the transactions are cancelled.
pub proof fn lemma_clear_keeps_consistency(state: StoreState, next: StoreState)
    requires
        state.is_consistent(),
        state.cleared_to(next),
    ensures
        next.is_consistent(),
{
    let order = choose|order: Seq<TxId>|
        is_ordering_of(order, state.short_term_pending.dom()) && next
            == #[trigger] state.cancel_all(order);
    lemma_cancel_all_keeps_consistency(state, order);
}

/// Timing transactions out keeps the store consistent, whatever the order
/// in which they are cancelled.
pub proof fn lemma_timeout_keeps_consistency(
    state: StoreState,
    period_nanos: int,
    now: Timestamp,
    next: StoreState,
)
    requires
        state.is_consistent(),
        state.timed_out_to(period_nanos, now, next),
    ensures
        next.is_consistent(),
{
    let (first, second) = choose|first: Seq<TxId>, second: Seq<TxId>|
        is_ordering_of(first, timed_out_ids(state.pending, period_nanos, now)) && is_ordering_of(
            second,
            timed_out_ids(state.short_term_pending, period_nanos, now),
        ) && next == #[trigger] state.cancel_all(first + second);
    lemma_cancel_all_keeps_consistency(state, first + second);
}

/// Marking an unspent output as invalid keeps the store consistent.
pub proof fn lemma_invalidate_keeps_consistency(state: StoreState, key: Seq<u8>)
    requires
        state.is_consistent(),
    ensures
        state.invalidate_unspent_output(key) matches Ok(next) ==> next.is_consistent(),
{
    if let Ok(next) = state.invalidate_unspent_output(key) {
        lemma_first_with_key(state.unspent, key);
        let at = first_with_key(state.unspent, key);
        let invalid = state.invalid.len() as int;
        let origin = |p: Place|
            match p {
                Place::Unspent(i) => if i < at {
                    Some(p)
                } else {
                    Some(Place::Unspent(i + 1))
                },
                Place::Invalid(i) => if i < invalid {
                    Some(p)
                } else {
                    Some(Place::Unspent(at))
                },
                _ => Some(p),
            };
        lemma_keys_stay_unique(state, next, origin);
        lemma_unique_keys_keep_encumbered_apart(next);
    }
}

/// Incrementing the key index keeps the store consistent.
pub proof fn lemma_increment_keeps_consistency(state: StoreState)
    requires
        state.is_consistent(),
    ensures
        state.increment_key_index() matches Ok(next) ==> next.is_consistent(),
{
    if let Ok(next) = state.increment_key_index() {
        lemma_keys_stay_unique(state, next, |p: Place| Some(p));
        lemma_unique_keys_keep_encumbered_apart(next);
    }
}

} // verus!
