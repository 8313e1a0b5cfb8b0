//! What holds of the output manager's storage across operations.
//!
//! Each law is stated of the model, [`StoreState`], which the operations of
//! the executable store follow step by step.

use crate::output_manager::clock::Timestamp;
use crate::output_manager::database::{
    DbKeyRecord,
    DbKeyValueRecord,
    DbValueRecord,
    OutputRecord,
    PendingRecord,
    TxId,
};
use crate::output_manager::error::StorageErrorRecord;
use crate::output_manager::store_state::{
    first_with_key,
    holds_key,
    is_first_with_key,
    is_ordering_of,
    lemma_first_with_key,
    lemma_first_with_key_is_unique,
    spending_keys,
    take_outputs,
    timed_out_ids,
    StoreState,
};
use vstd::prelude::*;

verus! {

/// Taking outputs only moves them: those left and those taken are together
/// the outputs there were, and the outputs taken have the keys asked for, in
/// the order asked.
pub proof fn lemma_take_outputs_moves(unspent: Seq<OutputRecord>, keys: Seq<Seq<u8>>)
    requires
        take_outputs(unspent, keys) is Some,
    ensures
        ({
            let (left, taken) = take_outputs(unspent, keys)->0;
            &&& left.to_multiset().add(taken.to_multiset()) == unspent.to_multiset()
            &&& spending_keys(taken) == keys
            &&& left.len() + taken.len() == unspent.len()
        }),
    decreases keys.len(),
{
    broadcast use vstd::seq_lib::group_to_multiset_ensures;

    if keys.len() == 0 {
        let (left, taken) = take_outputs(unspent, keys)->0;
        assert(taken.to_multiset() =~= vstd::multiset::Multiset::empty());
        assert(left.to_multiset().add(taken.to_multiset()) =~= unspent.to_multiset());
        assert(spending_keys(taken) =~= keys);
    } else {
        lemma_take_outputs_moves(unspent, keys.drop_last());
        let (left, taken) = take_outputs(unspent, keys.drop_last())->0;
        lemma_first_with_key(left, keys.last());
        let i = first_with_key(left, keys.last());
        assert(left.remove(i).to_multiset() =~= left.to_multiset().remove(left[i]));
        assert(taken.push(left[i]).to_multiset() =~= taken.to_multiset().insert(left[i]));
        assert(left.to_multiset().count(left[i]) > 0);
        assert(left.remove(i).to_multiset().add(taken.push(left[i]).to_multiset())
            =~= left.to_multiset().add(taken.to_multiset()));
        assert(spending_keys(taken.push(left[i])) =~= spending_keys(taken).push(keys.last()));
        assert(keys.drop_last().push(keys.last()) =~= keys);
    }
}

/// Outputs that are the same as multisets have the same spending keys as
/// multisets.
pub proof fn lemma_same_outputs_same_keys(a: Seq<OutputRecord>, b: Seq<OutputRecord>)
    requires
        a.to_multiset() == b.to_multiset(),
    ensures
        spending_keys(a).to_multiset() == spending_keys(b).to_multiset(),
    decreases a.len(),
{
    broadcast use vstd::seq_lib::group_to_multiset_ensures;

    assert(a.len() == a.to_multiset().len() && b.len() == b.to_multiset().len());
    if a.len() == 0 {
        assert(spending_keys(a) =~= spending_keys(b));
    } else {
        let last = a.last();
        assert(a.contains(last));
        assert(b.to_multiset().count(last) > 0);
        assert(b.contains(last));
        let i = choose|i: int| 0 <= i < b.len() && b[i] == last;
        assert(a.drop_last() =~= a.remove(a.len() - 1));
        assert(a.drop_last().to_multiset() =~= b.remove(i).to_multiset());
        lemma_same_outputs_same_keys(a.drop_last(), b.remove(i));
        assert(spending_keys(a) =~= spending_keys(a.drop_last()).push(last.spending_key));
        assert(spending_keys(b.remove(i)) =~= spending_keys(b).remove(i));
        assert(spending_keys(b).remove(i).to_multiset() =~= spending_keys(b).to_multiset().remove(
            last.spending_key,
        ));
        assert(spending_keys(b).to_multiset().count(last.spending_key) > 0) by {
            assert(spending_keys(b)[i] == last.spending_key);
            assert(spending_keys(b).contains(last.spending_key));
        }
        assert(spending_keys(a).to_multiset() =~= spending_keys(b).to_multiset());
    }
}

/// Outputs are taken only under keys that are held.
pub proof fn lemma_taken_keys_were_held(unspent: Seq<OutputRecord>, keys: Seq<Seq<u8>>, i: int)
    requires
        take_outputs(unspent, keys) is Some,
        0 <= i < keys.len(),
    ensures
        holds_key(unspent, keys[i]),
{
    broadcast use vstd::seq_lib::group_to_multiset_ensures;

    lemma_take_outputs_moves(unspent, keys);
    let (left, taken) = take_outputs(unspent, keys)->0;
    assert(spending_keys(taken)[i] == keys[i]);
    assert(taken.contains(taken[i]));
    assert(taken.to_multiset().count(taken[i]) > 0);
    assert(unspent.to_multiset().count(taken[i]) > 0);
    assert(unspent.contains(taken[i]));
    let at = choose|at: int| 0 <= at < unspent.len() && unspent[at] == taken[i];
    assert(unspent[at].spending_key == keys[i]);
}

/// Outputs taken from outputs with different spending keys, and those left,
/// have different spending keys among them all, and each was one of the
/// outputs there were.
pub proof fn lemma_take_outputs_keeps_keys_apart(unspent: Seq<OutputRecord>, keys: Seq<Seq<u8>>)
    requires
        take_outputs(unspent, keys) is Some,
        spending_keys(unspent).no_duplicates(),
    ensures
        ({
            let (left, taken) = take_outputs(unspent, keys)->0;
            &&& spending_keys(left + taken).no_duplicates()
            &&& forall|j: int| 0 <= j < left.len() ==> unspent.contains(#[trigger] left[j])
            &&& forall|j: int| 0 <= j < taken.len() ==> unspent.contains(#[trigger] taken[j])
        }),
{
    broadcast use vstd::seq_lib::group_to_multiset_ensures;
    broadcast use vstd::seq_lib::lemma_multiset_commutative;

    let (left, taken) = take_outputs(unspent, keys)->0;
    let all = left + taken;
    lemma_take_outputs_moves(unspent, keys);
    assert(all.to_multiset() == unspent.to_multiset());
    lemma_same_outputs_same_keys(all, unspent);
    spending_keys(unspent).lemma_multiset_has_no_duplicates();
    spending_keys(all).lemma_multiset_has_no_duplicates_conv();
    assert forall|j: int| 0 <= j < left.len() implies unspent.contains(#[trigger] left[j]) by {
        assert(all[j] == left[j]);
        assert(all.contains(left[j]));
        assert(unspent.to_multiset().count(left[j]) > 0);
    }
    assert forall|j: int| 0 <= j < taken.len() implies unspent.contains(#[trigger] taken[j]) by {
        assert(all[left.len() + j] == taken[j]);
        assert(all.contains(taken[j]));
        assert(unspent.to_multiset().count(taken[j]) > 0);
    }
}

/// An output that was inserted under its own spending key is the one that a
/// fetch under that key answers with.
pub proof fn lemma_inserted_output_is_fetched(state: StoreState, output: OutputRecord, spent: bool)
    requires
        state.insert(
            if spent {
                DbKeyValueRecord::SpentOutput(output.spending_key, output)
            } else {
                DbKeyValueRecord::UnspentOutput(output.spending_key, output)
            },
        ) is Ok,
    ensures
        ({
            let next = state.insert(
                if spent {
                    DbKeyValueRecord::SpentOutput(output.spending_key, output)
                } else {
                    DbKeyValueRecord::UnspentOutput(output.spending_key, output)
                },
            )->Ok_0;
            let key = if spent {
                DbKeyRecord::SpentOutput(output.spending_key)
            } else {
                DbKeyRecord::UnspentOutput(output.spending_key)
            };
            next.fetch(key) == Some(
                if spent {
                    DbValueRecord::SpentOutput(output)
                } else {
                    DbValueRecord::UnspentOutput(output)
                },
            )
        }),
{
    let held = if spent {
        state.spent
    } else {
        state.unspent
    };
    let grown = held.push(output);
    assert(is_first_with_key(grown, output.spending_key, held.len() as int)) by {
        assert forall|j: int| 0 <= j < held.len() implies (#[trigger] grown[j]).spending_key
            != output.spending_key by {
            assert(held[j] == grown[j]);
        }
    }
    lemma_first_with_key_is_unique(grown, output.spending_key, held.len() as int);
}

/// Cancelling a transaction right after its outputs were encumbered gives the
/// unspent outputs back: as a multiset they are what they were before. The
/// spent and invalid outputs, the bundles awaiting mining and the key
/// manager's state have not changed, and no bundle is being negotiated under
/// the identifier any more.
///
/// This is so where the identifier is not also that of a bundle awaiting
/// mining: cancelling would take that bundle instead.
pub proof fn lemma_encumber_then_cancel(
    state: StoreState,
    tx_id: TxId,
    keys: Seq<Seq<u8>>,
    change_output: Option<OutputRecord>,
    now: Timestamp,
)
    requires
        !state.pending.contains_key(tx_id),
        state.short_term_encumber_outputs(tx_id, keys, change_output, now) is Ok,
    ensures
        ({
            let encumbered = state.short_term_encumber_outputs(tx_id, keys, change_output, now)->Ok_0;
            &&& encumbered.cancel_pending_transaction(tx_id) is Ok
            &&& ({
                let restored = encumbered.cancel_pending_transaction(tx_id)->Ok_0;
                &&& restored.unspent.to_multiset() == state.unspent.to_multiset()
                &&& spending_keys(restored.unspent).to_multiset() == spending_keys(
                    state.unspent,
                ).to_multiset()
                &&& restored.spent == state.spent
                &&& restored.invalid == state.invalid
                &&& restored.pending == state.pending
                &&& restored.short_term_pending == state.short_term_pending.remove(tx_id)
                &&& restored.key_manager_state == state.key_manager_state
            })
        }),
{
    broadcast use vstd::seq_lib::lemma_multiset_commutative;

    lemma_take_outputs_moves(state.unspent, keys);
    let (left, taken) = take_outputs(state.unspent, keys)->0;
    let encumbered = state.short_term_encumber_outputs(tx_id, keys, change_output, now)->Ok_0;
    assert(encumbered.short_term_pending.contains_key(tx_id));
    let restored = encumbered.cancel_pending_transaction(tx_id)->Ok_0;
    assert(restored.unspent == left + taken);
    assert(restored.short_term_pending =~= state.short_term_pending.remove(tx_id));
    lemma_same_outputs_same_keys(restored.unspent, state.unspent);
}

/// An output goes through its life in order: encumbered for a transaction
/// that is then sent and mined, it ends among the spent outputs, and the
/// change output of the transaction among the unspent ones. The bundles of
/// other transactions, the invalid outputs and the key manager's state are
/// as they were.
///
/// This is so where no bundle awaits mining under the identifier when the
/// outputs are encumbered.
pub proof fn lemma_encumber_confirm_mine(
    state: StoreState,
    tx_id: TxId,
    keys: Seq<Seq<u8>>,
    change_output: Option<OutputRecord>,
    now: Timestamp,
)
    requires
        !state.pending.contains_key(tx_id),
        state.short_term_encumber_outputs(tx_id, keys, change_output, now) is Ok,
    ensures
        ({
            let (left, taken) = take_outputs(state.unspent, keys)->0;
            let encumbered = state.short_term_encumber_outputs(tx_id, keys, change_output, now)->Ok_0;
            &&& encumbered.confirm_encumbered_outputs(tx_id) is Ok
            &&& encumbered.confirm_encumbered_outputs(tx_id)->Ok_0.confirm_transaction(tx_id) is Ok
            &&& ({
                let mined = encumbered.confirm_encumbered_outputs(tx_id)->Ok_0.confirm_transaction(
                    tx_id,
                )->Ok_0;
                &&& mined.spent == state.spent + taken
                &&& mined.unspent == left + match change_output {
                    Some(output) => seq![output],
                    None => Seq::empty(),
                }
                &&& mined.invalid == state.invalid
                &&& mined.pending == state.pending
                &&& mined.short_term_pending == state.short_term_pending.remove(tx_id)
                &&& mined.key_manager_state == state.key_manager_state
            })
        }),
{
    let encumbered = state.short_term_encumber_outputs(tx_id, keys, change_output, now)->Ok_0;
    let sent = encumbered.confirm_encumbered_outputs(tx_id)->Ok_0;
    assert(sent.pending.contains_key(tx_id));
    let mined = sent.confirm_transaction(tx_id)->Ok_0;
    assert(mined.pending =~= state.pending);
    assert(mined.short_term_pending =~= state.short_term_pending.remove(tx_id));
}

/// Once a transaction is mined its bundle is absorbed, and absorbed once: the
/// outputs it was to spend stand, in their order, at the end of the spent
/// outputs, those it was to receive at the end of the unspent outputs, no
/// bundle is left under its identifier, and a second confirmation finds
/// nothing.
///
/// This is so where the identifier is that of one bundle only: of two, the
/// one being negotiated would stay behind.
pub proof fn lemma_confirm_transaction_absorbs(state: StoreState, tx_id: TxId)
    requires
        state.bundle_of(tx_id) is Some,
        !(state.pending.contains_key(tx_id) && state.short_term_pending.contains_key(tx_id)),
    ensures
        state.confirm_transaction(tx_id) is Ok,
        ({
            let bundle = state.bundle_of(tx_id)->0;
            let next = state.confirm_transaction(tx_id)->Ok_0;
            &&& next.spent == state.spent + bundle.outputs_to_be_spent
            &&& next.unspent == state.unspent + bundle.outputs_to_be_received
            &&& forall|i: int|
                0 <= i < bundle.outputs_to_be_spent.len() ==> next.spent.contains(
                    #[trigger] bundle.outputs_to_be_spent[i],
                )
            &&& forall|i: int|
                0 <= i < bundle.outputs_to_be_received.len() ==> next.unspent.contains(
                    #[trigger] bundle.outputs_to_be_received[i],
                )
            &&& !next.pending.contains_key(tx_id)
            &&& !next.short_term_pending.contains_key(tx_id)
            &&& next.invalid == state.invalid
            &&& next.key_manager_state == state.key_manager_state
            &&& next.confirm_transaction(tx_id) is Err
        }),
{
    let bundle = state.bundle_of(tx_id)->0;
    let next = state.confirm_transaction(tx_id)->Ok_0;
    assert forall|i: int| 0 <= i < bundle.outputs_to_be_spent.len() implies next.spent.contains(
        #[trigger] bundle.outputs_to_be_spent[i],
    ) by {
        assert(next.spent[state.spent.len() + i] == bundle.outputs_to_be_spent[i]);
    }
    assert forall|i: int|
        0 <= i < bundle.outputs_to_be_received.len() implies next.unspent.contains(
        #[trigger] bundle.outputs_to_be_received[i],
    ) by {
        assert(next.unspent[state.unspent.len() + i] == bundle.outputs_to_be_received[i]);
    }
}

/// An output is encumbered for one transaction at a time: once outputs
/// have been encumbered, encumbering any of them again finds it missing,
/// whatever else is asked for with it.
///
/// This is so where the unspent outputs have different spending keys.
pub proof fn lemma_encumbered_output_is_taken(
    state: StoreState,
    tx_id: TxId,
    keys: Seq<Seq<u8>>,
    change_output: Option<OutputRecord>,
    now: Timestamp,
    later_tx_id: TxId,
    later_keys: Seq<Seq<u8>>,
    later_change_output: Option<OutputRecord>,
    later: Timestamp,
)
    requires
        spending_keys(state.unspent).no_duplicates(),
        state.short_term_encumber_outputs(tx_id, keys, change_output, now) is Ok,
        exists|i: int, j: int|
            0 <= i < keys.len() && 0 <= j < later_keys.len() && keys[i] == later_keys[j],
    ensures
        state.short_term_encumber_outputs(
            tx_id,
            keys,
            change_output,
            now,
        )->Ok_0.short_term_encumber_outputs(later_tx_id, later_keys, later_change_output, later)
            == Err::<StoreState, StorageErrorRecord>(StorageErrorRecord::ValuesNotFound),
{
    let (i, j) = choose|i: int, j: int|
        0 <= i < keys.len() && 0 <= j < later_keys.len() && keys[i] == later_keys[j];
    let (left, taken) = take_outputs(state.unspent, keys)->0;
    lemma_take_outputs_moves(state.unspent, keys);
    lemma_take_outputs_keeps_keys_apart(state.unspent, keys);
    if take_outputs(left, later_keys) is Some {
        lemma_taken_keys_were_held(left, later_keys, j);
        let at = choose|at: int|
            0 <= at < left.len() && (#[trigger] left[at]).spending_key == later_keys[j];
        let all = spending_keys(left + taken);
        assert(spending_keys(taken)[i] == keys[i]);
        assert(all[at] == later_keys[j]);
        assert(all[left.len() + i] == keys[i]);
    }
}

/// The state after the key manager derived `count` more keys, one by one.
pub open spec fn increment_key_index_times(state: StoreState, count: nat) -> StoreState
    decreases count,
{
    if count == 0 {
        state
    } else {
        match increment_key_index_times(state, (count - 1) as nat).increment_key_index() {
            Ok(next) => next,
            Err(_) => state,
        }
    }
}

/// However many times the key index is incremented, it has grown by
/// exactly that number, each increment has succeeded, and nothing else has
/// changed: no increment is lost and none counts twice.
///
/// This is so from a stored key manager state whose index can still count
/// that far.
pub proof fn lemma_increments_add_up(state: StoreState, count: nat)
    requires
        state.key_manager_state is Some,
        state.key_manager_state->0.primary_key_index + count <= u64::MAX,
    ensures
        ({
            let last = increment_key_index_times(state, count);
            &&& last.key_manager_state is Some
            &&& last.key_manager_state->0.primary_key_index
                == state.key_manager_state->0.primary_key_index + count
            &&& last.key_manager_state->0.master_seed == state.key_manager_state->0.master_seed
            &&& last.key_manager_state->0.branch_seed == state.key_manager_state->0.branch_seed
            &&& last.unspent == state.unspent
            &&& last.spent == state.spent
            &&& last.invalid == state.invalid
            &&& last.pending == state.pending
            &&& last.short_term_pending == state.short_term_pending
            &&& count > 0 ==> increment_key_index_times(
                state,
                (count - 1) as nat,
            ).increment_key_index() is Ok
        }),
    decreases count,
{
    if count > 0 {
        lemma_increments_add_up(state, (count - 1) as nat);
    }
}

/// Where no transaction has two bundles, cancelling the transactions of
/// `order` removes just the bundles under those identifiers, and still no
/// transaction has two.
pub proof fn lemma_cancel_all_removes_bundles(state: StoreState, order: Seq<TxId>)
    requires
        state.bundle_ids_are_disjoint(),
    ensures
        state.cancel_all(order).pending == state.pending.remove_keys(order.to_set()),
        state.cancel_all(order).short_term_pending == state.short_term_pending.remove_keys(
            order.to_set(),
        ),
        state.cancel_all(order).bundle_ids_are_disjoint(),
        state.cancel_all(order).spent == state.spent,
        state.cancel_all(order).invalid == state.invalid,
        state.cancel_all(order).key_manager_state == state.key_manager_state,
    decreases order.len(),
{
    if order.len() == 0 {
        assert(order.to_set() =~= Set::empty());
        assert(state.pending.remove_keys(order.to_set()) =~= state.pending);
        assert(state.short_term_pending.remove_keys(order.to_set())
            =~= state.short_term_pending);
    } else {
        let before = state.cancel_all(order.drop_last());
        let next = state.cancel_all(order);
        let tx_id = order.last();
        lemma_cancel_all_removes_bundles(state, order.drop_last());
        order.drop_last().lemma_push_to_set_commute(tx_id);
        assert(order.drop_last().push(tx_id) =~= order);
        assert(!(before.pending.contains_key(tx_id) && before.short_term_pending.contains_key(
            tx_id,
        )));
        assert(next.pending =~= state.pending.remove_keys(order.to_set()));
        assert(next.short_term_pending =~= state.short_term_pending.remove_keys(order.to_set()));
        assert forall|other: TxId|
            !(#[trigger] next.pending.contains_key(other) && next.short_term_pending.contains_key(
                other,
            )) by {
            assert(!(state.pending.contains_key(other) && state.short_term_pending.contains_key(
                other,
            )));
        }
    }
}

/// In a sweep, the transactions of `first` have a bundle that awaits mining
/// and those of `second` one that is being negotiated, and neither names a
/// transaction twice. While the sweep cancels them in that order, the
/// bundles of the transactions still to come stay where they are.
pub proof fn lemma_sweep_keeps_bundles_to_come(
    state: StoreState,
    first: Seq<TxId>,
    second: Seq<TxId>,
    done: int,
)
    requires
        first.no_duplicates(),
        second.no_duplicates(),
        forall|j: int| 0 <= j < first.len() ==> state.pending.contains_key(#[trigger] first[j]),
        forall|j: int|
            0 <= j < second.len() ==> state.short_term_pending.contains_key(#[trigger] second[j]),
        0 <= done <= first.len() + second.len(),
    ensures
        forall|j: int|
            done <= j < first.len() ==> state.cancel_all(
                (first + second).take(done),
            ).pending.contains_key(#[trigger] first[j]),
        forall|j: int|
            0 <= j < second.len() && done <= first.len() + j ==> state.cancel_all(
                (first + second).take(done),
            ).short_term_pending.contains_key(#[trigger] second[j]),
    decreases done,
{
    let order = first + second;
    if done == 0 {
        assert(order.take(0) =~= Seq::<TxId>::empty());
    } else {
        lemma_sweep_keeps_bundles_to_come(state, first, second, done - 1);
        let before = state.cancel_all(order.take(done - 1));
        let tx_id = order[done - 1];
        assert(order.take(done).drop_last() =~= order.take(done - 1));
        assert(order.take(done).last() == tx_id);
        let next = state.cancel_all(order.take(done));
        if done - 1 < first.len() {
            assert(tx_id == first[done - 1]);
            assert(before.pending.contains_key(tx_id));
            assert forall|j: int| done <= j < first.len() implies next.pending.contains_key(
                #[trigger] first[j],
            ) by {
                assert(first[j] != first[done - 1]);
            }
        } else {
            assert(tx_id == second[done - 1 - first.len()]);
            assert(before.short_term_pending.contains_key(tx_id));
            assert forall|j: int|
                0 <= j < second.len() && done <= first.len() + j implies next.short_term_pending.contains_key(
            #[trigger] second[j]) by {
                assert(second[j] != second[done - 1 - first.len()]);
            }
        }
    }
}

/// Every cancellation of a sweep finds its bundle: none is refused, so the
/// sweep has no error to report. The sweeps are the clearing of the
/// short-term encumbrances, where `first` is empty, and the timeouts.
pub proof fn lemma_sweep_finds_every_bundle(
    state: StoreState,
    first: Seq<TxId>,
    second: Seq<TxId>,
    step: int,
)
    requires
        first.no_duplicates(),
        second.no_duplicates(),
        forall|j: int| 0 <= j < first.len() ==> state.pending.contains_key(#[trigger] first[j]),
        forall|j: int|
            0 <= j < second.len() ==> state.short_term_pending.contains_key(#[trigger] second[j]),
        0 <= step < first.len() + second.len(),
    ensures
        state.cancel_all((first + second).take(step)).cancel_pending_transaction(
            (first + second)[step],
        ) is Ok,
{
    lemma_sweep_keeps_bundles_to_come(state, first, second, step);
    let before = state.cancel_all((first + second).take(step));
    if step < first.len() {
        assert(before.pending.contains_key(first[step]));
    } else {
        assert(before.short_term_pending.contains_key(second[step - first.len()]));
    }
}

/// The outputs that the transactions of `order` are to spend, one bundle
/// after the other in that order.
pub open spec fn outputs_to_restore(state: StoreState, order: Seq<TxId>) -> Seq<OutputRecord>
    decreases order.len(),
{
    if order.len() == 0 {
        Seq::empty()
    } else {
        outputs_to_restore(state, order.drop_last()) + match state.bundle_of(order.last()) {
            Some(bundle) => bundle.outputs_to_be_spent,
            None => Seq::empty(),
        }
    }
}

/// Where no transaction has two bundles and `order` names none twice,
/// cancelling the transactions of `order` puts the outputs that they were to
/// spend at the end of the unspent outputs, bundle after bundle.
pub proof fn lemma_cancel_all_restores_outputs(state: StoreState, order: Seq<TxId>)
    requires
        state.bundle_ids_are_disjoint(),
        order.no_duplicates(),
    ensures
        state.cancel_all(order).unspent == state.unspent + outputs_to_restore(state, order),
    decreases order.len(),
{
    if order.len() == 0 {
        assert(state.unspent + outputs_to_restore(state, order) =~= state.unspent);
    } else {
        let done = order.drop_last();
        let tx_id = order.last();
        let before = state.cancel_all(done);
        lemma_cancel_all_restores_outputs(state, done);
        lemma_cancel_all_removes_bundles(state, done);
        assert(!done.to_set().contains(tx_id)) by {
            if done.to_set().contains(tx_id) {
                let i = choose|i: int| 0 <= i < done.len() && done[i] == tx_id;
                assert(order[i] == order[order.len() - 1]);
            }
        }
        assert(before.bundle_of(tx_id) == state.bundle_of(tx_id));
        assert(state.cancel_all(order).unspent =~= state.unspent + outputs_to_restore(
            state,
            order,
        ));
    }
}

/// Clearing the short-term encumbrances leaves no transaction being
/// negotiated and gives back, at the end of the unspent outputs, the outputs
/// that those transactions were to spend. Nothing else changes.
///
/// This is so where no transaction has two bundles: of two, the one awaiting
/// mining would be cancelled.
pub proof fn lemma_clear_restores_outputs(state: StoreState, next: StoreState)
    requires
        state.bundle_ids_are_disjoint(),
        state.cleared_to(next),
    ensures
        next.short_term_pending == Map::<TxId, PendingRecord>::empty(),
        next.pending == state.pending,
        next.spent == state.spent,
        next.invalid == state.invalid,
        next.key_manager_state == state.key_manager_state,
        exists|order: Seq<TxId>|
            is_ordering_of(order, state.short_term_pending.dom()) && next.unspent == state.unspent
                + #[trigger] outputs_to_restore(state, order),
{
    let order = choose|order: Seq<TxId>|
        is_ordering_of(order, state.short_term_pending.dom()) && next
            == #[trigger] state.cancel_all(order);
    lemma_cancel_all_removes_bundles(state, order);
    lemma_cancel_all_restores_outputs(state, order);
    assert(next.short_term_pending =~= Map::<TxId, PendingRecord>::empty());
    assert(next.pending =~= state.pending) by {
        assert forall|tx_id: TxId| state.pending.contains_key(tx_id) implies !order.to_set().contains(
            tx_id,
        ) by {
            assert(!(state.pending.contains_key(tx_id) && state.short_term_pending.contains_key(
                tx_id,
            )));
        }
    }
}

/// Timing out twice with the same period at the same instant changes
/// nothing the second time: whatever state the first timeout led to, the
/// second leaves it as it is.
///
/// This is so where no transaction has two bundles. Of two, the timeout
/// cancels the one awaiting mining where only the one being negotiated has
/// timed out, and finds that one again the second time.
pub proof fn lemma_timeout_is_idempotent(
    state: StoreState,
    period_nanos: int,
    now: Timestamp,
    once: StoreState,
    twice: StoreState,
)
    requires
        state.bundle_ids_are_disjoint(),
        state.timed_out_to(period_nanos, now, once),
        once.timed_out_to(period_nanos, now, twice),
    ensures
        twice == once,
{
    let (first, second) = choose|first: Seq<TxId>, second: Seq<TxId>|
        is_ordering_of(first, timed_out_ids(state.pending, period_nanos, now)) && is_ordering_of(
            second,
            timed_out_ids(state.short_term_pending, period_nanos, now),
        ) && once == #[trigger] state.cancel_all(first + second);
    lemma_cancel_all_removes_bundles(state, first + second);
    vstd::seq_lib::seq_to_set_distributes_over_add(first, second);
    assert(timed_out_ids(once.pending, period_nanos, now) =~= Set::empty()) by {
        assert forall|tx_id: TxId| !timed_out_ids(once.pending, period_nanos, now).contains(
            tx_id,
        ) by {
            if timed_out_ids(once.pending, period_nanos, now).contains(tx_id) {
                assert(timed_out_ids(state.pending, period_nanos, now).contains(tx_id));
                assert(first.to_set().contains(tx_id));
            }
        }
    }
    assert(timed_out_ids(once.short_term_pending, period_nanos, now) =~= Set::empty()) by {
        assert forall|tx_id: TxId| !timed_out_ids(
            once.short_term_pending,
            period_nanos,
            now,
        ).contains(tx_id) by {
            if timed_out_ids(once.short_term_pending, period_nanos, now).contains(tx_id) {
                assert(timed_out_ids(state.short_term_pending, period_nanos, now).contains(tx_id));
                assert(second.to_set().contains(tx_id));
            }
        }
    }
    let (third, fourth) = choose|third: Seq<TxId>, fourth: Seq<TxId>|
        is_ordering_of(third, timed_out_ids(once.pending, period_nanos, now)) && is_ordering_of(
            fourth,
            timed_out_ids(once.short_term_pending, period_nanos, now),
        ) && twice == #[trigger] once.cancel_all(third + fourth);
    assert(third.len() == 0) by {
        if third.len() > 0 {
            assert(third.to_set().contains(third[0]));
        }
    }
    assert(fourth.len() == 0) by {
        if fourth.len() > 0 {
            assert(fourth.to_set().contains(fourth[0]));
        }
    }
    assert(third + fourth =~= Seq::<TxId>::empty());
}

} // verus!
