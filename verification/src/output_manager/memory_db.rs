//! The in-memory store of the output manager.
//!
//! The store has one owner at a time: an operation that changes it takes it
//! by `&mut`, so each operation is one step from a state of the model to the
//! next. Sharing a store between threads is a matter for a lock around it.

use crate::output_manager::clock::{
    duration_nanos,
    period_in_range,
    representable_period,
    timed_out,
    utc_now,
    Timestamp,
};
use crate::output_manager::database::{
    bytes_equal,
    clone_outputs,
    output_records,
    pending_records,
    DbKey,
    DbKeyValuePair,
    DbValue,
    DbValueRecord,
    KeyManagerState,
    OutputRecord,
    PendingTransactionOutputs,
    TxId,
    UnblindedOutput,
    WriteOperation,
};
use crate::output_manager::error::{OutputManagerStorageError, StorageErrorRecord};
use crate::output_manager::store_state::{
    first_with_key,
    holds_key,
    is_first_with_key,
    is_ordering_of,
    lemma_first_with_key_is_unique,
    lemma_take_outputs_fails_after_prefix,
    spending_keys,
    take_outputs,
    timed_out_ids,
    StoreState,
};
use core::time::Duration;
use std::collections::HashMap;
use vstd::prelude::*;

verus! {

broadcast use vstd::std_specs::hash::group_hash_axioms;

/// The view of a value that may be absent.
pub open spec fn value_record(value: Option<DbValue>) -> Option<DbValueRecord> {
    match value {
        Some(v) => Some(v@),
        None => None,
    }
}

/// The view of an output that may be absent.
pub open spec fn output_record(output: Option<UnblindedOutput>) -> Option<OutputRecord> {
    match output {
        Some(o) => Some(o@),
        None => None,
    }
}

/// The position of the first output with this spending key, if there is one.
pub fn position(outputs: &Vec<UnblindedOutput>, key: &Vec<u8>) -> (found: Option<usize>)
    ensures
        (match found {
            Some(i) => is_first_with_key(output_records(outputs@), key@, i as int)
                && first_with_key(output_records(outputs@), key@) == i,
            None => !holds_key(output_records(outputs@), key@),
        }),
{
    let ghost records = output_records(outputs@);
    let mut i: usize = 0;
    while i < outputs.len()
        invariant
            i <= outputs.len(),
            records == output_records(outputs@),
            forall|j: int| 0 <= j < i ==> (#[trigger] records[j]).spending_key != key@,
        decreases outputs.len() - i,
    {
        if bytes_equal(&outputs[i].spending_key, key) {
            proof {
                assert(records[i as int] == outputs@[i as int]@);
                lemma_first_with_key_is_unique(records, key@, i as int);
            }
            return Some(i);
        }
        assert(records[i as int] == outputs@[i as int]@);
        i = i + 1;
    }
    None
}

/// The identifiers under which a map holds bundles, each once, in the order
/// in which the map hands them out.
pub fn bundle_ids(bundles: &HashMap<TxId, PendingTransactionOutputs>) -> (ids: Vec<TxId>)
    ensures
        is_ordering_of(ids@, bundles@.dom()),
{
    let mut ids: Vec<TxId> = Vec::new();
    for id in walk: bundles.keys()
        invariant
            walk.seq().unref().to_set() == bundles@.dom(),
            walk.seq().no_duplicates(),
            ids@ =~= walk.seq().unref().take(walk.index()),
            walk.index() == walk.seq().len() ==> ids@ =~= walk.seq().unref(),
    {
        ids.push(*id);
    }
    ids
}

/// The state of the store, one collection for each place an output or a
/// bundle can be in.
pub struct InnerDatabase {
    unspent_outputs: Vec<UnblindedOutput>,
    spent_outputs: Vec<UnblindedOutput>,
    invalid_outputs: Vec<UnblindedOutput>,
    pending_transactions: HashMap<TxId, PendingTransactionOutputs>,
    short_term_pending_transactions: HashMap<TxId, PendingTransactionOutputs>,
    key_manager_state: Option<KeyManagerState>,
}

impl View for InnerDatabase {
    type V = StoreState;

    closed spec fn view(&self) -> StoreState {
        StoreState {
            unspent: output_records(self.unspent_outputs@),
            spent: output_records(self.spent_outputs@),
            invalid: output_records(self.invalid_outputs@),
            pending: pending_records(self.pending_transactions@),
            short_term_pending: pending_records(self.short_term_pending_transactions@),
            key_manager_state: match self.key_manager_state {
                Some(state) => Some(state@),
                None => None,
            },
        }
    }
}

impl InnerDatabase {
    /// A state in which nothing is held.
    pub fn new() -> (db: Self)
        ensures
            db@ == StoreState::empty(),
    {
        let db = InnerDatabase {
            unspent_outputs: Vec::new(),
            spent_outputs: Vec::new(),
            invalid_outputs: Vec::new(),
            pending_transactions: HashMap::new(),
            short_term_pending_transactions: HashMap::new(),
            key_manager_state: None,
        };
        assert(db@.unspent =~= Seq::empty());
        assert(db@.spent =~= Seq::empty());
        assert(db@.invalid =~= Seq::empty());
        assert(db@.pending =~= Map::empty());
        assert(db@.short_term_pending =~= Map::empty());
        db
    }
}

impl Default for InnerDatabase {
    fn default() -> (db: Self)
        ensures
            db@ == StoreState::empty(),
    {
        InnerDatabase::new()
    }
}

/// The in-memory store of the output manager.
pub struct OutputManagerMemoryDatabase {
    db: InnerDatabase,
}

impl View for OutputManagerMemoryDatabase {
    type V = StoreState;

    closed spec fn view(&self) -> StoreState {
        self.db@
    }
}

impl Default for OutputManagerMemoryDatabase {
    fn default() -> (store: Self)
        ensures
            store@ == StoreState::empty(),
    {
        OutputManagerMemoryDatabase::new()
    }
}

impl OutputManagerMemoryDatabase {
    /// A store that holds nothing.
    pub fn new() -> (store: Self)
        ensures
            store@ == StoreState::empty(),
    {
        OutputManagerMemoryDatabase { db: InnerDatabase::new() }
    }

    /// Answers with a copy of what is held under `key`: see
    /// [`StoreState::fetch`]. The store is left as it is.
    pub fn fetch(&self, key: &DbKey) -> (result: Result<
        Option<DbValue>,
        OutputManagerStorageError,
    >)
        ensures
            result matches Ok(value) && value_record(value) == self@.fetch(key@),
    {
        let result = match key {
            DbKey::SpentOutput(k) => match position(&self.db.spent_outputs, k) {
                Some(i) => Some(DbValue::SpentOutput(self.db.spent_outputs[i].clone())),
                None => None,
            },
            DbKey::UnspentOutput(k) => match position(&self.db.unspent_outputs, k) {
                Some(i) => Some(DbValue::UnspentOutput(self.db.unspent_outputs[i].clone())),
                None => None,
            },
            DbKey::PendingTransactionOutputs(tx_id) => {
                let mut found = self.db.pending_transactions.get(tx_id);
                if found.is_none() {
                    found = self.db.short_term_pending_transactions.get(tx_id);
                }
                match found {
                    Some(bundle) => Some(DbValue::PendingTransactionOutputs(bundle.clone())),
                    None => None,
                }
            },
            DbKey::UnspentOutputs => Some(
                DbValue::UnspentOutputs(clone_outputs(&self.db.unspent_outputs)),
            ),
            DbKey::SpentOutputs => Some(DbValue::SpentOutputs(clone_outputs(&self.db.spent_outputs))),
            DbKey::AllPendingTransactionOutputs => {
                let mut bundles: HashMap<TxId, PendingTransactionOutputs> = HashMap::new();
                assert(pending_records(bundles@) =~= Map::empty());
                copy_bundles(&mut bundles, &self.db.pending_transactions);
                copy_bundles(&mut bundles, &self.db.short_term_pending_transactions);
                assert(pending_records(bundles@) =~= self@.pending.union_prefer_right(
                    self@.short_term_pending,
                ));
                Some(DbValue::AllPendingTransactionOutputs(bundles))
            },
            DbKey::KeyManagerState => match &self.db.key_manager_state {
                Some(state) => Some(DbValue::KeyManagerState(state.clone())),
                None => None,
            },
            DbKey::InvalidOutputs => Some(
                DbValue::InvalidOutputs(clone_outputs(&self.db.invalid_outputs)),
            ),
        };
        Ok(result)
    }

    /// Inserts or removes a value: see [`StoreState::write`]. An operation
    /// that is refused leaves the store as it is.
    pub fn write(&mut self, operation: WriteOperation) -> (result: Result<
        Option<DbValue>,
        OutputManagerStorageError,
    >)
        ensures
            (match old(self)@.write(operation@) {
                Ok((next, value)) => result matches Ok(v) && value_record(v) == value && final(self)@
                    == next,
                Err(error) => result matches Err(e) && e@ == error && final(self)@ == old(self)@,
            }),
    {
        match operation {
            WriteOperation::Insert(pair) => match self.insert(pair) {
                Ok(()) => Ok(None),
                Err(error) => Err(error),
            },
            WriteOperation::Remove(key) => match self.remove(key) {
                Ok(value) => Ok(Some(value)),
                Err(error) => Err(error),
            },
        }
    }

    /// Inserts a value: see [`StoreState::insert`].
    fn insert(&mut self, pair: DbKeyValuePair) -> (result: Result<(), OutputManagerStorageError>)
        ensures
            (match old(self)@.insert(pair@) {
                Ok(next) => result is Ok && final(self)@ == next,
                Err(error) => result matches Err(e) && e@ == error && final(self)@ == old(self)@,
            }),
    {
        match pair {
            DbKeyValuePair::SpentOutput(k, output) => {
                if position(&self.db.spent_outputs, &k).is_some() || position(
                    &self.db.unspent_outputs,
                    &k,
                ).is_some() {
                    return Err(OutputManagerStorageError::DuplicateOutput);
                }
                let ghost before = self.db.spent_outputs@;
                let ghost record = output@;
                self.db.spent_outputs.push(output);
                assert(output_records(self.db.spent_outputs@) =~= output_records(before).push(
                    record,
                ));
                Ok(())
            },
            DbKeyValuePair::UnspentOutput(k, output) => {
                if position(&self.db.unspent_outputs, &k).is_some() || position(
                    &self.db.spent_outputs,
                    &k,
                ).is_some() {
                    return Err(OutputManagerStorageError::DuplicateOutput);
                }
                let ghost before = self.db.unspent_outputs@;
                let ghost record = output@;
                self.db.unspent_outputs.push(output);
                assert(output_records(self.db.unspent_outputs@) =~= output_records(before).push(
                    record,
                ));
                Ok(())
            },
            DbKeyValuePair::PendingTransactionOutputs(tx_id, bundle) => {
                let ghost before = self.db.pending_transactions@;
                let ghost record = bundle@;
                let _ = self.db.pending_transactions.insert(tx_id, bundle);
                assert(pending_records(self.db.pending_transactions@) =~= pending_records(
                    before,
                ).insert(tx_id, record));
                Ok(())
            },
            DbKeyValuePair::KeyManagerState(state) => {
                self.db.key_manager_state = Some(state);
                Ok(())
            },
        }
    }

    /// Removes a value and hands it back: see [`StoreState::remove`].
    fn remove(&mut self, key: DbKey) -> (result: Result<DbValue, OutputManagerStorageError>)
        ensures
            (match old(self)@.remove(key@) {
                Ok((next, value)) => result matches Ok(v) && v@ == value && final(self)@ == next,
                Err(error) => result matches Err(e) && e@ == error && final(self)@ == old(self)@,
            }),
    {
        match key {
            DbKey::SpentOutput(k) => match position(&self.db.spent_outputs, &k) {
                None => Err(OutputManagerStorageError::ValueNotFound(DbKey::SpentOutput(k))),
                Some(i) => {
                    let ghost before = self.db.spent_outputs@;
                    let output = self.db.spent_outputs.remove(i);
                    assert(output_records(self.db.spent_outputs@) =~= output_records(before).remove(
                        i as int,
                    ));
                    assert(output@ == output_records(before)[i as int]);
                    Ok(DbValue::SpentOutput(output))
                },
            },
            DbKey::UnspentOutput(k) => match position(&self.db.unspent_outputs, &k) {
                None => Err(OutputManagerStorageError::ValueNotFound(DbKey::UnspentOutput(k))),
                Some(i) => {
                    let ghost before = self.db.unspent_outputs@;
                    let output = self.db.unspent_outputs.remove(i);
                    assert(output_records(self.db.unspent_outputs@) =~= output_records(
                        before,
                    ).remove(i as int));
                    assert(output@ == output_records(before)[i as int]);
                    Ok(DbValue::UnspentOutput(output))
                },
            },
            DbKey::PendingTransactionOutputs(tx_id) => {
                let ghost before = self.db.pending_transactions@;
                match self.db.pending_transactions.remove(&tx_id) {
                    Some(bundle) => {
                        assert(pending_records(self.db.pending_transactions@) =~= pending_records(
                            before,
                        ).remove(tx_id));
                        Ok(DbValue::PendingTransactionOutputs(bundle))
                    },
                    None => {
                        assert(self.db.pending_transactions@ =~= before);
                        Err(
                            OutputManagerStorageError::ValueNotFound(
                                DbKey::PendingTransactionOutputs(tx_id),
                            ),
                        )
                    },
                }
            },
            DbKey::UnspentOutputs => Err(OutputManagerStorageError::OperationNotSupported),
            DbKey::SpentOutputs => Err(OutputManagerStorageError::OperationNotSupported),
            DbKey::AllPendingTransactionOutputs => Err(
                OutputManagerStorageError::OperationNotSupported,
            ),
            DbKey::KeyManagerState => Err(OutputManagerStorageError::OperationNotSupported),
            DbKey::InvalidOutputs => Err(OutputManagerStorageError::OperationNotSupported),
        }
    }

    /// Takes the bundle of a transaction out of the store: the one awaiting
    /// mining if there is one, else the one being negotiated.
    fn take_bundle(&mut self, tx_id: TxId) -> (bundle: Option<PendingTransactionOutputs>)
        ensures
            (match old(self)@.bundle_of(tx_id) {
                Some(record) => bundle matches Some(b) && b@ == record && final(self)@
                    == old(self)@.without_bundle(tx_id),
                None => bundle is None && final(self)@ == old(self)@,
            }),
    {
        let ghost pending = self.db.pending_transactions@;
        let ghost short_term = self.db.short_term_pending_transactions@;
        match self.db.pending_transactions.remove(&tx_id) {
            Some(bundle) => {
                assert(pending_records(self.db.pending_transactions@) =~= pending_records(
                    pending,
                ).remove(tx_id));
                Some(bundle)
            },
            None => {
                assert(self.db.pending_transactions@ =~= pending);
                match self.db.short_term_pending_transactions.remove(&tx_id) {
                    Some(bundle) => {
                        assert(pending_records(self.db.short_term_pending_transactions@)
                            =~= pending_records(short_term).remove(tx_id));
                        Some(bundle)
                    },
                    None => {
                        assert(self.db.short_term_pending_transactions@ =~= short_term);
                        None
                    },
                }
            },
        }
    }

    /// Records that a transaction was mined: see
    /// [`StoreState::confirm_transaction`].
    pub fn confirm_transaction(&mut self, tx_id: TxId) -> (result: Result<
        (),
        OutputManagerStorageError,
    >)
        ensures
            (match old(self)@.confirm_transaction(tx_id) {
                Ok(next) => result is Ok && final(self)@ == next,
                Err(error) => result matches Err(e) && e@ == error && final(self)@ == old(self)@,
            }),
    {
        match self.take_bundle(tx_id) {
            None => Err(
                OutputManagerStorageError::ValueNotFound(DbKey::PendingTransactionOutputs(tx_id)),
            ),
            Some(bundle) => {
                let PendingTransactionOutputs {
                    tx_id: _,
                    outputs_to_be_spent,
                    outputs_to_be_received,
                    timestamp: _,
                } = bundle;
                append_outputs(&mut self.db.spent_outputs, outputs_to_be_spent);
                append_outputs(&mut self.db.unspent_outputs, outputs_to_be_received);
                Ok(())
            },
        }
    }

    /// Moves a negotiated transaction's bundle among those that await
    /// mining: see [`StoreState::confirm_encumbered_outputs`].
    pub fn confirm_encumbered_outputs(&mut self, tx_id: TxId) -> (result: Result<
        (),
        OutputManagerStorageError,
    >)
        ensures
            (match old(self)@.confirm_encumbered_outputs(tx_id) {
                Ok(next) => result is Ok && final(self)@ == next,
                Err(error) => result matches Err(e) && e@ == error && final(self)@ == old(self)@,
            }),
    {
        let ghost pending = self.db.pending_transactions@;
        let ghost short_term = self.db.short_term_pending_transactions@;
        match self.db.short_term_pending_transactions.remove(&tx_id) {
            None => {
                assert(self.db.short_term_pending_transactions@ =~= short_term);
                Err(
                    OutputManagerStorageError::ValueNotFound(
                        DbKey::PendingTransactionOutputs(tx_id),
                    ),
                )
            },
            Some(bundle) => {
                let ghost record = bundle@;
                let _ = self.db.pending_transactions.insert(tx_id, bundle);
                assert(pending_records(self.db.short_term_pending_transactions@)
                    =~= pending_records(short_term).remove(tx_id));
                assert(pending_records(self.db.pending_transactions@) =~= pending_records(
                    pending,
                ).insert(tx_id, record));
                Ok(())
            },
        }
    }

    /// Cancels a transaction: see [`StoreState::cancel_pending_transaction`].
    pub fn cancel_pending_transaction(&mut self, tx_id: TxId) -> (result: Result<
        (),
        OutputManagerStorageError,
    >)
        ensures
            (match old(self)@.cancel_pending_transaction(tx_id) {
                Ok(next) => result is Ok && final(self)@ == next,
                Err(error) => result matches Err(e) && e@ == error && final(self)@ == old(self)@,
            }),
    {
        match self.take_bundle(tx_id) {
            None => Err(
                OutputManagerStorageError::ValueNotFound(DbKey::PendingTransactionOutputs(tx_id)),
            ),
            Some(bundle) => {
                let PendingTransactionOutputs {
                    tx_id: _,
                    outputs_to_be_spent,
                    outputs_to_be_received: _,
                    timestamp: _,
                } = bundle;
                append_outputs(&mut self.db.unspent_outputs, outputs_to_be_spent);
                Ok(())
            },
        }
    }

    /// Marks an unspent output as invalid: see
    /// [`StoreState::invalidate_unspent_output`]. The output is found by its
    /// spending key.
    pub fn invalidate_unspent_output(&mut self, output: &UnblindedOutput) -> (result: Result<
        (),
        OutputManagerStorageError,
    >)
        ensures
            (match old(self)@.invalidate_unspent_output(output@.spending_key) {
                Ok(next) => result is Ok && final(self)@ == next,
                Err(error) => result matches Err(e) && e@ == error && final(self)@ == old(self)@,
            }),
    {
        match position(&self.db.unspent_outputs, &output.spending_key) {
            Some(i) => {
                let ghost unspent = self.db.unspent_outputs@;
                let ghost invalid = self.db.invalid_outputs@;
                let found = self.db.unspent_outputs.remove(i);
                self.db.invalid_outputs.push(found);
                assert(output_records(self.db.unspent_outputs@) =~= output_records(unspent).remove(
                    i as int,
                ));
                assert(output_records(self.db.invalid_outputs@) =~= output_records(invalid).push(
                    output_records(unspent)[i as int],
                ));
                Ok(())
            },
            None => Err(OutputManagerStorageError::ValuesNotFound),
        }
    }

    /// Advances the key manager's index by one: see
    /// [`StoreState::increment_key_index`].
    ///
    /// The index must not stand at `u64::MAX`, beyond which it cannot count.
    pub fn increment_key_index(&mut self) -> (result: Result<(), OutputManagerStorageError>)
        requires
            old(self)@.key_manager_state matches Some(state) ==> state.primary_key_index
                < u64::MAX,
        ensures
            (match old(self)@.increment_key_index() {
                Ok(next) => result is Ok && final(self)@ == next,
                Err(error) => result matches Err(e) && e@ == error && final(self)@ == old(self)@,
            }),
    {
        match self.db.key_manager_state.take() {
            None => Err(OutputManagerStorageError::KeyManagerNotInitialized),
            Some(state) => {
                let KeyManagerState { master_seed, branch_seed, primary_key_index } = state;
                self.db.key_manager_state = Some(
                    KeyManagerState {
                        master_seed,
                        branch_seed,
                        primary_key_index: primary_key_index + 1,
                    },
                );
                Ok(())
            },
        }
    }

    /// Encumbers outputs for a transaction that is being negotiated, stamping
    /// the bundle with the present time. What the store then holds is what
    /// [`OutputManagerMemoryDatabase::short_term_encumber_outputs_at`] leaves
    /// for some instant.
    pub fn short_term_encumber_outputs(
        &mut self,
        tx_id: TxId,
        outputs_to_send: &[UnblindedOutput],
        change_output: Option<UnblindedOutput>,
    ) -> (result: Result<(), OutputManagerStorageError>)
        ensures
            exists|now: Timestamp|
                (match (#[trigger] old(self)@.short_term_encumber_outputs(
                    tx_id,
                    spending_keys(output_records(outputs_to_send@)),
                    output_record(change_output),
                    now,
                )) {
                    Ok(next) => result is Ok && final(self)@ == next,
                    Err(error) => result matches Err(e) && e@ == error && final(self)@ == old(self)@,
                }),
    {
        let now = utc_now();
        self.short_term_encumber_outputs_at(tx_id, outputs_to_send, change_output, now)
    }

    /// Encumbers outputs for a transaction that is being negotiated, at the
    /// instant `now`: see [`StoreState::short_term_encumber_outputs`]. Each
    /// output to send is found among the unspent outputs by its spending key.
    /// Unless all are found, the store is left as it is.
    pub fn short_term_encumber_outputs_at(
        &mut self,
        tx_id: TxId,
        outputs_to_send: &[UnblindedOutput],
        change_output: Option<UnblindedOutput>,
        now: Timestamp,
    ) -> (result: Result<(), OutputManagerStorageError>)
        ensures
            (match old(self)@.short_term_encumber_outputs(
                tx_id,
                spending_keys(output_records(outputs_to_send@)),
                output_record(change_output),
                now,
            ) {
                Ok(next) => result is Ok && final(self)@ == next,
                Err(error) => result matches Err(e) && e@ == error && final(self)@ == old(self)@,
            }),
    {
        let ghost start = self@;
        let ghost unspent = self@.unspent;
        let ghost keys = spending_keys(output_records(outputs_to_send@));
        // The outputs are taken from a copy, which replaces the unspent
        // outputs only once every output asked for has been found.
        let mut left = clone_outputs(&self.db.unspent_outputs);
        let mut taken: Vec<UnblindedOutput> = Vec::new();
        let mut i: usize = 0;
        proof {
            assert(keys.take(0) =~= Seq::<Seq<u8>>::empty());
            assert(output_records(taken@) =~= Seq::<OutputRecord>::empty());
        }
        while i < outputs_to_send.len()
            invariant
                i <= outputs_to_send.len(),
                self@ == start,
                unspent == start.unspent,
                keys == spending_keys(output_records(outputs_to_send@)),
                take_outputs(unspent, keys.take(i as int)) == Some(
                    (output_records(left@), output_records(taken@)),
                ),
            decreases outputs_to_send.len() - i,
        {
            let ghost held = left@;
            let ghost moved = taken@;
            proof {
                assert(keys.take(i + 1).drop_last() =~= keys.take(i as int));
                assert(keys.take(i + 1).last() == outputs_to_send@[i as int]@.spending_key);
            }
            match position(&left, &outputs_to_send[i].spending_key) {
                Some(at) => {
                    let output = left.remove(at);
                    taken.push(output);
                    proof {
                        assert(output_records(left@) =~= output_records(held).remove(at as int));
                        assert(output_records(taken@) =~= output_records(moved).push(
                            output_records(held)[at as int],
                        ));
                    }
                },
                None => {
                    proof {
                        assert(take_outputs(unspent, keys.take(i + 1)) is None);
                        lemma_take_outputs_fails_after_prefix(unspent, keys, i + 1);
                    }
                    return Err(OutputManagerStorageError::ValuesNotFound);
                },
            }
            i = i + 1;
        }
        proof {
            assert(keys.take(i as int) =~= keys);
        }
        let mut outputs_to_be_received: Vec<UnblindedOutput> = Vec::new();
        if let Some(output) = change_output {
            outputs_to_be_received.push(output);
        }
        let bundle = PendingTransactionOutputs {
            tx_id,
            outputs_to_be_spent: taken,
            outputs_to_be_received,
            timestamp: now,
        };
        proof {
            assert(bundle@.outputs_to_be_received =~= match output_record(change_output) {
                Some(output) => seq![output],
                None => Seq::empty(),
            });
        }
        let ghost short_term = self.db.short_term_pending_transactions@;
        let ghost record = bundle@;
        self.db.unspent_outputs = left;
        let _ = self.db.short_term_pending_transactions.insert(tx_id, bundle);
        assert(pending_records(self.db.short_term_pending_transactions@) =~= pending_records(
            short_term,
        ).insert(tx_id, record));
        Ok(())
    }

    /// Cancels the transactions of `ids` one after the other. The first
    /// `awaiting` of them have a bundle that awaits mining, the others one
    /// that is being negotiated, and neither part names a transaction twice:
    /// so every cancellation finds its bundle.
    fn cancel_each(&mut self, ids: &Vec<TxId>, Ghost(awaiting): Ghost<int>) -> (result: Result<
        (),
        OutputManagerStorageError,
    >)
        requires
            0 <= awaiting <= ids@.len(),
            forall|j: int, k: int| 0 <= j < k < awaiting ==> ids@[j] != ids@[k],
            forall|j: int, k: int| awaiting <= j < k < ids@.len() ==> ids@[j] != ids@[k],
            forall|j: int| 0 <= j < awaiting ==> old(self)@.pending.contains_key(#[trigger] ids@[j]),
            forall|j: int|
                awaiting <= j < ids@.len() ==> old(self)@.short_term_pending.contains_key(
                    #[trigger] ids@[j],
                ),
        ensures
            result is Ok,
            final(self)@ == old(self)@.cancel_all(ids@),
    {
        let ghost start = self@;
        let mut i: usize = 0;
        while i < ids.len()
            invariant
                i <= ids.len(),
                0 <= awaiting <= ids@.len(),
                forall|j: int, k: int| 0 <= j < k < awaiting ==> ids@[j] != ids@[k],
                forall|j: int, k: int| awaiting <= j < k < ids@.len() ==> ids@[j] != ids@[k],
                self@ == start.cancel_all(ids@.take(i as int)),
                forall|j: int| i <= j < awaiting ==> self@.pending.contains_key(#[trigger] ids@[j]),
                forall|j: int|
                    i <= j < ids@.len() && awaiting <= j ==> self@.short_term_pending.contains_key(
                        #[trigger] ids@[j],
                    ),
            decreases ids.len() - i,
        {
            proof {
                assert(ids@.take(i + 1).drop_last() =~= ids@.take(i as int));
                assert(self@.bundle_of(ids@[i as int]) is Some);
            }
            match self.cancel_pending_transaction(ids[i]) {
                Ok(()) => {},
                Err(error) => {
                    return Err(error);
                },
            }
            i = i + 1;
        }
        proof {
            assert(ids@.take(i as int) =~= ids@);
        }
        Ok(())
    }

    /// Cancels every transaction that is being negotiated: see
    /// [`StoreState::cleared_to`].
    pub fn clear_short_term_encumberances(&mut self) -> (result: Result<
        (),
        OutputManagerStorageError,
    >)
        ensures
            result is Ok,
            old(self)@.cleared_to(final(self)@),
    {
        let ids = bundle_ids(&self.db.short_term_pending_transactions);
        proof {
            assert(pending_records(self.db.short_term_pending_transactions@).dom()
                =~= self.db.short_term_pending_transactions@.dom());
            assert forall|j: int| 0 <= j < ids@.len() implies self@.short_term_pending.contains_key(
                #[trigger] ids@[j],
            ) by {
                assert(ids@.to_set().contains(ids@[j]));
            }
        }
        self.cancel_each(&ids, Ghost(0))
    }

    /// Cancels the transactions whose bundles have outlived `period` by now.
    ///
    /// While any bundle is held, a period longer than the clock arithmetic
    /// can represent is refused with `DurationOutOfRange` and the store left
    /// as it is; every other timeout succeeds. What is cancelled is what
    /// [`OutputManagerMemoryDatabase::timeout_pending_transactions_at`]
    /// cancels for the length of `period` and the present time; of the
    /// present time nothing is known here.
    pub fn timeout_pending_transactions(&mut self, period: Duration) -> (result: Result<
        (),
        OutputManagerStorageError,
    >)
        ensures
            result is Err <==> (old(self)@.pending.dom().len() > 0
                || old(self)@.short_term_pending.dom().len() > 0) && !period_in_range(
                duration_nanos(period) as int,
            ),
            result matches Err(e) ==> e@ == StorageErrorRecord::DurationOutOfRange && final(self)@
                == old(self)@,
            exists|now: Timestamp| #[trigger]
                old(self)@.timeout_outcome(
                    duration_nanos(period) as int,
                    now,
                    final(self)@,
                    result is Ok,
                ),
    {
        let period_nanos = period.as_nanos();
        let now = utc_now();
        self.timeout_pending_transactions_at(period_nanos, now)
    }

    /// Cancels the transactions whose bundles have outlived `period_nanos`
    /// nanoseconds by the instant `now`: see [`StoreState::timed_out_to`].
    ///
    /// While any bundle is held, a period longer than the clock arithmetic
    /// can represent is refused and the store left as it is.
    pub fn timeout_pending_transactions_at(&mut self, period_nanos: u128, now: Timestamp) -> (result:
        Result<(), OutputManagerStorageError>)
        ensures
            result is Err <==> (old(self)@.pending.dom().len() > 0
                || old(self)@.short_term_pending.dom().len() > 0) && !period_in_range(
                period_nanos as int,
            ),
            result matches Err(e) ==> e@ == StorageErrorRecord::DurationOutOfRange && final(self)@
                == old(self)@,
            old(self)@.timeout_outcome(period_nanos as int, now, final(self)@, result is Ok),
    {
        let ghost start = self@;
        proof {
            assert(start.pending.dom() =~= self.db.pending_transactions@.dom());
            assert(start.short_term_pending.dom()
                =~= self.db.short_term_pending_transactions@.dom());
        }
        if self.db.pending_transactions.is_empty()
            && self.db.short_term_pending_transactions.is_empty() {
            proof {
                let none = Seq::<TxId>::empty();
                assert(timed_out_ids(start.pending, period_nanos as int, now) =~= Set::empty());
                assert(timed_out_ids(start.short_term_pending, period_nanos as int, now)
                    =~= Set::empty());
                assert(none.to_set() =~= Set::empty());
                assert(none + none =~= none);
                assert(start.cancel_all(none + none) == start);
            }
            return Ok(());
        }
        let period = match representable_period(period_nanos) {
            Some(period) => period,
            None => {
                return Err(OutputManagerStorageError::DurationOutOfRange);
            },
        };
        let mut ids = timed_out_bundle_ids(&self.db.pending_transactions, period, now);
        let mut more = timed_out_bundle_ids(&self.db.short_term_pending_transactions, period, now);
        let ghost first = ids@;
        let ghost second = more@;
        ids.append(&mut more);
        proof {
            assert(ids@ == first + second);
            assert forall|j: int| 0 <= j < first.len() implies start.pending.contains_key(
                #[trigger] ids@[j],
            ) by {
                assert(first.to_set().contains(first[j]));
            }
            assert forall|j: int|
                first.len() <= j < ids@.len() implies start.short_term_pending.contains_key(
                #[trigger] ids@[j],
            ) by {
                assert(second.to_set().contains(second[j - first.len()]));
            }
            assert forall|j: int, k: int| 0 <= j < k < first.len() implies ids@[j] != ids@[k] by {
                assert(first[j] != first[k]);
            }
            assert forall|j: int, k: int| first.len() <= j < k < ids@.len() implies ids@[j]
                != ids@[k] by {
                assert(second[j - first.len()] != second[k - first.len()]);
            }
        }
        self.cancel_each(&ids, Ghost(first.len() as int))
    }
}

/// The identifiers of the bundles that have outlived `period_nanos` by
/// `now`, each once, in the order in which the map hands them out.
pub fn timed_out_bundle_ids(
    bundles: &HashMap<TxId, PendingTransactionOutputs>,
    period_nanos: u128,
    now: Timestamp,
) -> (ids: Vec<TxId>)
    ensures
        is_ordering_of(ids@, timed_out_ids(pending_records(bundles@), period_nanos as int, now)),
{
    let all = bundle_ids(bundles);
    let ghost records = pending_records(bundles@);
    let ghost due = timed_out_ids(records, period_nanos as int, now);
    let mut ids: Vec<TxId> = Vec::new();
    // Where in `all` each identifier of `ids` was found.
    let ghost mut origin: Seq<int> = Seq::empty();
    let mut i: usize = 0;
    while i < all.len()
        invariant
            i <= all.len(),
            is_ordering_of(all@, bundles@.dom()),
            records == pending_records(bundles@),
            due == timed_out_ids(records, period_nanos as int, now),
            origin.len() == ids@.len(),
            forall|k: int|
                0 <= k < ids@.len() ==> 0 <= #[trigger] origin[k] < i && all@[origin[k]] == ids@[k]
                    && due.contains(ids@[k]),
            forall|k: int, l: int| 0 <= k < l < ids@.len() ==> origin[k] < origin[l],
            forall|j: int| 0 <= j < i && due.contains(#[trigger] all@[j]) ==> ids@.contains(all@[j]),
        decreases all.len() - i,
    {
        let id = all[i];
        let ghost before = ids@;
        proof {
            assert(all@.to_set().contains(id));
            assert(bundles@.contains_key(id));
        }
        match bundles.get(&id) {
            Some(bundle) => {
                if timed_out(bundle.timestamp, period_nanos, now) {
                    ids.push(id);
                    proof {
                        origin = origin.push(i as int);
                        assert(due.contains(id));
                        assert forall|j: int|
                            0 <= j < i + 1 && due.contains(#[trigger] all@[j]) implies ids@.contains(
                            all@[j],
                        ) by {
                            if j < i {
                                let k = choose|k: int| 0 <= k < before.len() && before[k] == all@[j];
                                assert(ids@[k] == all@[j]);
                            } else {
                                assert(ids@[before.len() as int] == id);
                            }
                        }
                    }
                } else {
                    assert(!due.contains(id));
                }
            },
            None => {},
        }
        i = i + 1;
    }
    proof {
        assert(ids@.no_duplicates()) by {
            assert forall|k: int, l: int|
                0 <= k < ids@.len() && 0 <= l < ids@.len() && k != l implies ids@[k] != ids@[l] by {
                if k < l {
                    assert(origin[k] < origin[l]);
                } else {
                    assert(origin[l] < origin[k]);
                }
            }
        }
        assert forall|id: TxId| ids@.to_set().contains(id) <==> due.contains(id) by {
            if ids@.to_set().contains(id) {
                let k = choose|k: int| 0 <= k < ids@.len() && ids@[k] == id;
                assert(all@[origin[k]] == ids@[k]);
            }
            if due.contains(id) {
                assert(records.contains_key(id));
                assert(bundles@.dom().contains(id));
                assert(all@.to_set().contains(id));
                let j = choose|j: int| 0 <= j < all@.len() && all@[j] == id;
                assert(due.contains(all@[j]));
            }
        }
        assert(ids@.to_set() =~= due);
    }
    ids
}

/// Moves the outputs of `source` to the end of `target`.
pub fn append_outputs(target: &mut Vec<UnblindedOutput>, source: Vec<UnblindedOutput>)
    ensures
        output_records(final(target)@) == output_records(old(target)@) + output_records(source@),
{
    let mut source = source;
    let ghost moved = source@;
    let ghost before = target@;
    target.append(&mut source);
    assert(output_records(target@) =~= output_records(before) + output_records(moved));
}

/// Copies every bundle of `source` into `target`, over whatever `target`
/// held under the same identifier.
pub fn copy_bundles(
    target: &mut HashMap<TxId, PendingTransactionOutputs>,
    source: &HashMap<TxId, PendingTransactionOutputs>,
)
    ensures
        pending_records(final(target)@) == pending_records(old(target)@).union_prefer_right(
            pending_records(source@),
        ),
{
    let ids = bundle_ids(source);
    let ghost before = pending_records(target@);
    let ghost from = pending_records(source@);
    let mut i: usize = 0;
    while i < ids.len()
        invariant
            i <= ids.len(),
            is_ordering_of(ids@, source@.dom()),
            from == pending_records(source@),
            pending_records(target@) == before.union_prefer_right(
                from.restrict(ids@.take(i as int).to_set()),
            ),
        decreases ids.len() - i,
    {
        let id = ids[i];
        let ghost held = target@;
        assert(ids@.to_set().contains(id));
        assert(source@.contains_key(id));
        match source.get(&id) {
            Some(bundle) => {
                let copy = bundle.clone();
                let _ = target.insert(id, copy);
                assert(pending_records(target@) =~= pending_records(held).insert(id, from[id]));
            },
            None => {},
        }
        i = i + 1;
        proof {
            assert(ids@.take(i as int) =~= ids@.take(i - 1).push(id));
            ids@.take(i - 1).lemma_push_to_set_commute(id);
            assert(pending_records(target@) =~= before.union_prefer_right(
                from.restrict(ids@.take(i as int).to_set()),
            ));
        }
    }
    proof {
        assert(ids@.take(i as int) =~= ids@);
        assert(from.restrict(ids@.to_set()) =~= from);
    }
}

} // verus!
