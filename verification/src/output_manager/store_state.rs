//! The output manager's storage as a mathematical state, and each operation
//! as a function from the state before it to the state after it.
//!
//! The executable store is specified against this model: an operation on the
//! store takes its view from one state of the model to the next.

use crate::output_manager::clock::{has_timed_out, period_in_range, Timestamp};
use crate::output_manager::database::{
    DbKeyRecord,
    DbKeyValueRecord,
    DbValueRecord,
    KeyManagerRecord,
    OutputRecord,
    PendingRecord,
    TxId,
    WriteRecord,
};
use crate::output_manager::error::StorageErrorRecord;
use vstd::prelude::*;

verus! {

/// Whether some output of the sequence has this spending key.
pub open spec fn holds_key(outputs: Seq<OutputRecord>, key: Seq<u8>) -> bool {
    exists|i: int| 0 <= i < outputs.len() && (#[trigger] outputs[i]).spending_key == key
}

/// Whether `i` is the position of the first output with this spending key.
pub open spec fn is_first_with_key(outputs: Seq<OutputRecord>, key: Seq<u8>, i: int) -> bool {
    &&& 0 <= i < outputs.len()
    &&& outputs[i].spending_key == key
    &&& forall|j: int| 0 <= j < i ==> (#[trigger] outputs[j]).spending_key != key
}

/// The position of the first output with this spending key, where there is
/// one.
pub open spec fn first_with_key(outputs: Seq<OutputRecord>, key: Seq<u8>) -> int {
    choose|i: int| is_first_with_key(outputs, key, i)
}

/// The spending keys of a sequence of outputs, in the same order.
pub open spec fn spending_keys(outputs: Seq<OutputRecord>) -> Seq<Seq<u8>> {
    outputs.map_values(|output: OutputRecord| output.spending_key)
}

/// Takes from `unspent`, for each key in turn, the first output with that
/// key: the outputs that are left and the outputs taken, in the order of the
/// keys. `None` where a key finds no output among those still left.
pub open spec fn take_outputs(unspent: Seq<OutputRecord>, keys: Seq<Seq<u8>>) -> Option<
    (Seq<OutputRecord>, Seq<OutputRecord>),
>
    decreases keys.len(),
{
    if keys.len() == 0 {
        Some((unspent, Seq::empty()))
    } else {
        match take_outputs(unspent, keys.drop_last()) {
            None => None,
            Some((left, taken)) => {
                if holds_key(left, keys.last()) {
                    let i = first_with_key(left, keys.last());
                    Some((left.remove(i), taken.push(left[i])))
                } else {
                    None
                }
            },
        }
    }
}

/// Whether `order` lists each identifier of `ids` once and nothing else.
pub open spec fn is_ordering_of(order: Seq<TxId>, ids: Set<TxId>) -> bool {
    order.no_duplicates() && order.to_set() == ids
}

/// The identifiers of the bundles that have outlived `period_nanos` by `now`.
pub open spec fn timed_out_ids(
    bundles: Map<TxId, PendingRecord>,
    period_nanos: int,
    now: Timestamp,
) -> Set<TxId> {
    Set::new(
        |tx_id: TxId|
            bundles.contains_key(tx_id) && has_timed_out(
                bundles[tx_id].timestamp,
                period_nanos,
                now,
            ),
    )
}

/// The state of the output manager's storage.
pub struct StoreState {
    /// The outputs that can be spent.
    pub unspent: Seq<OutputRecord>,
    /// The outputs that a mined transaction has spent.
    pub spent: Seq<OutputRecord>,
    /// The outputs found to be invalid.
    pub invalid: Seq<OutputRecord>,
    /// The bundles of the transactions that await mining.
    pub pending: Map<TxId, PendingRecord>,
    /// The bundles of the transactions that are still being negotiated.
    pub short_term_pending: Map<TxId, PendingRecord>,
    /// The key manager's state, once it has been stored.
    pub key_manager_state: Option<KeyManagerRecord>,
}

impl StoreState {
    /// The state of a new store: nothing is held.
    pub open spec fn empty() -> StoreState {
        StoreState {
            unspent: Seq::empty(),
            spent: Seq::empty(),
            invalid: Seq::empty(),
            pending: Map::empty(),
            short_term_pending: Map::empty(),
            key_manager_state: None,
        }
    }

    /// The bundle of a transaction: the one awaiting mining if there is one,
    /// else the one still being negotiated.
    pub open spec fn bundle_of(self, tx_id: TxId) -> Option<PendingRecord> {
        if self.pending.contains_key(tx_id) {
            Some(self.pending[tx_id])
        } else if self.short_term_pending.contains_key(tx_id) {
            Some(self.short_term_pending[tx_id])
        } else {
            None
        }
    }

    /// The state without the bundle that `bundle_of` finds.
    pub open spec fn without_bundle(self, tx_id: TxId) -> StoreState {
        if self.pending.contains_key(tx_id) {
            StoreState { pending: self.pending.remove(tx_id), ..self }
        } else {
            StoreState { short_term_pending: self.short_term_pending.remove(tx_id), ..self }
        }
    }

    /// What a fetch under `key` answers.
    pub open spec fn fetch(self, key: DbKeyRecord) -> Option<DbValueRecord> {
        match key {
            DbKeyRecord::SpentOutput(k) => {
                if holds_key(self.spent, k) {
                    Some(DbValueRecord::SpentOutput(self.spent[first_with_key(self.spent, k)]))
                } else {
                    None
                }
            },
            DbKeyRecord::UnspentOutput(k) => {
                if holds_key(self.unspent, k) {
                    Some(
                        DbValueRecord::UnspentOutput(self.unspent[first_with_key(self.unspent, k)]),
                    )
                } else {
                    None
                }
            },
            DbKeyRecord::PendingTransactionOutputs(tx_id) => match self.bundle_of(tx_id) {
                Some(bundle) => Some(DbValueRecord::PendingTransactionOutputs(bundle)),
                None => None,
            },
            DbKeyRecord::UnspentOutputs => Some(DbValueRecord::UnspentOutputs(self.unspent)),
            DbKeyRecord::SpentOutputs => Some(DbValueRecord::SpentOutputs(self.spent)),
            DbKeyRecord::InvalidOutputs => Some(DbValueRecord::InvalidOutputs(self.invalid)),
            DbKeyRecord::AllPendingTransactionOutputs => Some(
                DbValueRecord::AllPendingTransactionOutputs(
                    self.pending.union_prefer_right(self.short_term_pending),
                ),
            ),
            DbKeyRecord::KeyManagerState => match self.key_manager_state {
                Some(state) => Some(DbValueRecord::KeyManagerState(state)),
                None => None,
            },
        }
    }

    /// The state after an insertion, or the error that refuses it.
    ///
    /// An output is refused as a duplicate where its key is held as unspent
    /// or spent; a bundle or a key manager state replaces what was there.
    pub open spec fn insert(self, pair: DbKeyValueRecord) -> Result<
        StoreState,
        StorageErrorRecord,
    > {
        match pair {
            DbKeyValueRecord::SpentOutput(k, output) => {
                if holds_key(self.spent, k) || holds_key(self.unspent, k) {
                    Err(StorageErrorRecord::DuplicateOutput)
                } else {
                    Ok(StoreState { spent: self.spent.push(output), ..self })
                }
            },
            DbKeyValueRecord::UnspentOutput(k, output) => {
                if holds_key(self.unspent, k) || holds_key(self.spent, k) {
                    Err(StorageErrorRecord::DuplicateOutput)
                } else {
                    Ok(StoreState { unspent: self.unspent.push(output), ..self })
                }
            },
            DbKeyValueRecord::PendingTransactionOutputs(tx_id, bundle) => Ok(
                StoreState { pending: self.pending.insert(tx_id, bundle), ..self },
            ),
            DbKeyValueRecord::KeyManagerState(state) => Ok(
                StoreState { key_manager_state: Some(state), ..self },
            ),
        }
    }

    /// The state after a removal together with the value removed, or the
    /// error that refuses it.
    ///
    /// A single output or a bundle awaiting mining is removed where it is
    /// held and reported as not found where it is not; no collection can be
    /// removed as a whole.
    pub open spec fn remove(self, key: DbKeyRecord) -> Result<
        (StoreState, DbValueRecord),
        StorageErrorRecord,
    > {
        match key {
            DbKeyRecord::SpentOutput(k) => {
                if holds_key(self.spent, k) {
                    let i = first_with_key(self.spent, k);
                    Ok(
                        (
                            StoreState { spent: self.spent.remove(i), ..self },
                            DbValueRecord::SpentOutput(self.spent[i]),
                        ),
                    )
                } else {
                    Err(StorageErrorRecord::ValueNotFound(key))
                }
            },
            DbKeyRecord::UnspentOutput(k) => {
                if holds_key(self.unspent, k) {
                    let i = first_with_key(self.unspent, k);
                    Ok(
                        (
                            StoreState { unspent: self.unspent.remove(i), ..self },
                            DbValueRecord::UnspentOutput(self.unspent[i]),
                        ),
                    )
                } else {
                    Err(StorageErrorRecord::ValueNotFound(key))
                }
            },
            DbKeyRecord::PendingTransactionOutputs(tx_id) => {
                if self.pending.contains_key(tx_id) {
                    Ok(
                        (
                            StoreState { pending: self.pending.remove(tx_id), ..self },
                            DbValueRecord::PendingTransactionOutputs(self.pending[tx_id]),
                        ),
                    )
                } else {
                    Err(StorageErrorRecord::ValueNotFound(key))
                }
            },
            DbKeyRecord::UnspentOutputs => Err(StorageErrorRecord::OperationNotSupported),
            DbKeyRecord::SpentOutputs => Err(StorageErrorRecord::OperationNotSupported),
            DbKeyRecord::AllPendingTransactionOutputs => Err(
                StorageErrorRecord::OperationNotSupported,
            ),
            DbKeyRecord::KeyManagerState => Err(StorageErrorRecord::OperationNotSupported),
            DbKeyRecord::InvalidOutputs => Err(StorageErrorRecord::OperationNotSupported),
        }
    }

    /// The state after a write together with the value it hands back, or the
    /// error that refuses it. An insertion hands nothing back.
    pub open spec fn write(self, operation: WriteRecord) -> Result<
        (StoreState, Option<DbValueRecord>),
        StorageErrorRecord,
    > {
        match operation {
            WriteRecord::Insert(pair) => match self.insert(pair) {
                Ok(next) => Ok((next, None)),
                Err(error) => Err(error),
            },
            WriteRecord::Remove(key) => match self.remove(key) {
                Ok((next, value)) => Ok((next, Some(value))),
                Err(error) => Err(error),
            },
        }
    }

    /// The state after a transaction was mined: its bundle is gone, the
    /// outputs it was to spend are spent and those it was to receive are
    /// unspent.
    pub open spec fn confirm_transaction(self, tx_id: TxId) -> Result<
        StoreState,
        StorageErrorRecord,
    > {
        match self.bundle_of(tx_id) {
            None => Err(
                StorageErrorRecord::ValueNotFound(DbKeyRecord::PendingTransactionOutputs(tx_id)),
            ),
            Some(bundle) => {
                let rest = self.without_bundle(tx_id);
                Ok(
                    StoreState {
                        spent: rest.spent + bundle.outputs_to_be_spent,
                        unspent: rest.unspent + bundle.outputs_to_be_received,
                        ..rest
                    },
                )
            },
        }
    }

    /// The state after outputs were encumbered for a transaction still being
    /// negotiated: the outputs asked for have left the unspent outputs for a
    /// new bundle, stamped `now`, that also holds the change output if there
    /// is one. The bundle replaces any that was being negotiated under the
    /// same identifier. Where an output asked for is not to be had, nothing
    /// changes.
    pub open spec fn short_term_encumber_outputs(
        self,
        tx_id: TxId,
        keys: Seq<Seq<u8>>,
        change_output: Option<OutputRecord>,
        now: Timestamp,
    ) -> Result<StoreState, StorageErrorRecord> {
        match take_outputs(self.unspent, keys) {
            None => Err(StorageErrorRecord::ValuesNotFound),
            Some((left, taken)) => {
                let bundle = PendingRecord {
                    tx_id,
                    outputs_to_be_spent: taken,
                    outputs_to_be_received: match change_output {
                        Some(output) => seq![output],
                        None => Seq::empty(),
                    },
                    timestamp: now,
                };
                Ok(
                    StoreState {
                        unspent: left,
                        short_term_pending: self.short_term_pending.insert(tx_id, bundle),
                        ..self
                    },
                )
            },
        }
    }

    /// The state after a negotiated transaction was sent: its bundle now
    /// awaits mining.
    pub open spec fn confirm_encumbered_outputs(self, tx_id: TxId) -> Result<
        StoreState,
        StorageErrorRecord,
    > {
        if self.short_term_pending.contains_key(tx_id) {
            Ok(
                StoreState {
                    short_term_pending: self.short_term_pending.remove(tx_id),
                    pending: self.pending.insert(tx_id, self.short_term_pending[tx_id]),
                    ..self
                },
            )
        } else {
            Err(StorageErrorRecord::ValueNotFound(DbKeyRecord::PendingTransactionOutputs(tx_id)))
        }
    }

    /// The state after a transaction was cancelled: its bundle is gone, the
    /// outputs it was to spend are unspent again, and those it was to receive
    /// are dropped.
    pub open spec fn cancel_pending_transaction(self, tx_id: TxId) -> Result<
        StoreState,
        StorageErrorRecord,
    > {
        match self.bundle_of(tx_id) {
            None => Err(
                StorageErrorRecord::ValueNotFound(DbKeyRecord::PendingTransactionOutputs(tx_id)),
            ),
            Some(bundle) => {
                let rest = self.without_bundle(tx_id);
                Ok(StoreState { unspent: rest.unspent + bundle.outputs_to_be_spent, ..rest })
            },
        }
    }

    /// The state after the transactions of `order` were cancelled one after
    /// the other. An identifier without a bundle changes nothing.
    pub open spec fn cancel_all(self, order: Seq<TxId>) -> StoreState
        decreases order.len(),
    {
        if order.len() == 0 {
            self
        } else {
            let before = self.cancel_all(order.drop_last());
            match before.cancel_pending_transaction(order.last()) {
                Ok(next) => next,
                Err(_) => before,
            }
        }
    }

    /// Whether `next` is a state that clearing the short-term encumbrances
    /// can lead to: every transaction being negotiated was cancelled, in some
    /// order.
    pub open spec fn cleared_to(self, next: StoreState) -> bool {
        exists|order: Seq<TxId>|
            is_ordering_of(order, self.short_term_pending.dom()) && next
                == #[trigger] self.cancel_all(order)
    }

    /// Whether `next` is a state that timing out can lead to: the
    /// transactions whose bundles had outlived `period_nanos` by `now` were
    /// cancelled, those of the bundles awaiting mining first, then those of
    /// the bundles being negotiated, each group in some order.
    pub open spec fn timed_out_to(self, period_nanos: int, now: Timestamp, next: StoreState) -> bool {
        exists|first: Seq<TxId>, second: Seq<TxId>|
            is_ordering_of(first, timed_out_ids(self.pending, period_nanos, now))
                && is_ordering_of(second, timed_out_ids(self.short_term_pending, period_nanos, now))
                && next == #[trigger] self.cancel_all(first + second)
    }

    /// What a timeout leads to. While any bundle is held, a period longer
    /// than the clock arithmetic can represent is refused and nothing
    /// changes; otherwise the timeout succeeds and `next` is a state that
    /// [`StoreState::timed_out_to`] allows.
    pub open spec fn timeout_outcome(
        self,
        period_nanos: int,
        now: Timestamp,
        next: StoreState,
        succeeded: bool,
    ) -> bool {
        if (self.pending.dom().len() > 0 || self.short_term_pending.dom().len() > 0)
            && !period_in_range(period_nanos) {
            !succeeded && next == self
        } else {
            succeeded && self.timed_out_to(period_nanos, now, next)
        }
    }

    /// The state after an unspent output was found to be invalid.
    pub open spec fn invalidate_unspent_output(self, key: Seq<u8>) -> Result<
        StoreState,
        StorageErrorRecord,
    > {
        if holds_key(self.unspent, key) {
            let i = first_with_key(self.unspent, key);
            Ok(
                StoreState {
                    unspent: self.unspent.remove(i),
                    invalid: self.invalid.push(self.unspent[i]),
                    ..self
                },
            )
        } else {
            Err(StorageErrorRecord::ValuesNotFound)
        }
    }

    /// The state after the key manager derived one more key.
    pub open spec fn increment_key_index(self) -> Result<StoreState, StorageErrorRecord> {
        match self.key_manager_state {
            None => Err(StorageErrorRecord::KeyManagerNotInitialized),
            Some(state) => Ok(
                StoreState {
                    key_manager_state: Some(
                        KeyManagerRecord {
                            primary_key_index: (state.primary_key_index + 1) as u64,
                            ..state
                        },
                    ),
                    ..self
                },
            ),
        }
    }
}

/// A place in which the store holds an output.
pub enum Place {
    /// Among the unspent outputs, at this position.
    Unspent(int),
    /// Among the spent outputs, at this position.
    Spent(int),
    /// Among the invalid outputs, at this position.
    Invalid(int),
    /// Among the outputs that a transaction is to spend, at this position;
    /// `short_term` tells the bundle being negotiated from the one awaiting
    /// mining.
    ToBeSpent { tx_id: TxId, short_term: bool, index: int },
    /// Among the outputs that a transaction is to receive.
    ToBeReceived { tx_id: TxId, short_term: bool, index: int },
}

impl StoreState {
    /// The bundles being negotiated or those awaiting mining.
    pub open spec fn bundles(self, short_term: bool) -> Map<TxId, PendingRecord> {
        if short_term {
            self.short_term_pending
        } else {
            self.pending
        }
    }

    /// Whether the state holds an output in this place.
    pub open spec fn has_place(self, place: Place) -> bool {
        match place {
            Place::Unspent(i) => 0 <= i < self.unspent.len(),
            Place::Spent(i) => 0 <= i < self.spent.len(),
            Place::Invalid(i) => 0 <= i < self.invalid.len(),
            Place::ToBeSpent { tx_id, short_term, index } => {
                &&& self.bundles(short_term).contains_key(tx_id)
                &&& 0 <= index < self.bundles(short_term)[tx_id].outputs_to_be_spent.len()
            },
            Place::ToBeReceived { tx_id, short_term, index } => {
                &&& self.bundles(short_term).contains_key(tx_id)
                &&& 0 <= index < self.bundles(short_term)[tx_id].outputs_to_be_received.len()
            },
        }
    }

    /// The output held in a place.
    pub open spec fn output_at(self, place: Place) -> OutputRecord {
        match place {
            Place::Unspent(i) => self.unspent[i],
            Place::Spent(i) => self.spent[i],
            Place::Invalid(i) => self.invalid[i],
            Place::ToBeSpent { tx_id, short_term, index } => self.bundles(
                short_term,
            )[tx_id].outputs_to_be_spent[index],
            Place::ToBeReceived { tx_id, short_term, index } => self.bundles(
                short_term,
            )[tx_id].outputs_to_be_received[index],
        }
    }

    /// Whether an output with this spending key is held anywhere.
    pub open spec fn holds(self, key: Seq<u8>) -> bool {
        exists|place: Place| #[trigger]
            self.has_place(place) && self.output_at(place).spending_key == key
    }

    /// No spending key is held in two places: the unspent, spent and invalid
    /// outputs and the outputs of the bundles are all different outputs.
    pub open spec fn keys_are_unique(self) -> bool {
        forall|p: Place, q: Place|
            #![trigger self.has_place(p), self.has_place(q)]
            self.has_place(p) && self.has_place(q) && self.output_at(p).spending_key
                == self.output_at(q).spending_key ==> p == q
    }

    /// No transaction has a bundle awaiting mining and another being
    /// negotiated.
    pub open spec fn bundle_ids_are_disjoint(self) -> bool {
        forall|tx_id: TxId|
            !(#[trigger] self.pending.contains_key(tx_id) && self.short_term_pending.contains_key(
                tx_id,
            ))
    }

    /// No output that a transaction is to spend is among the unspent outputs.
    pub open spec fn encumbered_outputs_are_not_unspent(self) -> bool {
        forall|tx_id: TxId, short_term: bool, index: int| #[trigger]
            self.has_place(Place::ToBeSpent { tx_id, short_term, index }) ==> !holds_key(
                self.unspent,
                self.output_at(Place::ToBeSpent { tx_id, short_term, index }).spending_key,
            )
    }

    /// The consistency of the store: each output is held in one place, each
    /// transaction has one bundle, and what is encumbered is not unspent.
    pub open spec fn is_consistent(self) -> bool {
        &&& self.keys_are_unique()
        &&& self.bundle_ids_are_disjoint()
        &&& self.encumbered_outputs_are_not_unspent()
    }
}

/// Among the outputs that hold a key there is a first one, and
/// `first_with_key` is its position.
pub proof fn lemma_first_with_key(outputs: Seq<OutputRecord>, key: Seq<u8>)
    requires
        holds_key(outputs, key),
    ensures
        is_first_with_key(outputs, key, first_with_key(outputs, key)),
{
    let witness = choose|i: int| 0 <= i < outputs.len() && (#[trigger] outputs[i]).spending_key == key;
    lemma_first_up_to(outputs, key, witness);
}

proof fn lemma_first_up_to(outputs: Seq<OutputRecord>, key: Seq<u8>, i: int)
    requires
        0 <= i < outputs.len(),
        outputs[i].spending_key == key,
    ensures
        exists|f: int| is_first_with_key(outputs, key, f),
    decreases i,
{
    if exists|j: int| 0 <= j < i && (#[trigger] outputs[j]).spending_key == key {
        let j = choose|j: int| 0 <= j < i && (#[trigger] outputs[j]).spending_key == key;
        lemma_first_up_to(outputs, key, j);
    } else {
        assert(is_first_with_key(outputs, key, i));
    }
}

/// The first output with a key stands at one position only.
pub proof fn lemma_first_with_key_is_unique(outputs: Seq<OutputRecord>, key: Seq<u8>, i: int)
    requires
        is_first_with_key(outputs, key, i),
    ensures
        holds_key(outputs, key),
        first_with_key(outputs, key) == i,
{
    let f = first_with_key(outputs, key);
    assert(is_first_with_key(outputs, key, f));
    if f < i {
        assert(outputs[f].spending_key != key);
    } else if i < f {
        assert(outputs[i].spending_key != key);
    }
}

/// Once a key has found no output, the keys after it are not tried: taking
/// fails for the whole sequence where it fails for a prefix of it.
pub proof fn lemma_take_outputs_fails_after_prefix(
    unspent: Seq<OutputRecord>,
    keys: Seq<Seq<u8>>,
    n: int,
)
    requires
        0 <= n <= keys.len(),
        take_outputs(unspent, keys.take(n)) is None,
    ensures
        take_outputs(unspent, keys) is None,
    decreases keys.len(),
{
    if n < keys.len() {
        assert(keys.drop_last().take(n) =~= keys.take(n));
        lemma_take_outputs_fails_after_prefix(unspent, keys.drop_last(), n);
    } else {
        assert(keys.take(n) =~= keys);
    }
}

} // verus!
