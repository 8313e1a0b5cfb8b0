//! The values the output manager stores and the keys it is asked by.
//!
//! Each executable type has a mathematical counterpart, its view, in which
//! byte strings are sequences and collections are sequences and maps. The
//! store's contracts speak of the views.

use crate::output_manager::clock::Timestamp;
use std::collections::HashMap;
use vstd::prelude::*;

verus! {

broadcast use vstd::std_specs::hash::group_hash_axioms;

/// The identifier of an in-flight wallet transaction.
pub type TxId = u64;

/// A wallet output: its value and the key that spends it. Two outputs with
/// the same spending key are the same output to the store.
#[derive(Debug, PartialEq, Eq)]
pub struct UnblindedOutput {
    pub value: u64,
    pub spending_key: Vec<u8>,
}

/// The view of an [`UnblindedOutput`].
pub struct OutputRecord {
    pub value: u64,
    pub spending_key: Seq<u8>,
}

impl View for UnblindedOutput {
    type V = OutputRecord;

    open spec fn view(&self) -> OutputRecord {
        OutputRecord { value: self.value, spending_key: self.spending_key@ }
    }
}

impl Clone for UnblindedOutput {
    fn clone(&self) -> (copy: Self)
        ensures
            copy@ == self@,
    {
        UnblindedOutput { value: self.value, spending_key: self.spending_key.clone() }
    }
}

/// The views of a sequence of outputs, in the same order.
pub open spec fn output_records(outputs: Seq<UnblindedOutput>) -> Seq<OutputRecord> {
    outputs.map_values(|output: UnblindedOutput| output@)
}

/// A copy of a list of outputs.
pub fn clone_outputs(outputs: &Vec<UnblindedOutput>) -> (copy: Vec<UnblindedOutput>)
    ensures
        output_records(copy@) == output_records(outputs@),
{
    let mut copy: Vec<UnblindedOutput> = Vec::new();
    let mut i: usize = 0;
    while i < outputs.len()
        invariant
            i <= outputs.len(),
            copy@.len() == i,
            forall|j: int| 0 <= j < i ==> (#[trigger] copy@[j])@ == outputs@[j]@,
        decreases outputs.len() - i,
    {
        copy.push(outputs[i].clone());
        i = i + 1;
    }
    assert(output_records(copy@) =~= output_records(outputs@));
    copy
}

/// Whether two byte strings are equal.
pub fn bytes_equal(a: &Vec<u8>, b: &Vec<u8>) -> (equal: bool)
    ensures
        equal == (a@ == b@),
{
    if a.len() != b.len() {
        return false;
    }
    let mut i: usize = 0;
    while i < a.len()
        invariant
            i <= a.len(),
            a.len() == b.len(),
            a@.take(i as int) == b@.take(i as int),
        decreases a.len() - i,
    {
        if a[i] != b[i] {
            return false;
        }
        i = i + 1;
        assert(a@.take(i as int) =~= a@.take(i - 1).push(a@[i - 1]));
        assert(b@.take(i as int) =~= b@.take(i - 1).push(b@[i - 1]));
    }
    assert(a@.take(i as int) =~= a@);
    assert(b@.take(i as int) =~= b@);
    true
}

/// The outputs that one in-flight transaction holds: those it will spend,
/// taken out of the unspent set when they were encumbered, and those it will
/// bring in once it is mined.
#[derive(Debug, PartialEq, Eq)]
pub struct PendingTransactionOutputs {
    pub tx_id: TxId,
    pub outputs_to_be_spent: Vec<UnblindedOutput>,
    pub outputs_to_be_received: Vec<UnblindedOutput>,
    pub timestamp: Timestamp,
}

/// The view of a [`PendingTransactionOutputs`].
pub struct PendingRecord {
    pub tx_id: TxId,
    pub outputs_to_be_spent: Seq<OutputRecord>,
    pub outputs_to_be_received: Seq<OutputRecord>,
    pub timestamp: Timestamp,
}

impl View for PendingTransactionOutputs {
    type V = PendingRecord;

    open spec fn view(&self) -> PendingRecord {
        PendingRecord {
            tx_id: self.tx_id,
            outputs_to_be_spent: output_records(self.outputs_to_be_spent@),
            outputs_to_be_received: output_records(self.outputs_to_be_received@),
            timestamp: self.timestamp,
        }
    }
}

impl Clone for PendingTransactionOutputs {
    fn clone(&self) -> (copy: Self)
        ensures
            copy@ == self@,
    {
        PendingTransactionOutputs {
            tx_id: self.tx_id,
            outputs_to_be_spent: clone_outputs(&self.outputs_to_be_spent),
            outputs_to_be_received: clone_outputs(&self.outputs_to_be_received),
            timestamp: self.timestamp,
        }
    }
}

/// The views of the bundles of a map, under the same identifiers.
pub open spec fn pending_records(bundles: Map<TxId, PendingTransactionOutputs>) -> Map<
    TxId,
    PendingRecord,
> {
    bundles.map_values(|bundle: PendingTransactionOutputs| bundle@)
}

/// What the key manager keeps between sessions: its seeds, which the store
/// does not read, and the index of the next key to derive.
#[derive(Debug, PartialEq, Eq)]
pub struct KeyManagerState {
    pub master_seed: Vec<u8>,
    pub branch_seed: Vec<u8>,
    pub primary_key_index: u64,
}

/// The view of a [`KeyManagerState`].
pub struct KeyManagerRecord {
    pub master_seed: Seq<u8>,
    pub branch_seed: Seq<u8>,
    pub primary_key_index: u64,
}

impl View for KeyManagerState {
    type V = KeyManagerRecord;

    open spec fn view(&self) -> KeyManagerRecord {
        KeyManagerRecord {
            master_seed: self.master_seed@,
            branch_seed: self.branch_seed@,
            primary_key_index: self.primary_key_index,
        }
    }
}

impl Clone for KeyManagerState {
    fn clone(&self) -> (copy: Self)
        ensures
            copy@ == self@,
    {
        KeyManagerState {
            master_seed: self.master_seed.clone(),
            branch_seed: self.branch_seed.clone(),
            primary_key_index: self.primary_key_index,
        }
    }
}

/// What the store can be asked for.
#[derive(Debug, PartialEq, Eq)]
pub enum DbKey {
    /// The spent output with this spending key.
    SpentOutput(Vec<u8>),
    /// The unspent output with this spending key.
    UnspentOutput(Vec<u8>),
    /// The bundle of this transaction.
    PendingTransactionOutputs(TxId),
    /// All unspent outputs.
    UnspentOutputs,
    /// All spent outputs.
    SpentOutputs,
    /// The bundles of all in-flight transactions.
    AllPendingTransactionOutputs,
    /// The key manager's state.
    KeyManagerState,
    /// All invalid outputs.
    InvalidOutputs,
}

/// The view of a [`DbKey`].
pub enum DbKeyRecord {
    SpentOutput(Seq<u8>),
    UnspentOutput(Seq<u8>),
    PendingTransactionOutputs(TxId),
    UnspentOutputs,
    SpentOutputs,
    AllPendingTransactionOutputs,
    KeyManagerState,
    InvalidOutputs,
}

impl View for DbKey {
    type V = DbKeyRecord;

    open spec fn view(&self) -> DbKeyRecord {
        match self {
            DbKey::SpentOutput(key) => DbKeyRecord::SpentOutput(key@),
            DbKey::UnspentOutput(key) => DbKeyRecord::UnspentOutput(key@),
            DbKey::PendingTransactionOutputs(tx_id) => DbKeyRecord::PendingTransactionOutputs(
                *tx_id,
            ),
            DbKey::UnspentOutputs => DbKeyRecord::UnspentOutputs,
            DbKey::SpentOutputs => DbKeyRecord::SpentOutputs,
            DbKey::AllPendingTransactionOutputs => DbKeyRecord::AllPendingTransactionOutputs,
            DbKey::KeyManagerState => DbKeyRecord::KeyManagerState,
            DbKey::InvalidOutputs => DbKeyRecord::InvalidOutputs,
        }
    }
}

/// What the store answers with.
#[derive(Debug, PartialEq, Eq)]
pub enum DbValue {
    SpentOutput(UnblindedOutput),
    UnspentOutput(UnblindedOutput),
    PendingTransactionOutputs(PendingTransactionOutputs),
    UnspentOutputs(Vec<UnblindedOutput>),
    SpentOutputs(Vec<UnblindedOutput>),
    InvalidOutputs(Vec<UnblindedOutput>),
    AllPendingTransactionOutputs(HashMap<TxId, PendingTransactionOutputs>),
    KeyManagerState(KeyManagerState),
}

/// The view of a [`DbValue`].
pub enum DbValueRecord {
    SpentOutput(OutputRecord),
    UnspentOutput(OutputRecord),
    PendingTransactionOutputs(PendingRecord),
    UnspentOutputs(Seq<OutputRecord>),
    SpentOutputs(Seq<OutputRecord>),
    InvalidOutputs(Seq<OutputRecord>),
    AllPendingTransactionOutputs(Map<TxId, PendingRecord>),
    KeyManagerState(KeyManagerRecord),
}

impl View for DbValue {
    type V = DbValueRecord;

    open spec fn view(&self) -> DbValueRecord {
        match self {
            DbValue::SpentOutput(output) => DbValueRecord::SpentOutput(output@),
            DbValue::UnspentOutput(output) => DbValueRecord::UnspentOutput(output@),
            DbValue::PendingTransactionOutputs(bundle) => DbValueRecord::PendingTransactionOutputs(
                bundle@,
            ),
            DbValue::UnspentOutputs(outputs) => DbValueRecord::UnspentOutputs(
                output_records(outputs@),
            ),
            DbValue::SpentOutputs(outputs) => DbValueRecord::SpentOutputs(output_records(outputs@)),
            DbValue::InvalidOutputs(outputs) => DbValueRecord::InvalidOutputs(
                output_records(outputs@),
            ),
            DbValue::AllPendingTransactionOutputs(bundles) => {
                DbValueRecord::AllPendingTransactionOutputs(pending_records(bundles@))
            },
            DbValue::KeyManagerState(state) => DbValueRecord::KeyManagerState(state@),
        }
    }
}

/// A value to insert, with the key to insert it under.
#[derive(Debug, PartialEq, Eq)]
pub enum DbKeyValuePair {
    SpentOutput(Vec<u8>, UnblindedOutput),
    UnspentOutput(Vec<u8>, UnblindedOutput),
    PendingTransactionOutputs(TxId, PendingTransactionOutputs),
    KeyManagerState(KeyManagerState),
}

/// The view of a [`DbKeyValuePair`].
pub enum DbKeyValueRecord {
    SpentOutput(Seq<u8>, OutputRecord),
    UnspentOutput(Seq<u8>, OutputRecord),
    PendingTransactionOutputs(TxId, PendingRecord),
    KeyManagerState(KeyManagerRecord),
}

impl View for DbKeyValuePair {
    type V = DbKeyValueRecord;

    open spec fn view(&self) -> DbKeyValueRecord {
        match self {
            DbKeyValuePair::SpentOutput(key, output) => DbKeyValueRecord::SpentOutput(
                key@,
                output@,
            ),
            DbKeyValuePair::UnspentOutput(key, output) => DbKeyValueRecord::UnspentOutput(
                key@,
                output@,
            ),
            DbKeyValuePair::PendingTransactionOutputs(tx_id, bundle) => {
                DbKeyValueRecord::PendingTransactionOutputs(*tx_id, bundle@)
            },
            DbKeyValuePair::KeyManagerState(state) => DbKeyValueRecord::KeyManagerState(state@),
        }
    }
}

/// A change to the store.
#[derive(Debug, PartialEq, Eq)]
pub enum WriteOperation {
    Insert(DbKeyValuePair),
    Remove(DbKey),
}

/// The view of a [`WriteOperation`].
pub enum WriteRecord {
    Insert(DbKeyValueRecord),
    Remove(DbKeyRecord),
}

impl View for WriteOperation {
    type V = WriteRecord;

    open spec fn view(&self) -> WriteRecord {
        match self {
            WriteOperation::Insert(pair) => WriteRecord::Insert(pair@),
            WriteOperation::Remove(key) => WriteRecord::Remove(key@),
        }
    }
}

} // verus!
