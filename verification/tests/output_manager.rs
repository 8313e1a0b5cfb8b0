use std::collections::HashMap;
use std::time::Duration;
use tari_base_node::output_manager::clock::{representable_period, timed_out, Timestamp};
use tari_base_node::output_manager::database::{
    bytes_equal, clone_outputs, DbKey, DbKeyValuePair, DbValue, KeyManagerState,
    PendingTransactionOutputs, UnblindedOutput, WriteOperation,
};
use tari_base_node::output_manager::error::OutputManagerStorageError;
use tari_base_node::output_manager::memory_db::{
    append_outputs, bundle_ids, copy_bundles, position, timed_out_bundle_ids, InnerDatabase,
    OutputManagerMemoryDatabase,
};

fn output(key: u8, value: u64) -> UnblindedOutput {
    UnblindedOutput { value, spending_key: vec![key, key, key] }
}

fn insert_unspent(db: &mut OutputManagerMemoryDatabase, o: &UnblindedOutput) {
    let r = db.write(WriteOperation::Insert(DbKeyValuePair::UnspentOutput(
        o.spending_key.clone(),
        o.clone(),
    )));
    assert_eq!(r, Ok(None));
}

fn unspent(db: &OutputManagerMemoryDatabase) -> Vec<UnblindedOutput> {
    match db.fetch(&DbKey::UnspentOutputs) {
        Ok(Some(DbValue::UnspentOutputs(v))) => v,
        other => panic!("unexpected answer {:?}", other),
    }
}

fn spent(db: &OutputManagerMemoryDatabase) -> Vec<UnblindedOutput> {
    match db.fetch(&DbKey::SpentOutputs) {
        Ok(Some(DbValue::SpentOutputs(v))) => v,
        other => panic!("unexpected answer {:?}", other),
    }
}

fn invalid(db: &OutputManagerMemoryDatabase) -> Vec<UnblindedOutput> {
    match db.fetch(&DbKey::InvalidOutputs) {
        Ok(Some(DbValue::InvalidOutputs(v))) => v,
        other => panic!("unexpected answer {:?}", other),
    }
}

fn all_pending(db: &OutputManagerMemoryDatabase) -> HashMap<u64, PendingTransactionOutputs> {
    match db.fetch(&DbKey::AllPendingTransactionOutputs) {
        Ok(Some(DbValue::AllPendingTransactionOutputs(m))) => m,
        other => panic!("unexpected answer {:?}", other),
    }
}

fn sorted(mut v: Vec<UnblindedOutput>) -> Vec<UnblindedOutput> {
    v.sort_by(|a, b| a.spending_key.cmp(&b.spending_key));
    v
}

const T0: Timestamp = Timestamp { secs: 1_000, nanos: 0 };

#[test]
fn new_store_is_empty() {
    let db = OutputManagerMemoryDatabase::new();
    assert_eq!(unspent(&db), vec![]);
    assert_eq!(spent(&db), vec![]);
    assert_eq!(invalid(&db), vec![]);
    assert!(all_pending(&db).is_empty());
    assert_eq!(db.fetch(&DbKey::KeyManagerState), Ok(None));
    let _ = InnerDatabase::new();
}

#[test]
fn store_duplicate() {
    let mut db = OutputManagerMemoryDatabase::new();
    let k = output(1, 10);
    insert_unspent(&mut db, &k);
    let r = db.write(WriteOperation::Insert(DbKeyValuePair::SpentOutput(
        k.spending_key.clone(),
        output(1, 99),
    )));
    assert_eq!(r, Err(OutputManagerStorageError::DuplicateOutput));
    assert_eq!(unspent(&db), vec![k.clone()]);
    assert_eq!(spent(&db), vec![]);
    // The same the other way round, and within one set.
    let s = output(2, 20);
    assert_eq!(
        db.write(WriteOperation::Insert(DbKeyValuePair::SpentOutput(
            s.spending_key.clone(),
            s.clone()
        ))),
        Ok(None)
    );
    assert_eq!(
        db.write(WriteOperation::Insert(DbKeyValuePair::UnspentOutput(
            s.spending_key.clone(),
            s.clone()
        ))),
        Err(OutputManagerStorageError::DuplicateOutput)
    );
    assert_eq!(
        db.write(WriteOperation::Insert(DbKeyValuePair::UnspentOutput(
            k.spending_key.clone(),
            k.clone()
        ))),
        Err(OutputManagerStorageError::DuplicateOutput)
    );
    assert_eq!(unspent(&db), vec![k]);
    assert_eq!(spent(&db), vec![s]);
}

#[test]
fn encumber_then_cancel() {
    let mut db = OutputManagerMemoryDatabase::new();
    let (a, b, c, d) = (output(1, 10), output(2, 20), output(3, 30), output(4, 40));
    insert_unspent(&mut db, &a);
    insert_unspent(&mut db, &b);
    insert_unspent(&mut db, &c);
    assert_eq!(
        db.short_term_encumber_outputs(7, &[a.clone(), b.clone()], Some(d.clone())),
        Ok(())
    );
    assert_eq!(unspent(&db), vec![c.clone()]);
    assert_eq!(db.cancel_pending_transaction(7), Ok(()));
    assert_eq!(sorted(unspent(&db)), vec![a.clone(), b.clone(), c.clone()]);
    assert_eq!(unspent(&db), vec![c, a, b]);
    assert_eq!(spent(&db), vec![]);
    assert!(all_pending(&db).is_empty());
    assert_eq!(db.fetch(&DbKey::UnspentOutput(d.spending_key.clone())), Ok(None));
}

#[test]
fn encumber_confirm_mine() {
    let mut db = OutputManagerMemoryDatabase::new();
    let (a, b, c, d) = (output(1, 10), output(2, 20), output(3, 30), output(4, 40));
    insert_unspent(&mut db, &a);
    insert_unspent(&mut db, &b);
    insert_unspent(&mut db, &c);
    assert_eq!(
        db.short_term_encumber_outputs_at(7, &[a.clone(), b.clone()], Some(d.clone()), T0),
        Ok(())
    );
    let bundle = PendingTransactionOutputs {
        tx_id: 7,
        outputs_to_be_spent: vec![a.clone(), b.clone()],
        outputs_to_be_received: vec![d.clone()],
        timestamp: T0,
    };
    assert_eq!(
        db.fetch(&DbKey::PendingTransactionOutputs(7)),
        Ok(Some(DbValue::PendingTransactionOutputs(bundle.clone())))
    );
    assert_eq!(db.confirm_encumbered_outputs(7), Ok(()));
    assert_eq!(
        db.fetch(&DbKey::PendingTransactionOutputs(7)),
        Ok(Some(DbValue::PendingTransactionOutputs(bundle.clone())))
    );
    // Now the bundle awaits mining: it can be removed as such.
    assert_eq!(all_pending(&db).get(&7), Some(&bundle));
    assert_eq!(db.confirm_transaction(7), Ok(()));
    assert_eq!(unspent(&db), vec![c, d]);
    assert_eq!(spent(&db), vec![a, b]);
    assert!(all_pending(&db).is_empty());
    assert_eq!(db.fetch(&DbKey::PendingTransactionOutputs(7)), Ok(None));
    // Absorbed once: there is nothing to confirm a second time.
    assert_eq!(
        db.confirm_transaction(7),
        Err(OutputManagerStorageError::ValueNotFound(DbKey::PendingTransactionOutputs(7)))
    );
}

#[test]
fn fetch_single_outputs() {
    let mut db = OutputManagerMemoryDatabase::new();
    let (a, b) = (output(1, 10), output(2, 20));
    insert_unspent(&mut db, &a);
    assert_eq!(
        db.write(WriteOperation::Insert(DbKeyValuePair::SpentOutput(
            b.spending_key.clone(),
            b.clone()
        ))),
        Ok(None)
    );
    assert_eq!(
        db.fetch(&DbKey::UnspentOutput(a.spending_key.clone())),
        Ok(Some(DbValue::UnspentOutput(a.clone())))
    );
    assert_eq!(db.fetch(&DbKey::SpentOutput(a.spending_key.clone())), Ok(None));
    assert_eq!(
        db.fetch(&DbKey::SpentOutput(b.spending_key.clone())),
        Ok(Some(DbValue::SpentOutput(b.clone())))
    );
    assert_eq!(db.fetch(&DbKey::UnspentOutput(b.spending_key.clone())), Ok(None));
    // A key that is a prefix of another is another key.
    assert_eq!(db.fetch(&DbKey::UnspentOutput(vec![1, 1])), Ok(None));
    assert_eq!(db.fetch(&DbKey::UnspentOutput(vec![])), Ok(None));
}

#[test]
fn remove_single_values() {
    let mut db = OutputManagerMemoryDatabase::new();
    let (a, b, c) = (output(1, 10), output(2, 20), output(3, 30));
    insert_unspent(&mut db, &a);
    insert_unspent(&mut db, &b);
    insert_unspent(&mut db, &c);
    assert_eq!(
        db.write(WriteOperation::Remove(DbKey::UnspentOutput(b.spending_key.clone()))),
        Ok(Some(DbValue::UnspentOutput(b.clone())))
    );
    assert_eq!(unspent(&db), vec![a.clone(), c.clone()]);
    assert_eq!(
        db.write(WriteOperation::Remove(DbKey::UnspentOutput(b.spending_key.clone()))),
        Err(OutputManagerStorageError::ValueNotFound(DbKey::UnspentOutput(
            b.spending_key.clone()
        )))
    );
    assert_eq!(
        db.write(WriteOperation::Remove(DbKey::SpentOutput(a.spending_key.clone()))),
        Err(OutputManagerStorageError::ValueNotFound(DbKey::SpentOutput(
            a.spending_key.clone()
        )))
    );
    assert_eq!(
        db.write(WriteOperation::Insert(DbKeyValuePair::SpentOutput(
            b.spending_key.clone(),
            b.clone()
        ))),
        Ok(None)
    );
    assert_eq!(
        db.write(WriteOperation::Remove(DbKey::SpentOutput(b.spending_key.clone()))),
        Ok(Some(DbValue::SpentOutput(b)))
    );
    assert_eq!(spent(&db), vec![]);
    assert_eq!(unspent(&db), vec![a, c]);
}

#[test]
fn remove_of_a_collection_is_not_supported() {
    let mut db = OutputManagerMemoryDatabase::new();
    insert_unspent(&mut db, &output(1, 10));
    for key in [
        DbKey::UnspentOutputs,
        DbKey::SpentOutputs,
        DbKey::AllPendingTransactionOutputs,
        DbKey::KeyManagerState,
        DbKey::InvalidOutputs,
    ] {
        assert_eq!(
            db.write(WriteOperation::Remove(key)),
            Err(OutputManagerStorageError::OperationNotSupported)
        );
    }
    assert_eq!(unspent(&db), vec![output(1, 10)]);
}

#[test]
fn insert_and_remove_pending_bundle() {
    let mut db = OutputManagerMemoryDatabase::new();
    let first = PendingTransactionOutputs {
        tx_id: 3,
        outputs_to_be_spent: vec![output(1, 10)],
        outputs_to_be_received: vec![],
        timestamp: T0,
    };
    let second = PendingTransactionOutputs {
        tx_id: 3,
        outputs_to_be_spent: vec![output(2, 20)],
        outputs_to_be_received: vec![output(3, 30)],
        timestamp: T0,
    };
    assert_eq!(
        db.write(WriteOperation::Insert(DbKeyValuePair::PendingTransactionOutputs(
            3,
            first.clone()
        ))),
        Ok(None)
    );
    // A second insertion under the same identifier replaces the first.
    assert_eq!(
        db.write(WriteOperation::Insert(DbKeyValuePair::PendingTransactionOutputs(
            3,
            second.clone()
        ))),
        Ok(None)
    );
    assert_eq!(all_pending(&db).len(), 1);
    assert_eq!(
        db.write(WriteOperation::Remove(DbKey::PendingTransactionOutputs(3))),
        Ok(Some(DbValue::PendingTransactionOutputs(second)))
    );
    assert_eq!(
        db.write(WriteOperation::Remove(DbKey::PendingTransactionOutputs(3))),
        Err(OutputManagerStorageError::ValueNotFound(DbKey::PendingTransactionOutputs(3)))
    );
}

#[test]
fn remove_does_not_reach_bundles_being_negotiated() {
    let mut db = OutputManagerMemoryDatabase::new();
    let a = output(1, 10);
    insert_unspent(&mut db, &a);
    assert_eq!(db.short_term_encumber_outputs_at(5, &[a.clone()], None, T0), Ok(()));
    assert_eq!(
        db.write(WriteOperation::Remove(DbKey::PendingTransactionOutputs(5))),
        Err(OutputManagerStorageError::ValueNotFound(DbKey::PendingTransactionOutputs(5)))
    );
    assert_eq!(all_pending(&db).len(), 1);
}

#[test]
fn encumber_is_all_or_nothing() {
    let mut db = OutputManagerMemoryDatabase::new();
    let (a, b, c) = (output(1, 10), output(2, 20), output(3, 30));
    insert_unspent(&mut db, &a);
    insert_unspent(&mut db, &b);
    assert_eq!(
        db.short_term_encumber_outputs_at(7, &[a.clone(), c.clone()], Some(output(4, 40)), T0),
        Err(OutputManagerStorageError::ValuesNotFound)
    );
    assert_eq!(unspent(&db), vec![a.clone(), b.clone()]);
    assert!(all_pending(&db).is_empty());
    // The same output cannot be taken twice.
    assert_eq!(
        db.short_term_encumber_outputs_at(7, &[a.clone(), a.clone()], None, T0),
        Err(OutputManagerStorageError::ValuesNotFound)
    );
    assert_eq!(unspent(&db), vec![a.clone(), b.clone()]);
    // Nothing to send is fine.
    assert_eq!(db.short_term_encumber_outputs_at(8, &[], None, T0), Ok(()));
    assert_eq!(unspent(&db), vec![a, b]);
    assert_eq!(
        all_pending(&db).get(&8),
        Some(&PendingTransactionOutputs {
            tx_id: 8,
            outputs_to_be_spent: vec![],
            outputs_to_be_received: vec![],
            timestamp: T0,
        })
    );
}

#[test]
fn encumber_finds_outputs_by_spending_key() {
    let mut db = OutputManagerMemoryDatabase::new();
    let a = output(1, 10);
    insert_unspent(&mut db, &a);
    // The output asked for names the key; the one held is the one encumbered.
    assert_eq!(db.short_term_encumber_outputs_at(7, &[output(1, 0)], None, T0), Ok(()));
    assert_eq!(db.cancel_pending_transaction(7), Ok(()));
    assert_eq!(unspent(&db), vec![a]);
}

#[test]
fn second_encumbrance_of_an_output_fails() {
    let mut db = OutputManagerMemoryDatabase::new();
    let a = output(1, 10);
    insert_unspent(&mut db, &a);
    assert_eq!(db.short_term_encumber_outputs_at(1, &[a.clone()], None, T0), Ok(()));
    assert_eq!(
        db.short_term_encumber_outputs_at(2, &[a.clone()], None, T0),
        Err(OutputManagerStorageError::ValuesNotFound)
    );
}

#[test]
fn confirm_encumbered_outputs_needs_a_short_term_bundle() {
    let mut db = OutputManagerMemoryDatabase::new();
    assert_eq!(
        db.confirm_encumbered_outputs(1),
        Err(OutputManagerStorageError::ValueNotFound(DbKey::PendingTransactionOutputs(1)))
    );
    let a = output(1, 10);
    insert_unspent(&mut db, &a);
    assert_eq!(db.short_term_encumber_outputs_at(1, &[a], None, T0), Ok(()));
    assert_eq!(db.confirm_encumbered_outputs(1), Ok(()));
    assert_eq!(
        db.confirm_encumbered_outputs(1),
        Err(OutputManagerStorageError::ValueNotFound(DbKey::PendingTransactionOutputs(1)))
    );
}

#[test]
fn cancel_of_an_unknown_transaction_fails() {
    let mut db = OutputManagerMemoryDatabase::new();
    insert_unspent(&mut db, &output(1, 10));
    assert_eq!(
        db.cancel_pending_transaction(9),
        Err(OutputManagerStorageError::ValueNotFound(DbKey::PendingTransactionOutputs(9)))
    );
    assert_eq!(unspent(&db), vec![output(1, 10)]);
}

#[test]
fn cancel_takes_the_pending_bundle_before_the_short_term_one() {
    let mut db = OutputManagerMemoryDatabase::new();
    let (a, b) = (output(1, 10), output(2, 20));
    insert_unspent(&mut db, &a);
    assert_eq!(
        db.write(WriteOperation::Insert(DbKeyValuePair::PendingTransactionOutputs(
            7,
            PendingTransactionOutputs {
                tx_id: 7,
                outputs_to_be_spent: vec![b.clone()],
                outputs_to_be_received: vec![],
                timestamp: T0,
            }
        ))),
        Ok(None)
    );
    assert_eq!(db.short_term_encumber_outputs_at(7, &[a.clone()], None, T0), Ok(()));
    assert_eq!(db.cancel_pending_transaction(7), Ok(()));
    assert_eq!(unspent(&db), vec![b.clone()]);
    assert_eq!(db.cancel_pending_transaction(7), Ok(()));
    assert_eq!(unspent(&db), vec![b, a]);
}

#[test]
fn clear_short_term_encumberances_restores_outputs() {
    let mut db = OutputManagerMemoryDatabase::new();
    let outputs: Vec<UnblindedOutput> = (1..=6).map(|i| output(i, 10 * i as u64)).collect();
    for o in &outputs {
        insert_unspent(&mut db, o);
    }
    assert_eq!(
        db.short_term_encumber_outputs_at(1, &outputs[0..2], Some(output(10, 1)), T0),
        Ok(())
    );
    assert_eq!(db.short_term_encumber_outputs_at(2, &outputs[2..3], None, T0), Ok(()));
    assert_eq!(
        db.short_term_encumber_outputs_at(3, &outputs[3..5], Some(output(11, 1)), T0),
        Ok(())
    );
    assert_eq!(db.confirm_encumbered_outputs(2), Ok(()));
    assert_eq!(unspent(&db), vec![outputs[5].clone()]);
    assert_eq!(db.clear_short_term_encumberances(), Ok(()));
    let mut expected = outputs.clone();
    expected.remove(2);
    assert_eq!(sorted(unspent(&db)), expected);
    let left = all_pending(&db);
    assert_eq!(left.len(), 1);
    assert_eq!(left.get(&2).map(|p| p.outputs_to_be_spent.clone()), Some(vec![outputs[2].clone()]));
    // Nothing is left to clear.
    assert_eq!(db.clear_short_term_encumberances(), Ok(()));
    assert_eq!(sorted(unspent(&db)), expected);
}

#[test]
fn invalidate_unspent_output_moves_it() {
    let mut db = OutputManagerMemoryDatabase::new();
    let (a, b) = (output(1, 10), output(2, 20));
    insert_unspent(&mut db, &a);
    insert_unspent(&mut db, &b);
    assert_eq!(db.invalidate_unspent_output(&a), Ok(()));
    assert_eq!(unspent(&db), vec![b.clone()]);
    assert_eq!(invalid(&db), vec![a.clone()]);
    assert_eq!(
        db.invalidate_unspent_output(&a),
        Err(OutputManagerStorageError::ValuesNotFound)
    );
    assert_eq!(unspent(&db), vec![b]);
    assert_eq!(invalid(&db), vec![a]);
}

#[test]
fn key_index_increments() {
    let mut db = OutputManagerMemoryDatabase::new();
    assert_eq!(
        db.increment_key_index(),
        Err(OutputManagerStorageError::KeyManagerNotInitialized)
    );
    let state = KeyManagerState {
        master_seed: vec![1, 2, 3],
        branch_seed: vec![4, 5],
        primary_key_index: 41,
    };
    assert_eq!(
        db.write(WriteOperation::Insert(DbKeyValuePair::KeyManagerState(state.clone()))),
        Ok(None)
    );
    for _ in 0..100 {
        assert_eq!(db.increment_key_index(), Ok(()));
    }
    assert_eq!(
        db.fetch(&DbKey::KeyManagerState),
        Ok(Some(DbValue::KeyManagerState(KeyManagerState {
            master_seed: vec![1, 2, 3],
            branch_seed: vec![4, 5],
            primary_key_index: 141,
        })))
    );
    // A new state replaces the old one.
    assert_eq!(
        db.write(WriteOperation::Insert(DbKeyValuePair::KeyManagerState(state.clone()))),
        Ok(None)
    );
    assert_eq!(db.fetch(&DbKey::KeyManagerState), Ok(Some(DbValue::KeyManagerState(state))));
}

#[test]
fn all_pending_merges_both_maps_and_short_term_wins() {
    let mut db = OutputManagerMemoryDatabase::new();
    let (a, b, c) = (output(1, 10), output(2, 20), output(3, 30));
    insert_unspent(&mut db, &a);
    insert_unspent(&mut db, &b);
    let pending = PendingTransactionOutputs {
        tx_id: 1,
        outputs_to_be_spent: vec![c.clone()],
        outputs_to_be_received: vec![],
        timestamp: T0,
    };
    for id in [1, 2] {
        assert_eq!(
            db.write(WriteOperation::Insert(DbKeyValuePair::PendingTransactionOutputs(
                id,
                pending.clone()
            ))),
            Ok(None)
        );
    }
    let later = Timestamp { secs: 2_000, nanos: 5 };
    assert_eq!(db.short_term_encumber_outputs_at(2, &[a.clone()], None, later), Ok(()));
    assert_eq!(db.short_term_encumber_outputs_at(3, &[b.clone()], None, later), Ok(()));
    let all = all_pending(&db);
    assert_eq!(all.len(), 3);
    assert_eq!(all.get(&1), Some(&pending));
    assert_eq!(all.get(&2).map(|p| p.outputs_to_be_spent.clone()), Some(vec![a]));
    assert_eq!(all.get(&3).map(|p| p.outputs_to_be_spent.clone()), Some(vec![b]));
    // A fetch by identifier looks at the bundles awaiting mining first.
    assert_eq!(
        db.fetch(&DbKey::PendingTransactionOutputs(2)),
        Ok(Some(DbValue::PendingTransactionOutputs(pending)))
    );
}

#[test]
fn timeout_cancels_what_has_outlived_the_period() {
    let mut db = OutputManagerMemoryDatabase::new();
    let outputs: Vec<UnblindedOutput> = (1..=4).map(|i| output(i, 10 * i as u64)).collect();
    for o in &outputs {
        insert_unspent(&mut db, o);
    }
    let at = |secs: i64, nanos: u32| Timestamp { secs, nanos };
    assert_eq!(db.short_term_encumber_outputs_at(1, &outputs[0..1], None, at(100, 0)), Ok(()));
    assert_eq!(db.short_term_encumber_outputs_at(2, &outputs[1..2], None, at(200, 0)), Ok(()));
    assert_eq!(db.short_term_encumber_outputs_at(3, &outputs[2..3], None, at(200, 1)), Ok(()));
    assert_eq!(db.confirm_encumbered_outputs(1), Ok(()));
    let ten_seconds: u128 = 10_000_000_000;
    // At 110 s exactly nothing has outlived ten seconds yet.
    assert_eq!(db.timeout_pending_transactions_at(ten_seconds, at(110, 0)), Ok(()));
    assert_eq!(all_pending(&db).len(), 3);
    assert_eq!(db.timeout_pending_transactions_at(ten_seconds, at(110, 1)), Ok(()));
    assert_eq!(all_pending(&db).len(), 2);
    assert_eq!(unspent(&db), vec![outputs[3].clone(), outputs[0].clone()]);
    // The same timeout again changes nothing.
    assert_eq!(db.timeout_pending_transactions_at(ten_seconds, at(110, 1)), Ok(()));
    assert_eq!(all_pending(&db).len(), 2);
    assert_eq!(unspent(&db), vec![outputs[3].clone(), outputs[0].clone()]);
    // One nanosecond decides between the two that are left.
    assert_eq!(db.timeout_pending_transactions_at(ten_seconds, at(210, 1)), Ok(()));
    let left = all_pending(&db);
    assert_eq!(left.len(), 1);
    assert!(left.contains_key(&3));
    assert_eq!(
        unspent(&db),
        vec![outputs[3].clone(), outputs[0].clone(), outputs[1].clone()]
    );
    assert_eq!(db.timeout_pending_transactions_at(0, at(-5, 0)), Ok(()));
    assert_eq!(all_pending(&db).len(), 1);
    assert_eq!(db.timeout_pending_transactions_at(0, at(200, 2)), Ok(()));
    assert!(all_pending(&db).is_empty());
    assert_eq!(sorted(unspent(&db)), outputs);
}

#[test]
fn timeout_refuses_a_period_out_of_range() {
    let longest: u128 = (i64::MAX as u128) * 1_000_000;
    let mut db = OutputManagerMemoryDatabase::new();
    // With no bundle the period is not looked at.
    assert_eq!(db.timeout_pending_transactions_at(longest + 1, T0), Ok(()));
    assert_eq!(db.timeout_pending_transactions_at(u128::MAX, T0), Ok(()));
    assert_eq!(db.timeout_pending_transactions(Duration::MAX), Ok(()));
    let a = output(1, 10);
    insert_unspent(&mut db, &a);
    assert_eq!(db.short_term_encumber_outputs_at(1, &[a.clone()], None, T0), Ok(()));
    assert_eq!(
        db.timeout_pending_transactions_at(longest + 1, Timestamp { secs: i64::MAX, nanos: 0 }),
        Err(OutputManagerStorageError::DurationOutOfRange)
    );
    assert_eq!(
        db.timeout_pending_transactions_at(u128::MAX, Timestamp { secs: i64::MAX, nanos: 0 }),
        Err(OutputManagerStorageError::DurationOutOfRange)
    );
    assert_eq!(
        db.timeout_pending_transactions(Duration::MAX),
        Err(OutputManagerStorageError::DurationOutOfRange)
    );
    assert_eq!(
        db.timeout_pending_transactions(Duration::new(9_223_372_036_854_775, 807_000_001)),
        Err(OutputManagerStorageError::DurationOutOfRange)
    );
    assert_eq!(all_pending(&db).len(), 1);
    assert_eq!(unspent(&db), vec![]);
    // The longest period there is is in range, and by now nothing has
    // outlived it.
    assert_eq!(
        db.timeout_pending_transactions(Duration::new(9_223_372_036_854_775, 807_000_000)),
        Ok(())
    );
    assert_eq!(all_pending(&db).len(), 1);
    // The bundle has outlived it one nanosecond after the stamp plus the
    // period, not before.
    assert_eq!(
        db.timeout_pending_transactions_at(longest, Timestamp {
            secs: 9_223_372_036_854_775 + 1_000,
            nanos: 807_000_000
        }),
        Ok(())
    );
    assert_eq!(all_pending(&db).len(), 1);
    assert_eq!(
        db.timeout_pending_transactions_at(longest, Timestamp {
            secs: 9_223_372_036_854_775 + 1_000,
            nanos: 807_000_001
        }),
        Ok(())
    );
    assert!(all_pending(&db).is_empty());
    assert_eq!(unspent(&db), vec![a.clone()]);
    // The far ends of the clock are within reach.
    let mut early = OutputManagerMemoryDatabase::new();
    insert_unspent(&mut early, &a);
    assert_eq!(
        early.short_term_encumber_outputs_at(1, &[a.clone()], None, Timestamp {
            secs: i64::MIN,
            nanos: 0
        }),
        Ok(())
    );
    assert_eq!(
        early.timeout_pending_transactions_at(longest, Timestamp { secs: i64::MIN, nanos: 0 }),
        Ok(())
    );
    assert_eq!(all_pending(&early).len(), 1);
    assert_eq!(
        early.timeout_pending_transactions_at(longest, Timestamp {
            secs: i64::MAX,
            nanos: u32::MAX
        }),
        Ok(())
    );
    assert!(all_pending(&early).is_empty());
    assert_eq!(unspent(&early), vec![a]);
}

#[test]
fn encumbrance_is_stamped_with_the_present_time() {
    let mut db = OutputManagerMemoryDatabase::new();
    let a = output(1, 10);
    insert_unspent(&mut db, &a);
    assert_eq!(db.short_term_encumber_outputs(1, &[a.clone()], None), Ok(()));
    let stamp = all_pending(&db).get(&1).map(|p| p.timestamp).unwrap();
    // Some time after the year 2020 and before the year 3000.
    assert!(stamp.secs > 1_577_836_800);
    assert!(stamp.secs < 32_503_680_000);
    assert!(stamp.nanos < 1_000_000_000);
    // An hour has not passed since.
    assert_eq!(db.timeout_pending_transactions(Duration::from_secs(3600)), Ok(()));
    assert_eq!(all_pending(&db).len(), 1);
    // A second after the stamp, a period of nothing has.
    let later = Timestamp { secs: stamp.secs + 1, nanos: stamp.nanos };
    assert_eq!(db.timeout_pending_transactions_at(0, later), Ok(()));
    assert!(all_pending(&db).is_empty());
    assert_eq!(unspent(&db), vec![a.clone()]);
    // With the clock read again, what was stamped a moment ago has outlived
    // a period of nothing once the clock has moved on.
    assert_eq!(db.short_term_encumber_outputs(2, &[a.clone()], None), Ok(()));
    let mut tries = 0;
    while !all_pending(&db).is_empty() && tries < 10_000_000 {
        assert_eq!(db.timeout_pending_transactions(Duration::from_nanos(0)), Ok(()));
        tries += 1;
    }
    assert!(all_pending(&db).is_empty());
}

fn keys_held(db: &OutputManagerMemoryDatabase) -> Vec<Vec<u8>> {
    let mut keys: Vec<Vec<u8>> = Vec::new();
    for o in unspent(db).into_iter().chain(spent(db)).chain(invalid(db)) {
        keys.push(o.spending_key);
    }
    for (_, bundle) in all_pending(db) {
        for o in bundle.outputs_to_be_spent.into_iter().chain(bundle.outputs_to_be_received) {
            keys.push(o.spending_key);
        }
    }
    keys
}

fn assert_consistent(db: &OutputManagerMemoryDatabase) {
    let mut keys = keys_held(db);
    let held = keys.len();
    keys.sort();
    keys.dedup();
    assert_eq!(keys.len(), held);
    let unspent_keys: Vec<Vec<u8>> = unspent(db).into_iter().map(|o| o.spending_key).collect();
    for (_, bundle) in all_pending(db) {
        for o in bundle.outputs_to_be_spent {
            assert!(!unspent_keys.contains(&o.spending_key));
        }
    }
}

#[test]
fn store_stays_consistent_through_a_sequence_of_operations() {
    let mut db = OutputManagerMemoryDatabase::new();
    let outputs: Vec<UnblindedOutput> = (1..=12).map(|i| output(i, i as u64)).collect();
    for o in &outputs {
        insert_unspent(&mut db, o);
        assert_consistent(&db);
    }
    let mut next_change: u8 = 100;
    // A fixed walk through the operations, steered by a small generator.
    let mut seed: u32 = 12345;
    for step in 0..400u64 {
        seed = seed.wrapping_mul(1_103_515_245).wrapping_add(12_345);
        let pick = (seed >> 16) % 8;
        let tx_id = ((seed >> 8) % 5) as u64;
        let now = Timestamp { secs: step as i64, nanos: 0 };
        match pick {
            0 | 1 => {
                let free = unspent(&db);
                let short_term_only = match db.fetch(&DbKey::PendingTransactionOutputs(tx_id)) {
                    Ok(None) => true,
                    _ => false,
                };
                if free.len() >= 2 && short_term_only {
                    let change = output(next_change, 1);
                    next_change = next_change.wrapping_add(1);
                    assert_eq!(
                        db.short_term_encumber_outputs_at(tx_id, &free[0..2], Some(change), now),
                        Ok(())
                    );
                }
            },
            2 => {
                let _ = db.confirm_encumbered_outputs(tx_id);
            },
            3 => {
                let _ = db.cancel_pending_transaction(tx_id);
            },
            4 => {
                let _ = db.confirm_transaction(tx_id);
            },
            5 => {
                assert_eq!(db.timeout_pending_transactions_at(30_000_000_000, now), Ok(()));
            },
            6 => {
                assert_eq!(db.clear_short_term_encumberances(), Ok(()));
            },
            _ => {
                if let Some(o) = unspent(&db).first() {
                    if step % 7 == 0 {
                        assert_eq!(db.invalidate_unspent_output(o), Ok(()));
                    }
                }
            },
        }
        assert_consistent(&db);
    }
}

#[test]
fn byte_strings_compare_by_content() {
    use_bytes_equal(&[], &[], true);
    use_bytes_equal(&[1, 2, 3], &[1, 2, 3], true);
    use_bytes_equal(&[1, 2, 3], &[1, 2], false);
    use_bytes_equal(&[1, 2], &[1, 2, 3], false);
    use_bytes_equal(&[1, 2, 3], &[1, 2, 4], false);
    use_bytes_equal(&[0], &[], false);
}

fn use_bytes_equal(a: &[u8], b: &[u8], expected: bool) {
    assert_eq!(bytes_equal(&a.to_vec(), &b.to_vec()), expected);
}

#[test]
fn position_is_that_of_the_first_output_with_the_key() {
    let outputs = vec![output(1, 10), output(2, 20), output(1, 30), output(3, 40)];
    assert_eq!(position(&outputs, &vec![1, 1, 1]), Some(0));
    assert_eq!(position(&outputs, &vec![2, 2, 2]), Some(1));
    assert_eq!(position(&outputs, &vec![3, 3, 3]), Some(3));
    assert_eq!(position(&outputs, &vec![4, 4, 4]), None);
    assert_eq!(position(&vec![], &vec![1, 1, 1]), None);
}

#[test]
fn outputs_are_copied_and_appended_in_order() {
    let outputs = vec![output(1, 10), output(2, 20)];
    let mut copy = clone_outputs(&outputs);
    assert_eq!(copy, outputs);
    append_outputs(&mut copy, vec![output(3, 30), output(1, 10)]);
    assert_eq!(copy, vec![output(1, 10), output(2, 20), output(3, 30), output(1, 10)]);
    append_outputs(&mut copy, vec![]);
    assert_eq!(copy.len(), 4);
}

fn bundle(tx_id: u64, secs: i64) -> PendingTransactionOutputs {
    PendingTransactionOutputs {
        tx_id,
        outputs_to_be_spent: vec![output(tx_id as u8, tx_id)],
        outputs_to_be_received: vec![],
        timestamp: Timestamp { secs, nanos: 0 },
    }
}

#[test]
fn bundles_are_listed_and_copied() {
    let mut source: HashMap<u64, PendingTransactionOutputs> = HashMap::new();
    for id in [5, 1, 9] {
        source.insert(id, bundle(id, 100 * id as i64));
    }
    let mut ids = bundle_ids(&source);
    ids.sort();
    assert_eq!(ids, vec![1, 5, 9]);
    assert_eq!(bundle_ids(&HashMap::new()), vec![]);
    let mut target: HashMap<u64, PendingTransactionOutputs> = HashMap::new();
    target.insert(1, bundle(1, 0));
    target.insert(2, bundle(2, 0));
    copy_bundles(&mut target, &source);
    assert_eq!(target.len(), 4);
    assert_eq!(target.get(&1), Some(&bundle(1, 100)));
    assert_eq!(target.get(&2), Some(&bundle(2, 0)));
    assert_eq!(target.get(&5), Some(&bundle(5, 500)));
    assert_eq!(target.get(&9), Some(&bundle(9, 900)));
    // The bundles made before 600 s have outlived 300 s by 900 s.
    let mut due = timed_out_bundle_ids(&source, 300_000_000_000, Timestamp { secs: 900, nanos: 0 });
    due.sort();
    assert_eq!(due, vec![1, 5]);
}

#[test]
fn periods_and_instants() {
    let longest: u128 = (i64::MAX as u128) * 1_000_000;
    assert_eq!(representable_period(0), Some(0));
    assert_eq!(representable_period(1_500_000_000), Some(1_500_000_000));
    assert_eq!(representable_period(longest), Some(longest));
    assert_eq!(representable_period(longest + 1), None);
    assert_eq!(representable_period(u128::MAX), None);
    let at = |secs: i64, nanos: u32| Timestamp { secs, nanos };
    assert!(!timed_out(at(10, 0), 5_000_000_000, at(15, 0)));
    assert!(timed_out(at(10, 0), 5_000_000_000, at(15, 1)));
    assert!(!timed_out(at(10, 0), 0, at(10, 0)));
    assert!(!timed_out(at(10, 0), 0, at(9, 999_999_999)));
    assert!(timed_out(at(-10, 500), 0, at(-10, 501)));
    assert!(!timed_out(at(i64::MAX, 0), u128::MAX, at(i64::MIN, 0)));
    assert!(!timed_out(at(i64::MIN, 0), u128::MAX, at(i64::MAX, u32::MAX)));
    // Nanoseconds beyond a second count on into the next.
    assert!(timed_out(at(10, 0), 0, at(9, 1_000_000_001)));
}

#[test]
fn default_stores_are_empty() {
    let db = OutputManagerMemoryDatabase::default();
    assert_eq!(unspent(&db), vec![]);
    assert!(all_pending(&db).is_empty());
    let _ = InnerDatabase::default();
}
