//! Plain storage: open, transactions, column families, savepoints.

use storage_versioned::storage::Storage;
use storage_versioned::store::KvStore;

fn b(s: &str) -> Vec<u8> {
    s.as_bytes().to_vec()
}

fn lookup(values: &Vec<(Vec<u8>, Option<Vec<u8>>)>, key: &str) -> Option<Vec<u8>> {
    for (k, v) in values {
        if k == &b(key) {
            return v.clone();
        }
    }
    panic!("key missing from multi_get result");
}

#[test]
fn storage_tests() {
    // opening without a database on disk and without permission to create
    assert!(Storage::open(None, false).is_err());

    // creating a fresh storage, then reopening over its extracted state
    let storage = Storage::open(None, true).unwrap();

    let mut storage = storage;
    let mut tx = storage.create_transaction().unwrap();

    assert!(tx.is_empty());

    // initializing the transaction with k1, k2, k4, k5 key-values
    tx.update(
        &vec![(b("k1"), b("v1")), (b("k2"), b("v2")), (b("k4"), b("v4")), (b("k5"), b("v5"))],
        &vec![],
    )
    .unwrap();

    assert!(!tx.is_empty());

    assert!(storage.is_empty());
    // committing all updates into the storage
    tx.commit(&mut storage).unwrap();
    assert!(!storage.is_empty());

    drop(tx);

    let mut tx2 = storage.create_transaction().unwrap();

    assert_eq!(tx2.get(&b("k4")).unwrap(), b("v4"));
    assert_eq!(tx2.get(&b("k5")).unwrap(), b("v5"));

    // inserting k3 and deleting k4 and k5 key-values
    tx2.update(&vec![(b("k3"), b("v3"))], &vec![b("k4"), b("k5")]).unwrap();

    assert_eq!(tx2.get(&b("k1")).unwrap(), b("v1"));
    assert_eq!(tx2.get(&b("k2")).unwrap(), b("v2"));
    assert_eq!(tx2.get(&b("k3")).unwrap(), b("v3"));
    assert!(tx2.get(&b("k4")).is_none());
    assert!(tx2.get(&b("k5")).is_none());

    assert!(tx2.multi_get(&vec![]).is_empty());
    let values = tx2.multi_get(&vec![b("k1"), b("k2"), b("k3"), b("k4"), b("k5"), b("k1"), b("k2")]);

    // duplicated keys in the parameters list of multi_get count just once
    assert_eq!(values.len(), 5);
    assert_eq!(lookup(&values, "k1").unwrap(), b("v1"));
    assert_eq!(lookup(&values, "k2").unwrap(), b("v2"));
    assert_eq!(lookup(&values, "k3").unwrap(), b("v3"));
    assert!(lookup(&values, "k4").is_none());
    assert!(lookup(&values, "k5").is_none());

    let all_values = tx2.get_iter();
    assert_eq!(all_values.len(), 3);
    assert_eq!(all_values[0], (b("k1"), b("v1")));
    assert_eq!(all_values[1], (b("k2"), b("v2")));
    assert_eq!(all_values[2], (b("k3"), b("v3")));

    tx2.commit(&mut storage).unwrap();

    // the same reads through the storage after the commit
    assert_eq!(storage.get(&b("k1")).unwrap(), b("v1"));
    assert_eq!(storage.get(&b("k2")).unwrap(), b("v2"));
    assert_eq!(storage.get(&b("k3")).unwrap(), b("v3"));
    assert!(storage.get(&b("k4")).is_none());
    assert!(storage.get(&b("k5")).is_none());
    let values = storage.multi_get(&vec![b("k1"), b("k2"), b("k3"), b("k4"), b("k5"), b("k1"), b("k2")]);
    assert_eq!(values.len(), 5);
    let all_values = storage.get_iter();
    assert_eq!(all_values.len(), 3);
}

#[test]
fn storage_cf_tests() {
    let mut storage = Storage::open(None, true).unwrap();

    assert!(storage.get_column_family("default").is_some());
    assert!(storage.set_column_family("cf1").is_ok());
    assert!(storage.set_column_family("cf2").is_ok());

    assert!(storage.get_column_family("default").is_some());
    let cf1 = storage.get_column_family("cf1").unwrap();
    let cf2 = storage.get_column_family("cf2").unwrap();

    let mut tx = storage.create_transaction().unwrap();

    assert!(tx.is_empty_cf(&cf1).unwrap() && tx.is_empty_cf(&cf2).unwrap());

    tx.update_cf(
        &cf1,
        &vec![(b("k11"), b("v11")), (b("k12"), b("v12")), (b("k14"), b("v14")), (b("k15"), b("v15"))],
        &vec![],
    )
    .unwrap();

    assert!(!tx.is_empty_cf(&cf1).unwrap() && tx.is_empty_cf(&cf2).unwrap());

    tx.update_cf(
        &cf2,
        &vec![(b("k21"), b("v21")), (b("k22"), b("v22")), (b("k24"), b("v24")), (b("k25"), b("v25"))],
        &vec![],
    )
    .unwrap();

    assert!(!tx.is_empty_cf(&cf1).unwrap() && !tx.is_empty_cf(&cf2).unwrap());

    assert!(storage.is_empty_cf(&cf1).unwrap() && storage.is_empty_cf(&cf2).unwrap());
    tx.commit(&mut storage).unwrap();
    assert!(!storage.is_empty_cf(&cf1).unwrap() && !storage.is_empty_cf(&cf2).unwrap());

    drop(tx);

    let mut tx2 = storage.create_transaction().unwrap();

    assert_eq!(tx2.get_cf(&cf1, &b("k14")).unwrap(), b("v14"));
    assert_eq!(tx2.get_cf(&cf1, &b("k15")).unwrap(), b("v15"));
    assert_eq!(tx2.get_cf(&cf2, &b("k24")).unwrap(), b("v24"));
    assert_eq!(tx2.get_cf(&cf2, &b("k25")).unwrap(), b("v25"));

    tx2.update_cf(&cf1, &vec![(b("k13"), b("v13"))], &vec![b("k14"), b("k15")]).unwrap();
    tx2.update_cf(&cf2, &vec![(b("k23"), b("v23"))], &vec![b("k24"), b("k25")]).unwrap();

    assert_eq!(tx2.get_cf(&cf1, &b("k11")).unwrap(), b("v11"));
    assert_eq!(tx2.get_cf(&cf1, &b("k12")).unwrap(), b("v12"));
    assert_eq!(tx2.get_cf(&cf1, &b("k13")).unwrap(), b("v13"));
    assert!(tx2.get_cf(&cf1, &b("k14")).is_none());
    assert!(tx2.get_cf(&cf1, &b("k15")).is_none());

    assert_eq!(tx2.get_cf(&cf2, &b("k21")).unwrap(), b("v21"));
    assert_eq!(tx2.get_cf(&cf2, &b("k22")).unwrap(), b("v22"));
    assert_eq!(tx2.get_cf(&cf2, &b("k23")).unwrap(), b("v23"));
    assert!(tx2.get_cf(&cf2, &b("k24")).is_none());
    assert!(tx2.get_cf(&cf2, &b("k25")).is_none());

    assert!(tx2.multi_get_cf(&cf1, &vec![]).is_empty());
    assert!(tx2.multi_get_cf(&cf2, &vec![]).is_empty());

    let values_cf1 = tx2.multi_get_cf(
        &cf1,
        &vec![b("k11"), b("k12"), b("k13"), b("k14"), b("k15"), b("k11"), b("k12")],
    );
    assert_eq!(values_cf1.len(), 5);
    assert_eq!(lookup(&values_cf1, "k11").unwrap(), b("v11"));
    assert_eq!(lookup(&values_cf1, "k12").unwrap(), b("v12"));
    assert_eq!(lookup(&values_cf1, "k13").unwrap(), b("v13"));
    assert!(lookup(&values_cf1, "k14").is_none());
    assert!(lookup(&values_cf1, "k15").is_none());

    let values_cf2 = tx2.multi_get_cf(
        &cf2,
        &vec![b("k21"), b("k22"), b("k23"), b("k24"), b("k25"), b("k21"), b("k22")],
    );
    assert_eq!(values_cf2.len(), 5);
    assert_eq!(lookup(&values_cf2, "k21").unwrap(), b("v21"));
    assert_eq!(lookup(&values_cf2, "k22").unwrap(), b("v22"));
    assert_eq!(lookup(&values_cf2, "k23").unwrap(), b("v23"));
    assert!(lookup(&values_cf2, "k24").is_none());
    assert!(lookup(&values_cf2, "k25").is_none());

    let all_cf1 = tx2.get_iter_cf(&cf1).unwrap();
    assert_eq!(all_cf1.len(), 3);
    let all_cf2 = tx2.get_iter_cf(&cf2).unwrap();
    assert_eq!(all_cf2.len(), 3);

    tx2.commit(&mut storage).unwrap();
    assert_eq!(storage.get_cf(&cf1, &b("k13")).unwrap(), b("v13"));
    assert_eq!(storage.get_cf(&cf2, &b("k23")).unwrap(), b("v23"));
    assert!(storage.get_cf(&cf1, &b("k14")).is_none());
    assert!(storage.get_cf(&cf2, &b("k24")).is_none());
}

#[test]
fn storage_transaction_basic_tests() {
    let mut storage = Storage::open(None, true).unwrap();

    assert!(storage.set_column_family("cf1").is_ok());
    assert!(storage.set_column_family("cf2").is_ok());

    let cf1 = storage.get_column_family("cf1").unwrap();
    let cf2 = storage.get_column_family("cf2").unwrap();

    let mut tx = storage.create_transaction().unwrap();

    assert!(tx.is_empty_cf(&cf1).unwrap() && tx.is_empty_cf(&cf2).unwrap());

    // there are no savepoints, so there is nowhere to roll back to
    assert!(tx.rollback_to_savepoint().is_err());

    // a transaction can be rolled back to the initial state while in it
    assert!(tx.rollback().is_ok());

    // first update
    tx.update_cf(&cf1, &vec![(b("k11"), b("v11"))], &vec![]).unwrap();
    tx.save().unwrap();
    // second update
    tx.update_cf(&cf2, &vec![(b("k21"), b("v21"))], &vec![]).unwrap();
    tx.save().unwrap();
    // third update
    tx.update_cf(&cf1, &vec![(b("k12"), b("v12"))], &vec![]).unwrap();
    tx.update_cf(&cf2, &vec![(b("k22"), b("v22"))], &vec![]).unwrap();
    tx.save().unwrap();
    // fourth update, without a savepoint
    tx.update_cf(&cf2, &vec![(b("k23"), b("v23"))], &vec![]).unwrap();

    // state after all updates
    assert_eq!(tx.get_cf(&cf1, &b("k11")).unwrap(), b("v11"));
    assert_eq!(tx.get_cf(&cf1, &b("k12")).unwrap(), b("v12"));
    assert_eq!(tx.get_cf(&cf2, &b("k21")).unwrap(), b("v21"));
    assert_eq!(tx.get_cf(&cf2, &b("k22")).unwrap(), b("v22"));
    assert_eq!(tx.get_cf(&cf2, &b("k23")).unwrap(), b("v23"));

    // discarding the fourth update
    tx.rollback_to_savepoint().unwrap();
    assert_eq!(tx.get_cf(&cf1, &b("k11")).unwrap(), b("v11"));
    assert_eq!(tx.get_cf(&cf1, &b("k12")).unwrap(), b("v12"));
    assert_eq!(tx.get_cf(&cf2, &b("k21")).unwrap(), b("v21"));
    assert_eq!(tx.get_cf(&cf2, &b("k22")).unwrap(), b("v22"));
    assert!(tx.get_cf(&cf2, &b("k23")).is_none());

    // discarding the third update
    tx.rollback_to_savepoint().unwrap();
    assert_eq!(tx.get_cf(&cf1, &b("k11")).unwrap(), b("v11"));
    assert_eq!(tx.get_cf(&cf2, &b("k21")).unwrap(), b("v21"));
    assert!(tx.get_cf(&cf1, &b("k12")).is_none());
    assert!(tx.get_cf(&cf2, &b("k22")).is_none());
    assert!(tx.get_cf(&cf2, &b("k23")).is_none());

    // discarding everything since the transaction began
    tx.rollback().unwrap();

    // the transaction began on an empty storage, so it is empty again
    assert!(tx.is_empty_cf(&cf1).unwrap() && tx.is_empty_cf(&cf2).unwrap());

    // there are no savepoints after a full rollback
    assert!(tx.rollback_to_savepoint().is_err());

    // updating from the initial state and committing
    tx.update_cf(&cf1, &vec![(b("k11"), b("v11"))], &vec![]).unwrap();
    tx.save().unwrap();

    tx.commit(&mut storage).unwrap();

    // there are no savepoints after a transaction is committed
    assert!(tx.rollback_to_savepoint().is_err());
    // a transaction cannot be rolled back after it was committed
    assert!(tx.rollback().is_err());
}

#[test]
fn update_order_within_one_call() {
    // within one update call the puts apply in order, then the deletes: a
    // key put twice keeps the later value, and a key in both lists ends up
    // deleted
    let mut storage = Storage::open(None, true).unwrap();
    let mut tx = storage.create_transaction().unwrap();
    tx.update(
        &vec![(b("k"), b("first")), (b("k"), b("second")), (b("gone"), b("x"))],
        &vec![b("gone")],
    )
    .unwrap();
    assert_eq!(tx.get(&b("k")).unwrap(), b("second"));
    assert!(tx.get(&b("gone")).is_none());
}

#[test]
fn storage_open_over_existing_state() {
    // a database built by hand opens as-is, and the open refuses nothing
    let mut db = KvStore::new();
    let cf = db.get_column_family("default").unwrap();
    db.put_cf(&cf, b("k"), b("v")).unwrap();
    let storage = Storage::open(Some(db), false).unwrap();
    assert_eq!(storage.get(&b("k")).unwrap(), b("v"));
    assert!(!storage.is_empty());
}
