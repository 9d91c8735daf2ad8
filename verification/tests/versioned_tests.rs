//! Versioned storage: commits creating versions, retention trimming,
//! rollback to a version, snapshot transactions, id validation.

use storage_versioned::storage_versioned::{RawVersionDir, StorageVersioned};
use storage_versioned::store::KvStore;
use storage_versioned::StorageError;

const VERSIONS_STORED: u64 = 10;

fn b(s: &str) -> Vec<u8> {
    s.as_bytes().to_vec()
}

fn fresh(versions_stored: u64) -> StorageVersioned {
    StorageVersioned::open(None, &vec![], true, versions_stored).unwrap()
}

fn gen_versions_ids(versions_num: usize) -> Vec<Vec<u8>> {
    (0..versions_num).map(|i| format!("version{:02}", i).into_bytes()).collect()
}

#[test]
fn storage_versioned_is_contiguous_set_tests() {
    assert!(StorageVersioned::is_contiguous_set(&vec![]));
    assert!(StorageVersioned::is_contiguous_set(&vec![0]));
    assert!(StorageVersioned::is_contiguous_set(&vec![1]));
    assert!(StorageVersioned::is_contiguous_set(&vec![0, 1]));
    assert!(StorageVersioned::is_contiguous_set(&vec![5, 6, 7]));
    assert!(StorageVersioned::is_contiguous_set(&vec![0, 1, 2, 3, 4, 5]));
    assert!(StorageVersioned::is_contiguous_set(&vec![5, 4, 3, 2, 1, 0]));
    assert!(StorageVersioned::is_contiguous_set(&vec![4, 2, 1, 0, 5, 3]));

    assert!(!StorageVersioned::is_contiguous_set(&vec![0, 0]));
    assert!(!StorageVersioned::is_contiguous_set(&vec![1, 1]));
    assert!(!StorageVersioned::is_contiguous_set(&vec![0, 1, 2, 0]));
    assert!(!StorageVersioned::is_contiguous_set(&vec![5, 4, 3, 2, 0]));
    assert!(!StorageVersioned::is_contiguous_set(&vec![0, 2, 3, 4, 5]));
    assert!(!StorageVersioned::is_contiguous_set(&vec![0, 1, 2, 3, 5]));
    assert!(!StorageVersioned::is_contiguous_set(&vec![4, 2, 0, 5, 3]));
}

#[test]
fn storage_versioned_versions_trimming_tests() {
    let mut storage = fresh(VERSIONS_STORED);

    let versions_ids = gen_versions_ids((VERSIONS_STORED * 2) as usize);

    // creating versions: one commit per id
    for version_id in &versions_ids {
        let mut tx = storage.create_transaction(None).unwrap();
        assert!(tx.commit(&mut storage, version_id).is_ok());
    }

    let min_index_of_existing_version = versions_ids.len() - VERSIONS_STORED as usize;

    // the oldest half is gone, the newest half can be opened
    for (i, version_id) in versions_ids.iter().enumerate() {
        if i < min_index_of_existing_version {
            assert!(storage.create_transaction(Some(version_id)).is_err());
        } else {
            assert!(storage.create_transaction(Some(version_id)).is_ok());
        }
    }

    // the retained ids, in creation order
    let retained = storage.rollback_versions().unwrap();
    assert_eq!(retained, versions_ids[min_index_of_existing_version..].to_vec());
}

#[test]
fn storage_versioned_rollback_tests() {
    let mut storage = fresh(VERSIONS_STORED);
    assert!(storage.last_version().unwrap().is_none());

    let versions_ids = gen_versions_ids((VERSIONS_STORED * 2) as usize);
    let mut versions_content: Vec<(Vec<u8>, Vec<u8>)> = Vec::new();

    for (i, version_id) in versions_ids.iter().enumerate() {
        // each version adds one (number, id) pair
        let mut tx = storage.create_transaction(None).unwrap();
        versions_content.push(((i as u64).to_be_bytes().to_vec(), version_id.clone()));
        let kv = versions_content.last().unwrap().clone();
        assert!(tx.update(&vec![kv], &vec![]).is_ok());
        assert!(tx.commit(&mut storage, version_id).is_ok());

        if i < VERSIONS_STORED as usize {
            assert_eq!(storage.rollback_versions().unwrap(), versions_ids[0..=i].to_vec());
        } else {
            assert_eq!(
                storage.rollback_versions().unwrap(),
                versions_ids[(i - VERSIONS_STORED as usize + 1)..=i].to_vec()
            );
        }
        assert_eq!(storage.last_version().unwrap().unwrap(), version_id.clone());
    }

    let min_index_of_existing_version = versions_ids.len() - VERSIONS_STORED as usize;

    // rollback to a version that has been trimmed away
    assert!(storage.rollback(&versions_ids[min_index_of_existing_version - 1]).is_err());
    // rollback to the latest version keeps the version set as it is
    assert!(storage.rollback(&versions_ids[versions_ids.len() - 1]).is_ok());

    // rollbacks to earlier versions, newest to oldest
    for i in 1..VERSIONS_STORED as usize {
        assert!(storage.rollback(&versions_ids[versions_ids.len() - 1 - i]).is_ok());

        // the key set is exactly the content up to the restored version
        let mut all = storage.get_iter();
        all.sort();
        assert_eq!(all, versions_content[..=versions_content.len() - 1 - i].to_vec());

        // every version after the restored one is gone
        let retained = storage.rollback_versions().unwrap();
        assert_eq!(
            retained,
            versions_ids[min_index_of_existing_version..versions_ids.len() - i].to_vec()
        );
    }

    // updating the storage after it has been rolled back
    let last_kv = ((versions_ids.len() as u64).to_be_bytes().to_vec(), b("value"));
    {
        let mut tx = storage.create_transaction(None).unwrap();
        assert!(tx.update(&vec![last_kv.clone()], &vec![]).is_ok());
        assert!(tx.commit(&mut storage, &b("last")).is_ok());
    }
    assert_eq!(storage.last_version().unwrap().unwrap(), b("last"));
    assert_eq!(storage.get(&last_kv.0).unwrap(), last_kv.1);

    let mut all = storage.get_iter();
    all.sort();
    let mut expected =
        versions_content[..=versions_content.len() - 1 - (VERSIONS_STORED as usize - 1)].to_vec();
    expected.push(last_kv);
    assert_eq!(all, expected);
}

#[test]
fn storage_versioned_versioning_tests() {
    let mut storage = fresh(VERSIONS_STORED);

    let versions_ids = gen_versions_ids(VERSIONS_STORED as usize);

    for version_id in &versions_ids {
        // a transaction for a version that does not yet exist is refused
        assert!(storage.create_transaction(Some(version_id)).is_err());

        // committing a (version_id, version_id) pair creates the version
        let mut tx = storage.create_transaction(None).unwrap();
        assert!(tx.update(&vec![(version_id.clone(), version_id.clone())], &vec![]).is_ok());
        assert!(tx.commit(&mut storage, version_id).is_ok());

        // a second commit under the same id is refused
        let mut tx2 = storage.create_transaction(None).unwrap();
        assert_eq!(
            tx2.commit(&mut storage, version_id).unwrap_err(),
            StorageError::AlreadyExists
        );
    }

    // opening the created versions
    for version_id in &versions_ids {
        let mut tx = storage.create_transaction(Some(version_id)).unwrap();

        // the default column family is reachable through the snapshot itself
        let default_cf = tx.get_column_family("default").unwrap().unwrap();
        assert_eq!(tx.get_cf(&default_cf, version_id).unwrap(), version_id.clone());

        // a snapshot transaction can be updated...
        assert!(
            tx.update_cf(&default_cf, &vec![(b("key"), b("val"))], &vec![version_id.clone()])
                .is_ok()
        );

        // ...but never committed
        assert_eq!(
            tx.commit(&mut storage, &b("some_version_id")).unwrap_err(),
            StorageError::FailedPrecondition
        );

        // dropping the transaction discards its writes; a fresh one sees
        // the version as it was
        drop(tx);
        let tx2 = storage.create_transaction(Some(version_id)).unwrap();
        assert_eq!(tx2.get(version_id).unwrap(), version_id.clone());
        assert!(tx2.get(&b("key")).is_none());
    }
}

#[test]
fn storage_versioned_tests() {
    // opening without a database and without permission to create
    assert!(StorageVersioned::open(None, &vec![], false, VERSIONS_STORED).is_err());

    let mut storage = fresh(VERSIONS_STORED);
    let mut tx = storage.create_transaction(None).unwrap();
    assert!(tx.is_empty());

    tx.update(
        &vec![(b("k1"), b("v1")), (b("k2"), b("v2")), (b("k4"), b("v4")), (b("k5"), b("v5"))],
        &vec![],
    )
    .unwrap();

    assert!(!tx.is_empty());

    assert!(storage.is_empty());
    tx.commit(&mut storage, &b("version_id1")).unwrap();
    assert!(!storage.is_empty());

    drop(tx);

    let mut tx2 = storage.create_transaction(None).unwrap();

    assert_eq!(tx2.get(&b("k4")).unwrap(), b("v4"));
    assert_eq!(tx2.get(&b("k5")).unwrap(), b("v5"));

    tx2.update(&vec![(b("k3"), b("v3"))], &vec![b("k4"), b("k5")]).unwrap();

    assert_eq!(tx2.get(&b("k1")).unwrap(), b("v1"));
    assert_eq!(tx2.get(&b("k2")).unwrap(), b("v2"));
    assert_eq!(tx2.get(&b("k3")).unwrap(), b("v3"));
    assert!(tx2.get(&b("k4")).is_none());
    assert!(tx2.get(&b("k5")).is_none());

    assert!(tx2.multi_get(&vec![]).is_empty());
    let values = tx2.multi_get(&vec![b("k1"), b("k2"), b("k3"), b("k4"), b("k5"), b("k1"), b("k2")]);
    assert_eq!(values.len(), 5);

    let all_values = tx2.get_iter();
    assert_eq!(all_values.len(), 3);

    tx2.commit(&mut storage, &b("version_id2")).unwrap();

    assert_eq!(storage.get(&b("k3")).unwrap(), b("v3"));
    assert!(storage.get(&b("k4")).is_none());
    let all_values = storage.get_iter();
    assert_eq!(all_values.len(), 3);
}

#[test]
fn storage_versioned_cf_tests() {
    let mut storage = fresh(VERSIONS_STORED);

    assert!(storage.get_column_family("default").is_some());
    assert!(storage.set_column_family("cf1").is_ok());
    assert!(storage.set_column_family("cf2").is_ok());

    let cf1 = storage.get_column_family("cf1").unwrap();
    let cf2 = storage.get_column_family("cf2").unwrap();

    let mut tx = storage.create_transaction(None).unwrap();

    assert!(tx.is_empty_cf(&cf1).unwrap() && tx.is_empty_cf(&cf2).unwrap());

    tx.update_cf(
        &cf1,
        &vec![(b("k11"), b("v11")), (b("k12"), b("v12")), (b("k14"), b("v14")), (b("k15"), b("v15"))],
        &vec![],
    )
    .unwrap();

    assert!(!tx.is_empty_cf(&cf1).unwrap() && tx.is_empty_cf(&cf2).unwrap());

    tx.update_cf(
        &cf2,
        &vec![(b("k21"), b("v21")), (b("k22"), b("v22")), (b("k24"), b("v24")), (b("k25"), b("v25"))],
        &vec![],
    )
    .unwrap();

    assert!(!tx.is_empty_cf(&cf1).unwrap() && !tx.is_empty_cf(&cf2).unwrap());

    assert!(storage.is_empty_cf(&cf1).unwrap() && storage.is_empty_cf(&cf2).unwrap());
    tx.commit(&mut storage, &b("version_id1")).unwrap();
    assert!(!storage.is_empty_cf(&cf1).unwrap() && !storage.is_empty_cf(&cf2).unwrap());

    drop(tx);

    let mut tx2 = storage.create_transaction(None).unwrap();

    assert_eq!(tx2.get_cf(&cf1, &b("k14")).unwrap(), b("v14"));
    assert_eq!(tx2.get_cf(&cf1, &b("k15")).unwrap(), b("v15"));
    assert_eq!(tx2.get_cf(&cf2, &b("k24")).unwrap(), b("v24"));
    assert_eq!(tx2.get_cf(&cf2, &b("k25")).unwrap(), b("v25"));

    tx2.update_cf(&cf1, &vec![(b("k13"), b("v13"))], &vec![b("k14"), b("k15")]).unwrap();
    tx2.update_cf(&cf2, &vec![(b("k23"), b("v23"))], &vec![b("k24"), b("k25")]).unwrap();

    assert_eq!(tx2.get_cf(&cf1, &b("k11")).unwrap(), b("v11"));
    assert_eq!(tx2.get_cf(&cf1, &b("k12")).unwrap(), b("v12"));
    assert_eq!(tx2.get_cf(&cf1, &b("k13")).unwrap(), b("v13"));
    assert!(tx2.get_cf(&cf1, &b("k14")).is_none());
    assert!(tx2.get_cf(&cf1, &b("k15")).is_none());

    assert_eq!(tx2.get_cf(&cf2, &b("k21")).unwrap(), b("v21"));
    assert_eq!(tx2.get_cf(&cf2, &b("k22")).unwrap(), b("v22"));
    assert_eq!(tx2.get_cf(&cf2, &b("k23")).unwrap(), b("v23"));
    assert!(tx2.get_cf(&cf2, &b("k24")).is_none());
    assert!(tx2.get_cf(&cf2, &b("k25")).is_none());

    let values_cf1 = tx2.multi_get_cf(
        &cf1,
        &vec![b("k11"), b("k12"), b("k13"), b("k14"), b("k15"), b("k11"), b("k12")],
    );
    assert_eq!(values_cf1.len(), 5);
    let values_cf2 = tx2.multi_get_cf(
        &cf2,
        &vec![b("k21"), b("k22"), b("k23"), b("k24"), b("k25"), b("k21"), b("k22")],
    );
    assert_eq!(values_cf2.len(), 5);

    let all_cf1 = tx2.get_iter_cf(&cf1).unwrap();
    assert_eq!(all_cf1.len(), 3);
    let all_cf2 = tx2.get_iter_cf(&cf2).unwrap();
    assert_eq!(all_cf2.len(), 3);

    tx2.commit(&mut storage, &b("version_id2")).unwrap();
    assert_eq!(storage.get_cf(&cf1, &b("k13")).unwrap(), b("v13"));
    assert_eq!(storage.get_cf(&cf2, &b("k23")).unwrap(), b("v23"));
}

#[test]
fn duplicate_commit_keeps_first_state() {
    // two successive commits under the same id: the second fails with
    // AlreadyExists, and the state of the first commit persists
    let mut storage = fresh(VERSIONS_STORED);

    let mut tx = storage.create_transaction(None).unwrap();
    tx.update(&vec![(b("k"), b("first"))], &vec![]).unwrap();
    tx.commit(&mut storage, &b("A")).unwrap();

    let mut tx2 = storage.create_transaction(None).unwrap();
    tx2.update(&vec![(b("k"), b("second"))], &vec![]).unwrap();
    assert_eq!(tx2.commit(&mut storage, &b("A")).unwrap_err(), StorageError::AlreadyExists);

    assert_eq!(storage.get(&b("k")).unwrap(), b("first"));
    assert_eq!(storage.rollback_versions().unwrap(), vec![b("A")]);
}

#[test]
fn snapshot_is_immutable() {
    // commit A with (k, vA), then B with (k, vB); the snapshot of A keeps
    // reading vA whatever happens around it
    let mut storage = fresh(VERSIONS_STORED);

    let mut tx = storage.create_transaction(None).unwrap();
    tx.update(&vec![(b("k"), b("vA"))], &vec![]).unwrap();
    tx.commit(&mut storage, &b("A")).unwrap();

    let mut tx = storage.create_transaction(None).unwrap();
    tx.update(&vec![(b("k"), b("vB"))], &vec![]).unwrap();
    tx.commit(&mut storage, &b("B")).unwrap();

    let mut snap = storage.create_transaction(Some(&b("A"))).unwrap();
    assert_eq!(snap.get(&b("k")).unwrap(), b("vA"));
    snap.update(&vec![(b("k"), b("mutated"))], &vec![]).unwrap();
    assert_eq!(
        snap.commit(&mut storage, &b("C")).unwrap_err(),
        StorageError::FailedPrecondition
    );
    drop(snap);

    let snap2 = storage.create_transaction(Some(&b("A"))).unwrap();
    assert_eq!(snap2.get(&b("k")).unwrap(), b("vA"));
    assert_eq!(storage.get(&b("k")).unwrap(), b("vB"));
}

#[test]
fn commit_id_validation() {
    let mut storage = fresh(VERSIONS_STORED);

    // an empty id and a delimiter-bearing id are both invalid
    let mut tx = storage.create_transaction(None).unwrap();
    assert_eq!(tx.commit(&mut storage, &b("")).unwrap_err(), StorageError::InvalidArgument);
    assert_eq!(tx.commit(&mut storage, &b("a__b")).unwrap_err(), StorageError::InvalidArgument);
    // the failed attempts changed nothing, a valid id still commits
    assert!(tx.commit(&mut storage, &b("a_b")).is_ok());
    // and a second commit of the same transaction is refused
    assert_eq!(tx.commit(&mut storage, &b("other")).unwrap_err(), StorageError::FailedPrecondition);
}

#[test]
fn zero_retention_commits_no_version() {
    // with a retention bound of zero the storage works as plain storage
    let mut storage = fresh(0);
    let mut tx = storage.create_transaction(None).unwrap();
    tx.update(&vec![(b("k"), b("v"))], &vec![]).unwrap();
    assert!(tx.commit(&mut storage, &b("ignored")).is_ok());
    assert_eq!(storage.get(&b("k")).unwrap(), b("v"));
    assert!(storage.rollback_versions().unwrap().is_empty());
    assert!(storage.last_version().unwrap().is_none());
}

#[test]
fn open_validates_version_directory() {
    let dir = |name: &str| RawVersionDir { name: b(name), data: KvStore::new() };

    // a contiguous run opens, starting anywhere
    assert!(StorageVersioned::open(None, &vec![dir("3__a"), dir("2__b")], true, 5).is_ok());
    // an unparseable name is corruption
    assert_eq!(
        StorageVersioned::open(None, &vec![dir("nodelim")], true, 5).unwrap_err(),
        StorageError::Corruption
    );
    assert_eq!(
        StorageVersioned::open(None, &vec![dir("x__a")], true, 5).unwrap_err(),
        StorageError::Corruption
    );
    // a gap among the numbers is corruption
    assert_eq!(
        StorageVersioned::open(None, &vec![dir("0__a"), dir("2__b")], true, 5).unwrap_err(),
        StorageError::Corruption
    );
    // a duplicated number is corruption
    assert_eq!(
        StorageVersioned::open(None, &vec![dir("0__a"), dir("0__b")], true, 5).unwrap_err(),
        StorageError::Corruption
    );
    // a duplicated id is corruption
    assert_eq!(
        StorageVersioned::open(None, &vec![dir("0__a"), dir("1__a")], true, 5).unwrap_err(),
        StorageError::Corruption
    );
    // opening trims the oldest versions beyond the retention bound
    let storage = StorageVersioned::open(
        None,
        &vec![dir("0__a"), dir("1__c"), dir("2__b")],
        true,
        2,
    )
    .unwrap();
    assert_eq!(storage.rollback_versions().unwrap(), vec![b("c"), b("b")]);
    assert_eq!(storage.last_version().unwrap().unwrap(), b("b"));
}

#[test]
fn reopen_accepts_what_the_storage_wrote() {
    // rebuild the on-disk image a storage would leave behind — the live
    // state plus one directory per retained version, named as the library
    // names them — and open it again: every check passes
    let mut storage = fresh(3);
    for (i, id) in [b("a"), b("b"), b("c"), b("d")].iter().enumerate() {
        let mut tx = storage.create_transaction(None).unwrap();
        tx.update(&vec![(vec![i as u8], id.clone())], &vec![]).unwrap();
        tx.commit(&mut storage, id).unwrap();
    }

    let rebuild = |pairs: Vec<(Vec<u8>, Vec<u8>)>| {
        let mut db = KvStore::new();
        let cf = db.get_column_family("default").unwrap();
        for (k, v) in pairs {
            db.put_cf(&cf, k, v).unwrap();
        }
        db
    };

    let names = storage.version_dir_names();
    let ids = storage.rollback_versions().unwrap();
    assert_eq!(names.len(), ids.len());
    let mut dirs = Vec::new();
    for (name, id) in names.iter().zip(ids.iter()) {
        let snap = storage.create_transaction(Some(id)).unwrap();
        dirs.push(RawVersionDir { name: name.clone(), data: rebuild(snap.get_iter()) });
    }
    let current = rebuild(storage.get_iter());

    let reopened = StorageVersioned::open(Some(current), &dirs, false, 3).unwrap();
    assert_eq!(reopened.rollback_versions().unwrap(), ids);
    assert_eq!(reopened.last_version().unwrap().unwrap(), b("d"));
    assert_eq!(reopened.get(&vec![3u8]).unwrap(), b("d"));
}

#[test]
fn rollback_restores_version_state() {
    // rolling back replaces the live state with the version's snapshot and
    // drops every later version
    let mut storage = fresh(VERSIONS_STORED);

    let mut tx = storage.create_transaction(None).unwrap();
    tx.update(&vec![(b("k"), b("one"))], &vec![]).unwrap();
    tx.commit(&mut storage, &b("first")).unwrap();

    let mut tx = storage.create_transaction(None).unwrap();
    tx.update(&vec![(b("k"), b("two")), (b("extra"), b("x"))], &vec![]).unwrap();
    tx.commit(&mut storage, &b("second")).unwrap();

    assert_eq!(storage.rollback(&b("missing")).unwrap_err(), StorageError::NotFound);

    storage.rollback(&b("first")).unwrap();
    assert_eq!(storage.get(&b("k")).unwrap(), b("one"));
    assert!(storage.get(&b("extra")).is_none());
    assert_eq!(storage.rollback_versions().unwrap(), vec![b("first")]);
    assert_eq!(storage.last_version().unwrap().unwrap(), b("first"));
}
