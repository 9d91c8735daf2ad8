//! Version directory names, iterator modes, marshaling and handles.

use storage_versioned::handles::HandleStore;
use storage_versioned::iterator::{
    parse_iterator_mode, parse_starting_key, Direction, IterMode, ITER_DIRECTION_FORWARD,
    ITER_DIRECTION_REVERSE, ITER_MODE_END, ITER_MODE_FROM, ITER_MODE_START,
};
use storage_versioned::marshal::{create_jentry, map_to_java_list_of_values};
use storage_versioned::storage::Storage;
use storage_versioned::versions::{
    compose_version_dir_name, is_contiguous_set, next_version_number, parse_version_dir_name,
    valid_version_id,
};
use storage_versioned::StorageError;

fn b(s: &str) -> Vec<u8> {
    s.as_bytes().to_vec()
}

#[test]
fn version_name_parsing() {
    assert_eq!(parse_version_dir_name(&b("0__id")).unwrap(), (0, b("id")));
    assert_eq!(parse_version_dir_name(&b("17__abc")).unwrap(), (17, b("abc")));
    // the split happens at the first double-delimiter
    assert_eq!(parse_version_dir_name(&b("2__a__b")).unwrap(), (2, b("a__b")));
    assert_eq!(parse_version_dir_name(&b("3___x")).unwrap(), (3, b("_x")));
    // leading zeros are a plain decimal number
    assert_eq!(parse_version_dir_name(&b("007__bond")).unwrap(), (7, b("bond")));
    // the largest number that fits
    assert_eq!(
        parse_version_dir_name(&b("18446744073709551615__top")).unwrap(),
        (u64::MAX, b("top"))
    );

    // no delimiter, no number, an overflowing number: all rejected
    assert!(parse_version_dir_name(&b("")).is_none());
    assert!(parse_version_dir_name(&b("17")).is_none());
    assert!(parse_version_dir_name(&b("__id")).is_none());
    assert!(parse_version_dir_name(&b("x__id")).is_none());
    assert!(parse_version_dir_name(&b("1x__id")).is_none());
    assert!(parse_version_dir_name(&b("18446744073709551616__id")).is_none());
}

#[test]
fn version_name_round_trip() {
    for (n, id) in [(0u64, "a"), (12, "version_id1"), (u64::MAX, "z__z"), (5, "")] {
        let name = compose_version_dir_name(n, &b(id));
        assert_eq!(parse_version_dir_name(&name).unwrap(), (n, b(id)));
    }
    assert_eq!(compose_version_dir_name(42, &b("id")), b("42__id"));
    assert_eq!(compose_version_dir_name(0, &b("x")), b("0__x"));
}

#[test]
fn version_id_validity() {
    assert!(valid_version_id(&b("a")));
    assert!(valid_version_id(&b("a_b")));
    assert!(valid_version_id(&b("version_id1")));
    assert!(!valid_version_id(&b("")));
    assert!(!valid_version_id(&b("a__b")));
    assert!(!valid_version_id(&b("__")));
}

#[test]
fn contiguity_of_free_function() {
    assert!(is_contiguous_set(&vec![]));
    assert!(is_contiguous_set(&vec![7]));
    assert!(is_contiguous_set(&vec![9, 8, 10]));
    assert!(!is_contiguous_set(&vec![1, 3]));
    assert!(!is_contiguous_set(&vec![u64::MAX, u64::MAX]));
}

#[test]
fn next_number_computation() {
    // no versions: numbering starts at zero
    assert_eq!(next_version_number(&vec![]).unwrap(), 0);
    // otherwise one past the largest, in any order
    assert_eq!(next_version_number(&vec![0]).unwrap(), 1);
    assert_eq!(next_version_number(&vec![4, 2, 7, 5]).unwrap(), 8);
    // a counter at the top of the range cannot be advanced
    assert_eq!(
        next_version_number(&vec![1, u64::MAX]).unwrap_err(),
        StorageError::Corruption
    );
}

#[test]
fn iterator_mode_codes() {
    // an absent starting key stands for the empty key except in From mode
    assert_eq!(parse_starting_key(ITER_MODE_START, None).unwrap(), Vec::<u8>::new());
    assert_eq!(parse_starting_key(ITER_MODE_END, None).unwrap(), Vec::<u8>::new());
    assert_eq!(
        parse_starting_key(ITER_MODE_FROM, None).unwrap_err(),
        StorageError::InvalidArgument
    );
    assert_eq!(parse_starting_key(ITER_MODE_FROM, Some(&b("k"))).unwrap(), b("k"));

    assert!(matches!(
        parse_iterator_mode(ITER_MODE_START, &b(""), ITER_DIRECTION_FORWARD).unwrap(),
        IterMode::Start
    ));
    assert!(matches!(
        parse_iterator_mode(ITER_MODE_END, &b(""), ITER_DIRECTION_FORWARD).unwrap(),
        IterMode::End
    ));
    match parse_iterator_mode(ITER_MODE_FROM, &b("k"), ITER_DIRECTION_FORWARD).unwrap() {
        IterMode::From(k, d) => {
            assert_eq!(k, b("k"));
            assert_eq!(d, Direction::Forward);
        }
        _ => panic!("expected a From mode"),
    }
    match parse_iterator_mode(ITER_MODE_FROM, &b("k"), ITER_DIRECTION_REVERSE).unwrap() {
        IterMode::From(k, d) => {
            assert_eq!(k, b("k"));
            assert_eq!(d, Direction::Reverse);
        }
        _ => panic!("expected a From mode"),
    }
    // unknown mode and direction codes are rejected
    assert_eq!(
        parse_iterator_mode(3, &b(""), ITER_DIRECTION_FORWARD).unwrap_err(),
        StorageError::InvalidArgument
    );
    assert_eq!(
        parse_iterator_mode(ITER_MODE_FROM, &b("k"), 2).unwrap_err(),
        StorageError::InvalidArgument
    );
}

#[test]
fn iteration_modes_on_data() {
    let mut storage = Storage::open(None, true).unwrap();
    let mut tx = storage.create_transaction().unwrap();
    tx.update(
        &vec![(b("b"), b("2")), (b("d"), b("4")), (b("a"), b("1")), (b("c"), b("3"))],
        &vec![],
    )
    .unwrap();
    tx.commit(&mut storage).unwrap();

    let cf = storage.get_column_family("default").unwrap();

    // ascending from the start
    let fwd = storage.get_iter();
    assert_eq!(fwd, vec![(b("a"), b("1")), (b("b"), b("2")), (b("c"), b("3")), (b("d"), b("4"))]);

    // descending from the end
    let rev = storage.get_iter_cf_mode(&cf, &IterMode::End).unwrap();
    assert_eq!(rev, vec![(b("d"), b("4")), (b("c"), b("3")), (b("b"), b("2")), (b("a"), b("1"))]);

    // ascending from a key, inclusive
    let from_b = storage
        .get_iter_cf_mode(&cf, &IterMode::From(b("b"), Direction::Forward))
        .unwrap();
    assert_eq!(from_b, vec![(b("b"), b("2")), (b("c"), b("3")), (b("d"), b("4"))]);

    // ascending from between two keys
    let from_bb = storage
        .get_iter_cf_mode(&cf, &IterMode::From(b("bb"), Direction::Forward))
        .unwrap();
    assert_eq!(from_bb, vec![(b("c"), b("3")), (b("d"), b("4"))]);

    // descending from a key, inclusive
    let down_c = storage
        .get_iter_cf_mode(&cf, &IterMode::From(b("c"), Direction::Reverse))
        .unwrap();
    assert_eq!(down_c, vec![(b("c"), b("3")), (b("b"), b("2")), (b("a"), b("1"))]);

    // descending from between two keys
    let down_bb = storage
        .get_iter_cf_mode(&cf, &IterMode::From(b("bb"), Direction::Reverse))
        .unwrap();
    assert_eq!(down_bb, vec![(b("b"), b("2")), (b("a"), b("1"))]);

    // a handle naming no column family is an error
    let mut other = Storage::open(None, true).unwrap();
    other.set_column_family("cf9").unwrap();
    let foreign = other.get_column_family("cf9").unwrap();
    assert_eq!(storage.get_iter_cf(&foreign).unwrap_err(), StorageError::NotFound);
}

#[test]
fn marshaling_entries_and_value_lists() {
    let (k, v) = create_jentry(&b("key"), &b("value"));
    assert_eq!(k, b("key"));
    assert_eq!(v, b("value"));

    let answer = vec![(b("k1"), Some(b("v1"))), (b("k2"), None)];
    // values come back in the order the keys were asked in
    let values =
        map_to_java_list_of_values(&vec![b("k2"), b("k1"), b("k2")], &answer).unwrap();
    assert_eq!(values, vec![None, Some(b("v1")), None]);
    // a key the answer does not cover fails the whole conversion
    assert!(map_to_java_list_of_values(&vec![b("k1"), b("k3")], &answer).is_none());
}

#[test]
fn handle_lifecycle() {
    let mut store: HandleStore<Vec<u8>> = HandleStore::new();
    let obj = store.create_java_object(b("payload"));
    let other = store.create_java_object(b("second"));
    assert_ne!(store.get_raw_ptr(&obj), store.get_raw_ptr(&other));

    assert_eq!(store.unwrap_ptr(&obj).unwrap(), &b("payload"));
    assert_eq!(store.unwrap_ptr(&other).unwrap(), &b("second"));

    // releasing hands the object out exactly once
    assert_eq!(store.unwrap_mut_ptr(&obj).unwrap(), b("payload"));
    assert!(store.unwrap_mut_ptr(&obj).is_none());
    assert!(store.unwrap_ptr(&obj).is_none());
    // the other slot is untouched
    assert_eq!(store.unwrap_ptr(&other).unwrap(), &b("second"));
}
