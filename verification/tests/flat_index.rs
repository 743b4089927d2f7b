//! The packed index of a table.

use f4kvs_lsm::error::LsmError;
use f4kvs_lsm::flat_index::FlatIndex;
use std::collections::BTreeMap;

#[test]
fn roundtrip_lookup_and_legacy() {
    let idx = FlatIndex::from_sorted(vec![
        ("a".into(), 10, 4),
        ("abc".into(), 20, 8),
        ("z".into(), 30, 2),
    ]);
    assert_eq!(idx.get("abc"), Some((20, 8)));
    assert_eq!(idx.get("nope"), None);
    let encoded = idx.encode();
    let decoded = FlatIndex::decode(&encoded).unwrap();
    assert_eq!(decoded.get("a"), Some((10, 4)));
    assert_eq!(decoded.get("z"), Some((30, 2)));

    let mut legacy: BTreeMap<String, (u64, u32)> = BTreeMap::new();
    legacy.insert("abc".into(), (20u64, 8u32));
    let raw = bincode::serialize(&legacy).unwrap();
    let from_legacy = FlatIndex::decode(&raw).unwrap();
    assert_eq!(from_legacy.get("abc"), Some((20, 8)));
}

#[test]
fn positions_follow_the_order_of_keys() {
    let idx = FlatIndex::from_sorted(vec![
        ("a".into(), 1, 1),
        ("b".into(), 2, 1),
        ("bb".into(), 3, 1),
    ]);
    assert_eq!(idx.len(), 3);
    assert!(!idx.is_empty());
    assert_eq!(idx.partition_point(b""), 0);
    assert_eq!(idx.partition_point(b"b"), 1);
    assert_eq!(idx.partition_point(b"ba"), 2);
    assert_eq!(idx.partition_point(b"z"), 3);
    assert_eq!(idx.at(2), Some((&b"bb"[..], (3, 1))));
    assert_eq!(idx.at(3), None);
    assert!(idx.clone().is_well_formed());
    assert!(FlatIndex::empty().is_empty());
}

#[test]
fn damaged_indexes_are_refused() {
    let good = FlatIndex::from_sorted(vec![("key".into(), 7, 9)]).encode();
    for (cut, text) in [(8, "truncated F4IX header"), (12, "truncated F4IX offset table")] {
        match FlatIndex::decode(&good[..cut]) {
            Err(LsmError::Serialization(m)) => assert_eq!(m, text),
            other => panic!("{other:?}"),
        }
    }
    let mut newer = good.clone();
    newer[4] = 9;
    match FlatIndex::decode(&newer) {
        Err(LsmError::Serialization(m)) => assert_eq!(m, "unsupported F4IX version 9"),
        other => panic!("{other:?}"),
    }
    match FlatIndex::decode(&[1, 2, 3]) {
        Err(LsmError::Serialization(m)) => {
            assert!(m.starts_with("Failed to deserialize index: "));
        }
        other => panic!("{other:?}"),
    }
    assert!(FlatIndex::decode(&good).unwrap().is_well_formed());
    assert!(!FlatIndex::decode(&good[..good.len() - 1]).unwrap().is_well_formed());
    assert_eq!(FlatIndex::decode(&FlatIndex::empty().encode()).unwrap().len(), 0);
}

#[test]
fn a_key_may_stand_more_than_once() {
    let idx = FlatIndex::from_sorted(vec![
        ("a".into(), 1, 1),
        ("b".into(), 2, 1),
        ("b".into(), 3, 1),
        ("c".into(), 4, 1),
    ]);
    assert_eq!(idx.partition_point(b"b"), 1);
    assert_eq!(idx.partition_point(b"bb"), 3);
    assert_eq!(idx.get("b"), Some((2, 1)));
    assert_eq!(idx.get("ab"), None);
}

#[test]
fn a_decoded_index_answers_alike() {
    let sorted = FlatIndex::from_sorted(vec![("a".into(), 1, 1), ("b".into(), 2, 3)]);
    let unsorted = FlatIndex::from_sorted(vec![
        ("c".into(), 1, 1),
        ("a".into(), 2, 1),
        ("b".into(), 3, 1),
    ]);
    for idx in [sorted, unsorted] {
        let back = FlatIndex::decode(&idx.encode()).unwrap();
        assert_eq!(back.len(), idx.len());
        for i in 0..=idx.len() {
            assert_eq!(back.at(i), idx.at(i));
        }
        for key in ["", "a", "b", "c", "d"] {
            assert_eq!(back.get(key), idx.get(key));
        }
        assert_eq!(back.encode(), idx.encode());
    }
}
