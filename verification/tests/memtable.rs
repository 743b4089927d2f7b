//! The table in memory.

use f4kvs_lsm::engine_config::MemtableConfig;
use f4kvs_lsm::memtable::{Memtable, MemtableLookupResult, PutEffect};
use f4kvs_lsm::value::Value;

#[test]
fn test_memtable_basic_operations() {
    let config = MemtableConfig::default();
    let mut memtable = Memtable::new(&config).expect("test operation failed");

    memtable
        .put("key1", &Value::String("value1".to_string()))
        .expect("test operation failed");
    assert_eq!(
        memtable.get("key1").expect("test operation failed"),
        Some(Value::String("value1".to_string()))
    );

    memtable
        .put("key1", &Value::String("value2".to_string()))
        .expect("test operation failed");
    assert_eq!(
        memtable.get("key1").expect("test operation failed"),
        Some(Value::String("value2".to_string()))
    );

    memtable
        .delete("key1")
        .expect("test operation failed");
    assert_eq!(
        memtable.get("key1").expect("test operation failed"),
        None
    );

    assert!(!memtable
        .key_exists("key1")
        .expect("test operation failed"));
}

#[test]
fn test_memtable_scanning() {
    let config = MemtableConfig::default();
    let mut memtable = Memtable::new(&config).expect("test operation failed");

    memtable
        .put("user:1", &Value::String("alice".to_string()))
        .expect("test operation failed");
    memtable
        .put("user:2", &Value::String("bob".to_string()))
        .expect("test operation failed");
    memtable
        .put("user:3", &Value::String("charlie".to_string()))
        .expect("test operation failed");
    memtable
        .put("config:debug", &Value::Bool(true))
        .expect("test operation failed");

    let user_keys = memtable
        .scan_prefix("user:")
        .expect("test operation failed");
    assert_eq!(user_keys.len(), 3);
    assert!(user_keys.contains(&"user:1".to_string()));

    let range_keys = memtable
        .scan_range("user:1", "user:3")
        .expect("test operation failed");
    assert_eq!(range_keys.len(), 3);
    assert!(range_keys.contains(&"user:1".to_string()));
    assert!(range_keys.contains(&"user:2".to_string()));
    assert!(range_keys.contains(&"user:3".to_string()));
}

#[test]
fn test_memtable_size_tracking() {
    let config = MemtableConfig::default();
    let mut memtable = Memtable::new(&config).expect("test operation failed");

    let initial_size = memtable.size();
    let initial_count = memtable.entry_count();

    memtable
        .put("key1", &Value::String("value1".to_string()))
        .expect("test operation failed");
    assert!(memtable.size() > initial_size);
    assert_eq!(memtable.entry_count(), initial_count + 1);

    let size_before_update = memtable.size();
    memtable
        .put("key1", &Value::String("longer_value".to_string()))
        .expect("test operation failed");
    assert!(memtable.size() > size_before_update);
    assert_eq!(memtable.entry_count(), initial_count + 1);

    let size_before_delete = memtable.size();
    memtable
        .delete("key1")
        .expect("test operation failed");
    assert!(memtable.size() < size_before_delete);
    assert_eq!(memtable.entry_count(), initial_count + 1);
}

#[test]
fn deleted_keys_stay_as_tombstones() {
    let mut memtable = Memtable::new(&MemtableConfig { max_size: 30 }).unwrap();
    assert_eq!(memtable.lookup("k").unwrap(), MemtableLookupResult::Missing);
    assert_eq!(memtable.try_put("k", &Value::Int64(1)), Some(PutEffect::Inserted));
    assert_eq!(memtable.try_put("k", &Value::Int64(2)), Some(PutEffect::UpdatedLive));
    memtable.delete("k").unwrap();
    assert_eq!(memtable.lookup("k").unwrap(), MemtableLookupResult::Tombstone);
    assert!(memtable.is_tombstone("k").unwrap());
    assert_eq!(memtable.scan_prefix("k").unwrap(), Vec::<String>::new());
    assert_eq!(
        memtable.scan_prefix_layer("").unwrap(),
        vec![("k".to_string(), Value::Null, true)]
    );
    assert_eq!(memtable.try_put("k", &Value::Int64(3)), Some(PutEffect::Resurrected));
    memtable.put("a", &Value::Bytes(vec![0; 40])).unwrap();
    assert!(memtable.is_full());
    assert_eq!(memtable.config().max_size, 30);
    let copy = memtable.clone();
    assert_eq!(copy.get_all_entries().len(), 2);
    assert_eq!(copy.get_all_entries()[0].0, "a");
    memtable.clear();
    assert_eq!(memtable.entry_count(), 0);
    assert_eq!(memtable.size(), 0);
    assert_eq!(copy.entry_count(), 2);
}

#[test]
fn a_deleted_key_counts_as_an_entry() {
    let mut memtable = Memtable::new(&MemtableConfig { max_size: 100 }).unwrap();
    memtable.delete("key").unwrap();
    assert_eq!(memtable.entry_count(), 1);
    assert_eq!(memtable.size(), 4);

    // A second mark replaces the first one.
    memtable.delete("key").unwrap();
    assert_eq!(memtable.entry_count(), 1);
    assert_eq!(memtable.size(), 4);

    memtable.put("key", &Value::Bytes(vec![0; 7])).unwrap();
    assert_eq!(memtable.entry_count(), 1);
    assert_eq!(memtable.size(), 10);

    // Only a deletion leaves a mark that counts.
    memtable.put("key", &Value::Null).unwrap();
    assert_eq!(memtable.size(), 3);
    assert!(memtable.is_tombstone("key").unwrap());
    memtable.delete("key").unwrap();
    assert_eq!(memtable.size(), 4);
    memtable.put("other", &Value::Null).unwrap();
    assert_eq!(memtable.size(), 9);
    assert_eq!(memtable.entry_count(), 2);
}
