//! Configuration of the storage.

use f4kvs_lsm::storage_config::{BufferPoolConfig, StorageBackend, StorageConfig};
use f4kvs_lsm::VERSION;

#[test]
fn test_config_validation() {
    let config = StorageConfig::default();
    assert!(config.validate().is_ok());

    let mut invalid_config = config.clone();
    invalid_config.background_threads = 0;
    assert!(invalid_config.validate().is_err());
}

#[test]
fn test_testing_config() {
    let config = StorageConfig::for_testing("/tmp/f4kvs_test".to_string());
    assert!(config.validate().is_ok());
    let dir = std::path::Path::new(&config.data_dir);
    assert!(dir.exists() || dir.parent().is_none_or(|p| p.exists()));
}

#[test]
fn config_test_storage_backend_display() {
    assert_eq!(StorageBackend::Memory.to_text(), "memory");
    assert_eq!(StorageBackend::LsmTree.to_text(), "lsm-tree");
    assert_eq!(StorageBackend::Partitioned.to_text(), "partitioned");
}

#[test]
fn test_storage_backend_from_str() {
    assert_eq!(
        "memory".parse::<StorageBackend>().expect("parse failed"),
        StorageBackend::Memory
    );
    assert_eq!(
        "lsm-tree".parse::<StorageBackend>().expect("parse failed"),
        StorageBackend::LsmTree
    );
    assert!("invalid".parse::<StorageBackend>().is_err());
}

#[test]
fn lib_test_storage_backend_display() {
    assert_eq!(StorageBackend::Memory.to_text(), "memory");
    assert_eq!(StorageBackend::LsmTree.to_text(), "lsm-tree");
    assert_eq!(StorageBackend::Partitioned.to_text(), "partitioned");
}

#[test]
fn test_version() {
    assert!(!VERSION.is_empty());
}

#[test]
fn faults_of_a_configuration() {
    let mut config = StorageConfig::default();
    config.max_memory_usage = Some(1);
    assert_eq!(
        config.validate().unwrap_err().to_text(),
        "Storage error: Total cache size exceeds max_memory_usage"
    );
    config.background_threads = 0;
    assert_eq!(
        config.validate().unwrap_err().to_text(),
        "Storage error: background_threads must be at least 1"
    );
    config.data_dir = String::new();
    assert_eq!(
        config.validate().unwrap_err().to_text(),
        "Storage error: data_dir cannot be empty"
    );
}

#[test]
fn names_of_backends_are_read_back() {
    for backend in [
        StorageBackend::Memory,
        StorageBackend::LsmTree,
        StorageBackend::Partitioned,
        StorageBackend::FileSystem,
        StorageBackend::Analytics,
    ] {
        let name = backend.to_text();
        assert_eq!(name.parse::<StorageBackend>().unwrap(), backend);
        assert_eq!(name.to_uppercase().parse::<StorageBackend>().unwrap(), backend);
    }
}

#[test]
fn the_buffer_pool_has_its_documented_defaults() {
    let pool = BufferPoolConfig::default();
    assert_eq!(pool.cache_size, 256 * 1024 * 1024);
    assert_eq!(pool.max_entries, 10000);
    assert_eq!(pool.write_batch_size, 100);
    assert!(pool.enable_write_back);
    assert!(!pool.force_durable_puts);
    assert!(!pool.enable_cache_warming);
    assert_eq!(pool.cache_warming_keys, 1000);
    assert!(!StorageConfig::default().buffer_pool.unwrap().enable_cache_warming);
}

#[test]
fn an_unknown_backend_is_named() {
    let e = "tape".parse::<StorageBackend>().unwrap_err();
    assert_eq!(e.to_text(), "Storage error: Unknown storage backend: tape");
    assert_eq!("LSMTree".parse::<StorageBackend>().unwrap(), StorageBackend::LsmTree);
}
