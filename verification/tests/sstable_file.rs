//! Configuration of reading tables.

use f4kvs_lsm::engine_config::{SstableConfig, SstableReadMode};

#[test]
fn sstable_config_defaults_to_positioned_read() {
    let config = SstableConfig::default();
    assert_eq!(config.read_mode, SstableReadMode::PositionedRead);
    assert_eq!(config.mincore_cache_ttl_secs, 60);
}
