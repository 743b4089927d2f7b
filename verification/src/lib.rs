//! LSM-tree storage engine core: write-ahead logs, memtables, sorted string tables
//! and the value, error and configuration types they share.

pub mod block_cache;
pub mod bloom_filter;
pub mod bytes;
pub mod checksum;
pub mod config_answers;
pub mod duration;
pub mod engine_config;
pub mod error;
pub mod error_answers;
pub mod error_handling;
pub mod file_io;
pub mod failure_answers;
pub mod file_answers;
pub mod file_reader;
pub mod flat_index;
pub mod format_answers;
pub mod formatting;
pub mod helper_answers;
pub mod json;
pub mod key_bloom;
pub mod kv_error;
pub mod lsm_stats;
pub mod lsm_utils;
pub mod memtable;
pub mod memtable_answers;
pub mod monitoring;
pub mod monitoring_answers;
pub mod numerals;
pub mod page_map;
pub mod ratio;
pub mod seqs;
pub mod snappy;
pub mod sst_answers;
pub mod sst_block;
pub mod sst_entry;
pub mod sst_fetch;
pub mod sst_format;
pub mod sst_lookup;
pub mod sst_metadata;
pub mod sst_open;
pub mod sst_query;
pub mod sst_read;
pub mod sst_read_answers;
pub mod sst_scan_answers;
pub mod sst_writer;
pub mod sstable;
pub mod stable_sort;
pub mod storage_config;
pub mod storage_stats;
pub mod storage_traits;
pub mod text;
pub mod text_answers;
pub mod validation;
pub mod value;
pub mod value_answers;
pub mod wal;
pub mod wal_answers;
pub mod wal_entry;
pub mod wal_frame;
pub mod wal_frame_manager;
pub mod wal_group_commit;
pub mod wal_index;
pub mod wal_indexed;
pub mod wal_indexed_answers;
pub mod wal_indexed_append;
pub mod wal_indexed_manager;
pub mod wal_frame_answers;
pub mod wal_log_answers;
pub mod wal_record;
pub mod wal_recovery;
pub mod wal_segment;
pub mod wal_sync;
pub mod wal_truncation;
pub mod wal_write_answers;

use vstd::prelude::*;

verus! {

/// The version of the library.
pub const VERSION: &'static str = "0.1.0";

} // verus!
