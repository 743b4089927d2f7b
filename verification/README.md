# f4kvs-lsm

The core of a log-structured key-value store, written in Rust and proved with Verus.

`src/` is the library. Its functions carry contracts, and Verus proves that the code
meets them. The library does no input or output: where an operation needs a file, a clock, a cache
or a sleep, it is a state machine that says what it wants next and takes the answer.

| Part | Modules |
| --- | --- |
| Values and errors | `value`, `json`, `kv_error`, `error`, `error_handling` |
| Memtable | `memtable` |
| Sorted tables | `sstable`, `sst_writer`, `sst_format`, `sst_metadata`, `sst_open`, `sst_block`, `sst_entry`, `sst_fetch`, `sst_read`, `sst_lookup`, `sst_query`, `sst_answers`, `flat_index`, `bloom_filter`, `block_cache` |
| File reads | `file_reader`, `page_map`, `file_io` |
| Segment log | `wal`, `wal_segment`, `wal_record`, `wal_entry`, `wal_recovery`, `wal_truncation`, `wal_answers`, `wal_sync`, `wal_group_commit` |
| Frame log | `wal_frame`, `wal_frame_manager` |
| Indexed log | `wal_index`, `wal_indexed`, `wal_indexed_append`, `wal_indexed_manager`, `wal_indexed_answers` |
| Configuration and validation | `engine_config`, `storage_config`, `validation` |
| Statistics and monitoring | `lsm_stats`, `storage_stats`, `monitoring`, `storage_traits`, `ratio` |
| Shared lemmas and text | `bytes`, `seqs`, `stable_sort`, `text`, `numerals`, `formatting`, `duration`, `key_bloom`, `lsm_utils`, `checksum`, `snappy` |

Checksums come from `crc32fast`, block compression from `snap`, the headers and the metadata from
`bincode`, and JSON from `serde_json`. Each call stands in a small function whose contract is
trusted; its comment says what it claims of the outside function. Numbers in floating point are
held by their bits, and compared as numbers.

What holds of the library as a whole is stated as public proof functions beside the code, for
instance:

- a lookup in a table that was written gives the value, the tombstone or nothing, exactly as it was
  written, and reading all entries gives each of them in key order
  (`sst_answers::lookup_gives_what_was_written`, `sst_answers::all_entries_are_read`);
- the block cache drops the blocks that were used least recently, and no more than it has to
  (`block_cache::storing_drops_least`);
- what was appended to a log is read back, and an append that was torn leaves what was there
  before it (`wal_record::log_round_trip`, `wal_record::torn_append_keeps_log`);
- a batch that was acknowledged is read back, and one that could not be read back is refused before
  anything is written (`wal_answers::acknowledged_batch_is_read_back`,
  `wal_answers::unreadable_batch_is_refused`);
- what the indexed log acknowledged is read from its frames, or staged behind them, in its order
  (`wal_indexed_answers::acknowledged_entries_are_read_back`);
- a commit of the log's index that was torn keeps the latest state
  (`wal_index::torn_commit_keeps_latest`);
- recovery gives every entry of the segment files, ordered by time, and nothing after a truncation
  (`wal_answers::recovery_gives_every_entry`, `wal_answers::recovery_after_truncation_is_empty`).

`app/` is ordinary Rust around the library: files, tasks, locks, clocks, floating point, and the
serde forms of entries. `tests/` runs the library on concrete values.
