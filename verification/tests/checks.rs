//! Checksums, packing, numbers and texts.

use f4kvs_lsm::error::{IoError, IoErrorKind, LsmError};
use f4kvs_lsm::formatting::format_bytes;
use f4kvs_lsm::kv_error::F4KvsError;
use f4kvs_lsm::lsm_utils::exclusive_range_end;
use f4kvs_lsm::numerals::{parse_number, text_between};
use f4kvs_lsm::snappy::{snap_compress, snap_decompress};
use f4kvs_lsm::stable_sort::sort_by_stamp;
use f4kvs_lsm::text::{
    chars_of, contains_text, dec_text, hex_bytes_text, hex_text, push_zero_padded, signed_text,
};
use f4kvs_lsm::validation::IntegrityValidator;
use f4kvs_lsm::wal_entry::WALEntry;

#[test]
fn the_integrity_checksum_is_the_sum_of_the_bytes() {
    assert_eq!(IntegrityValidator::calculate_checksum(b"123456789"), 477);
    assert_eq!(IntegrityValidator::calculate_checksum(b""), 0);
    match IntegrityValidator::validate_checksum(b"123456789", 1) {
        Err(F4KvsError::Storage { message }) => {
            assert_eq!(message, "Checksum mismatch: expected 1, got 477");
        }
        other => panic!("{other:?}"),
    }
}

#[test]
fn packed_data_is_unpacked() {
    let raw = vec![b'a'; 10_000];
    let packed = snap_compress(&raw).unwrap();
    assert!(packed.len() < 1_000);
    assert_eq!(snap_decompress(&packed).unwrap(), raw);
    assert_eq!(packed, snap::raw::Encoder::new().compress_vec(&raw).unwrap());
    match snap_decompress(&[0xff, 0xff, 0xff, 0xff, 0xff, 0xff]) {
        Err(LsmError::Corruption(m)) => assert!(m.starts_with("snappy decompress: ")),
        other => panic!("{other:?}"),
    }
}

#[test]
fn sizes_read_as_the_standard_library_writes_them() {
    let mut n: u64 = 1;
    while n < u64::MAX / 3 {
        for size in [n - 1, n, n + 1, n * 3 - n / 7] {
            let mut value = size as f64;
            let mut unit = 0;
            while value >= 1024.0 && unit < 5 {
                value /= 1024.0;
                unit += 1;
            }
            let want = if unit == 0 {
                format!("{size} B")
            } else {
                format!("{:.2} {}", value, ["B", "KB", "MB", "GB", "TB", "PB"][unit])
            };
            assert_eq!(format_bytes(size), want);
        }
        n = n * 2 + n / 5 + 1;
    }
    assert_eq!(format_bytes(u64::MAX), format!("{:.2} PB", u64::MAX as f64 / 1024f64.powi(5)));
}

#[test]
fn numbers_and_texts() {
    assert_eq!(dec_text(0), "0");
    assert_eq!(dec_text(u64::MAX), u64::MAX.to_string());
    assert_eq!(signed_text(i64::MIN), i64::MIN.to_string());
    assert_eq!(hex_text(0xbeef), "beef");
    assert_eq!(hex_bytes_text(&[0, 255, 16]), "00ff10");
    let mut padded = String::new();
    push_zero_padded(&mut padded, "7", 3);
    assert_eq!(padded, "007");
    assert_eq!(parse_number(&chars_of("ff"), 16, u64::MAX), Some(255));
    assert_eq!(parse_number(&chars_of("+9"), 10, u64::MAX), Some(9));
    assert_eq!(parse_number(&chars_of(""), 10, u64::MAX), None);
    assert_eq!(parse_number(&chars_of("12x"), 10, u64::MAX), None);
    assert_eq!(parse_number(&chars_of("256"), 10, 255), None);
    assert_eq!(text_between("frame_12.wal", "frame_", ".wal"), Some(vec!['1', '2']));
    assert_eq!(text_between("frame_12.log", "frame_", ".wal"), None);
    assert!(contains_text("unexpected EOF", "EOF"));
    assert!(!contains_text("eof", "EOF"));
}

#[test]
fn the_end_of_a_range_takes_in_its_last_key() {
    assert_eq!(exclusive_range_end("user:3"), Some("user:3\u{0}".to_string()));
    assert_eq!(exclusive_range_end(""), None);
}

#[test]
fn entries_of_one_time_keep_their_order() {
    let sorted = sort_by_stamp(vec![
        WALEntry::delete("c", 5),
        WALEntry::delete("a", 3),
        WALEntry::delete("d", 5),
        WALEntry::delete("b", 3),
    ]);
    let keys: Vec<String> = sorted
        .iter()
        .map(|e| match e {
            WALEntry::Delete { key, .. } => key.clone(),
            other => panic!("{other:?}"),
        })
        .collect();
    assert_eq!(keys, vec!["a", "b", "c", "d"]);
}

#[test]
fn messages_of_engine_errors() {
    let io = LsmError::Io(IoError { kind: IoErrorKind::NotFound, message: "gone".to_string() });
    assert_eq!(io.user_message(), "I/O error: gone");
    assert_eq!(LsmError::Corruption("c".to_string()).user_message(), "Data corruption: c");
    assert_eq!(LsmError::Serialization("s".to_string()).user_message(), "Serialization error: s");
    assert_eq!(LsmError::Internal("i".to_string()).user_message(), "Internal error: i");
    assert_eq!(LsmError::Wal("w".to_string()).user_message(), "WAL error: w");
}
