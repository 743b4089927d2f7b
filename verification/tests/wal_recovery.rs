//! Recovery from the log, its truncation and its clean-up.

use f4kvs_lsm::duration::Duration;
use f4kvs_lsm::engine_config::WalConfig;
use f4kvs_lsm::error::LsmError;
use f4kvs_lsm::value::Value;
use f4kvs_lsm::wal::WALManager;
use f4kvs_lsm::wal_entry::{put_entries, WALEntry};
use f4kvs_lsm::wal_recovery::{
    decoded_entries, expired_segments, recovery_order, CollectedEntries, Recovery, SegmentAge,
    ShutdownStep,
};
use f4kvs_lsm::wal_segment::segment_file_name;
use f4kvs_lsm::wal_truncation::{truncate_after_flush, Truncation, TruncationReply};
use std::collections::BTreeSet;

fn keys(entries: &[WALEntry]) -> Vec<String> {
    entries
        .iter()
        .map(|e| match e {
            WALEntry::Put { key, .. } | WALEntry::Delete { key, .. } => key.clone(),
            other => panic!("{other:?}"),
        })
        .collect()
}

#[test]
fn segments_are_read_in_the_order_of_their_numbers() {
    let order = recovery_order(&vec![
        segment_file_name(16),
        "segment_odd.wal".to_string(),
        "notes.txt".to_string(),
        segment_file_name(2),
    ]);
    let names: Vec<&str> = order.iter().map(|f| f.name.as_str()).collect();
    assert_eq!(
        names,
        vec!["segment_0000000000000002.wal", "segment_0000000000000010.wal", "segment_odd.wal"]
    );
    assert_eq!(order[2].id, u64::MAX);
}

#[test]
fn recovered_entries_are_ordered_by_time() {
    let mut recovery = Recovery::begin(3);
    recovery.accept("one", Ok(vec![WALEntry::delete("b", 2), WALEntry::delete("c", 3)]));
    recovery.accept("two", Err(LsmError::Corruption("bad".to_string())));
    recovery.accept(
        "three",
        Ok(put_entries(&vec![("a".to_string(), Value::Int64(1))], 1)
            .into_iter()
            .chain(vec![WALEntry::delete("d", 3)])
            .collect()),
    );
    assert_eq!(recovery.errors.len(), 1);
    assert!(recovery.errors[0].starts_with("two: "));
    assert_eq!(keys(&recovery.finish().unwrap()), vec!["a", "b", "c", "d"]);
}

#[test]
fn recovery_fails_where_nothing_could_be_read() {
    assert!(Recovery::begin(0).finish().unwrap().is_empty());
    let mut recovery = Recovery::begin(2);
    recovery.accept("one", Err(LsmError::Corruption("x".to_string())));
    recovery.accept("two", Err(LsmError::Internal("y".to_string())));
    match recovery.finish() {
        Err(LsmError::Wal(m)) => {
            assert!(m.starts_with("Failed to recover from 2 WAL segment(s): one: "));
            assert!(m.contains("; two: "));
        }
        other => panic!("{other:?}"),
    }
}

fn truncate(
    disk: &mut BTreeSet<String>,
    wal: &mut WALManager,
    failures: u32,
) -> (Result<(), LsmError>, u32) {
    let mut state = wal.start_truncation();
    let mut left = failures;
    let mut tries = 0;
    loop {
        let reply = match &state {
            Truncation::Close(_) | Truncation::Pause | Truncation::Retry { .. } => {
                TruncationReply::Done
            }
            Truncation::List | Truncation::ListAgain => {
                TruncationReply::Names(disk.iter().cloned().collect())
            }
            Truncation::Remove { files, next, .. } => {
                tries += 1;
                if left > 0 {
                    left -= 1;
                    TruncationReply::Failed(LsmError::Internal("busy".to_string()))
                } else {
                    disk.remove(&files[*next].name);
                    TruncationReply::Done
                }
            }
            Truncation::Look { files, next } => TruncationReply::There {
                still: disk.contains(&files[*next].name),
                quoted_path: format!("{:?}", files[*next].name),
            },
            Truncation::Rotate => TruncationReply::Done,
            Truncation::Done(outcome) => return (outcome.clone(), tries),
        };
        state = truncate_after_flush(state, reply);
    }
}

#[test]
fn truncation_removes_every_segment_file() {
    let mut wal = WALManager::new(&WalConfig::default());
    let mut disk: BTreeSet<String> = (1..4).map(segment_file_name).collect();
    disk.insert("wal.idx".to_string());
    let (outcome, tries) = truncate(&mut disk, &mut wal, 2);
    assert!(outcome.is_ok());
    assert_eq!(tries, 5);
    assert_eq!(disk.into_iter().collect::<Vec<_>>(), vec!["wal.idx".to_string()]);
}

#[test]
fn truncation_gives_up_after_three_tries() {
    let mut wal = WALManager::new(&WalConfig::default());
    let mut disk: BTreeSet<String> = (1..4).map(segment_file_name).collect();
    let (outcome, tries) = truncate(&mut disk, &mut wal, 3);
    assert!(matches!(outcome, Err(LsmError::Internal(_))));
    assert_eq!(tries, 3);
    assert_eq!(disk.len(), 3);
}

#[test]
fn files_that_stay_are_told() {
    let names = vec![segment_file_name(1)];
    let look = truncate_after_flush(Truncation::List, TruncationReply::Names(names.clone()));
    let look = truncate_after_flush(look, TruncationReply::Done);
    let end = truncate_after_flush(
        look,
        TruncationReply::There { still: true, quoted_path: "\"s\"".to_string() },
    );
    match end {
        Truncation::Done(Err(LsmError::Io(e))) => {
            assert_eq!(e.message, "Failed to remove WAL segment after retries: \"s\"");
        }
        other => panic!("{other:?}"),
    }
    match truncate_after_flush(Truncation::ListAgain, TruncationReply::Names(names)) {
        Truncation::Done(Err(LsmError::Io(e))) => assert_eq!(
            e.message,
            "WAL truncation incomplete: 1 segment file(s) still on disk after wipe"
        ),
        other => panic!("{other:?}"),
    }
}

#[test]
fn old_segments_expire() {
    let ages = vec![
        SegmentAge { id: 1, created_at: Some(10) },
        SegmentAge { id: 2, created_at: None },
        SegmentAge { id: 3, created_at: Some(49) },
        SegmentAge { id: 4, created_at: Some(50) },
    ];
    assert_eq!(expired_segments(&ages, 50), vec![1, 3]);
    let wal = WALManager::new(&WalConfig::default());
    assert_eq!(wal.cleanup_old_segments(&ages, 100, Duration::from_secs(80)), vec![1]);
    assert!(wal.cleanup_flushed_segments(&ages, 100, Duration::from_secs(500)).is_empty());
}

#[test]
fn a_clean_shutdown_has_its_steps() {
    let mut wal = WALManager::new(&WalConfig { group_commit_enabled: true, ..Default::default() });
    assert_eq!(wal.mark_clean_shutdown(), vec![ShutdownStep::Truncate]);
    wal.current_segment = Some(wal.next_segment("s".to_string(), 1));
    assert_eq!(
        wal.mark_clean_shutdown(),
        vec![
            ShutdownStep::CommitGroup,
            ShutdownStep::Checkpoint,
            ShutdownStep::Flush,
            ShutdownStep::Truncate
        ]
    );
    assert!(wal.verify_truncated(&vec!["s".to_string()]));
    assert!(!wal.verify_truncated(&vec!["t".to_string()]));
    assert!(!wal.verify_truncated(&vec!["s".to_string(), "t".to_string()]));
    wal.segments.insert(1, "old".to_string());
    assert!(!wal.verify_truncated(&Vec::new()));
    assert_eq!(wal.forget_segment(1), Some("old".to_string()));
    assert_eq!(wal.forget_segment(1), None);
}

#[test]
fn what_cannot_be_decoded_is_left_out() {
    let kept = decoded_entries(vec![
        Ok(WALEntry::delete("a", 1)),
        Err("torn".to_string()),
        Ok(WALEntry::delete("b", 2)),
    ]);
    assert_eq!(keys(&kept), ["a", "b"]);
    assert!(decoded_entries(Vec::new()).is_empty());
}

#[test]
fn entries_are_collected_in_the_order_of_their_time() {
    let mut all = CollectedEntries::begin();
    all.accept_current(Ok(vec![WALEntry::delete("late", 9)])).unwrap();
    all.accept_completed(Ok(vec![WALEntry::delete("early", 1)]));
    all.accept_completed(Err(LsmError::Internal("gone".to_string())));
    assert!(all.accept_current(Err(LsmError::Internal("gone".to_string()))).is_err());
    assert_eq!(keys(&all.finish()), ["early", "late"]);
}
