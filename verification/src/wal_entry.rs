//! Entries of the log.

use crate::stable_sort::Stamped;
use crate::value::{Value, ValueView};
use vstd::prelude::*;
use vstd::string::*;

verus! {

/// What a log entry records.
#[derive(Debug)]
pub enum WALEntry {
    /// A value was stored.
    Put {
        /// The key.
        key: String,
        /// The value.
        value: Value,
        /// When.
        timestamp: u64,
    },
    /// A key was deleted.
    Delete {
        /// The key.
        key: String,
        /// When.
        timestamp: u64,
    },
    /// A memtable was flushed.
    Flush {
        /// The memtable.
        memtable_id: u64,
        /// When.
        timestamp: u64,
    },
    /// Everything up to here is stored elsewhere.
    Checkpoint {
        /// When.
        timestamp: u64,
    },
}

/// What a log entry records, over plain values.
#[verifier::ext_equal]
pub enum WALEntryView {
    Put { key: Seq<char>, value: ValueView, timestamp: u64 },
    Delete { key: Seq<char>, timestamp: u64 },
    Flush { memtable_id: u64, timestamp: u64 },
    Checkpoint { timestamp: u64 },
}

impl View for WALEntry {
    type V = WALEntryView;

    open spec fn view(&self) -> WALEntryView {
        match self {
            WALEntry::Put { key, value, timestamp } => WALEntryView::Put {
                key: key@,
                value: value@,
                timestamp: *timestamp,
            },
            WALEntry::Delete { key, timestamp } => WALEntryView::Delete {
                key: key@,
                timestamp: *timestamp,
            },
            WALEntry::Flush { memtable_id, timestamp } => WALEntryView::Flush {
                memtable_id: *memtable_id,
                timestamp: *timestamp,
            },
            WALEntry::Checkpoint { timestamp } => WALEntryView::Checkpoint { timestamp: *timestamp },
        }
    }
}

impl Clone for WALEntry {
    fn clone(&self) -> (r: Self)
        ensures
            r@ == self@,
    {
        match self {
            WALEntry::Put { key, value, timestamp } => WALEntry::Put {
                key: key.clone(),
                value: value.clone(),
                timestamp: *timestamp,
            },
            WALEntry::Delete { key, timestamp } => WALEntry::Delete {
                key: key.clone(),
                timestamp: *timestamp,
            },
            WALEntry::Flush { memtable_id, timestamp } => WALEntry::Flush {
                memtable_id: *memtable_id,
                timestamp: *timestamp,
            },
            WALEntry::Checkpoint { timestamp } => WALEntry::Checkpoint { timestamp: *timestamp },
        }
    }
}

impl Stamped for WALEntry {
    open spec fn stamp_of(self) -> u64 {
        match self {
            WALEntry::Put { timestamp, .. } => timestamp,
            WALEntry::Delete { timestamp, .. } => timestamp,
            WALEntry::Flush { timestamp, .. } => timestamp,
            WALEntry::Checkpoint { timestamp } => timestamp,
        }
    }

    fn stamp(&self) -> (r: u64) {
        match self {
            WALEntry::Put { timestamp, .. } => *timestamp,
            WALEntry::Delete { timestamp, .. } => *timestamp,
            WALEntry::Flush { timestamp, .. } => *timestamp,
            WALEntry::Checkpoint { timestamp } => *timestamp,
        }
    }
}

impl WALEntry {
    /// The entry of a stored value.
    pub fn put(key: &str, value: &Value, timestamp: u64) -> (r: Self)
        ensures
            r@ == (WALEntryView::Put { key: key@, value: value@, timestamp }),
    {
        WALEntry::Put { key: key.to_owned(), value: value.clone(), timestamp }
    }

    /// The entry of a deleted key.
    pub fn delete(key: &str, timestamp: u64) -> (r: Self)
        ensures
            r@ == (WALEntryView::Delete { key: key@, timestamp }),
    {
        WALEntry::Delete { key: key.to_owned(), timestamp }
    }

    /// The entry of a checkpoint.
    pub fn checkpoint(timestamp: u64) -> (r: Self)
        ensures
            r@ == (WALEntryView::Checkpoint { timestamp }),
    {
        WALEntry::Checkpoint { timestamp }
    }
}

/// The entries of several stored values, all with one timestamp.
pub fn put_entries(items: &Vec<(String, Value)>, timestamp: u64) -> (r: Vec<WALEntry>)
    ensures
        r@.len() == items@.len(),
        forall|i: int|
            0 <= i < r@.len() ==> (#[trigger] r@[i])@ == (WALEntryView::Put {
                key: items@[i].0@,
                value: items@[i].1@,
                timestamp,
            }),
{
    let mut out: Vec<WALEntry> = Vec::with_capacity(items.len());
    let mut i: usize = 0;
    while i < items.len()
        invariant
            i <= items@.len(),
            out@.len() == i,
            forall|j: int|
                0 <= j < i ==> (#[trigger] out@[j])@ == (WALEntryView::Put {
                    key: items@[j].0@,
                    value: items@[j].1@,
                    timestamp,
                }),
        decreases items@.len() - i,
    {
        out.push(WALEntry::put(items[i].0.as_str(), &items[i].1, timestamp));
        i = i + 1;
    }
    out
}

} // verus!
