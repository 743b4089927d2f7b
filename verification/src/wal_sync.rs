//! How the small files of the indexed log are synced.

use crate::engine_config::WalSyncMode;
use crate::wal_segment::SyncAction;
use vstd::prelude::*;

verus! {

/// What syncing a whole file calls for in a mode.
pub open spec fn file_sync(mode: WalSyncMode) -> SyncAction {
    match mode {
        WalSyncMode::Never => SyncAction::Nothing,
        WalSyncMode::Flush => SyncAction::Nothing,
        WalSyncMode::Fsync => SyncAction::Data,
        WalSyncMode::FsyncAsync => SyncAction::DataInBackground,
    }
}

/// What syncing a whole file calls for.
pub fn sync_path(mode: WalSyncMode) -> (r: SyncAction)
    ensures
        r == file_sync(mode),
{
    match mode {
        WalSyncMode::Never => SyncAction::Nothing,
        WalSyncMode::Flush => SyncAction::Nothing,
        WalSyncMode::Fsync => SyncAction::Data,
        WalSyncMode::FsyncAsync => SyncAction::DataInBackground,
    }
}

/// What syncing ranges of a file, each an offset and a length, calls for: nothing where there is
/// no range.
pub fn sync_file_ranges(ranges: &Vec<(u64, u64)>, mode: WalSyncMode) -> (r: SyncAction)
    ensures
        r == (if ranges@.len() == 0 {
            SyncAction::Nothing
        } else {
            file_sync(mode)
        }),
{
    if ranges.len() == 0 {
        SyncAction::Nothing
    } else {
        sync_path(mode)
    }
}

/// What was written is synced before it is acknowledged where the mode is to sync, in the background
/// where it is to sync there, and not at all otherwise; where nothing was written nothing is synced.
pub proof fn mode_decides_the_sync(
    mode: WalSyncMode,
    ranges: Vec<(u64, u64)>,
    r: SyncAction,
    s: SyncAction,
)
    requires
        call_ensures(sync_path, (mode,), r),
        call_ensures(sync_file_ranges, (&ranges, mode), s),
    ensures
        r == SyncAction::Data <==> mode == WalSyncMode::Fsync,
        r == SyncAction::DataInBackground <==> mode == WalSyncMode::FsyncAsync,
        r == SyncAction::Nothing <==> mode == WalSyncMode::Never || mode == WalSyncMode::Flush,
        ranges@.len() > 0 ==> s == r,
        ranges@.len() == 0 ==> s == SyncAction::Nothing,
{
}

} // verus!
