//! Rules of reading and writing whole files.

use crate::kv_error::F4KvsError;
use vstd::prelude::*;
use vstd::string::*;

verus! {

/// An operation on a file or directory.
#[derive(Debug, Clone, Copy, PartialEq, Eq, Structural)]
pub enum FileOperation {
    /// Making a directory.
    CreateDirectory,
    /// Writing a temporary file.
    WriteTemporary,
    /// Moving a temporary file to its place.
    MoveTemporary,
    /// Reading a file.
    ReadFile,
    /// Asking for the size of a file.
    Metadata,
    /// Removing a file.
    RemoveFile,
    /// Reading a directory.
    ReadDirectory,
    /// Reading an entry of a directory.
    ReadEntry,
    /// Asking for the type of a file.
    FileType,
}

impl FileOperation {
    /// What is said when the operation fails.
    pub open spec fn words(self) -> Seq<char> {
        match self {
            FileOperation::CreateDirectory => "Failed to create directory "@,
            FileOperation::WriteTemporary => "Failed to write to temporary file "@,
            FileOperation::MoveTemporary => "Failed to move temporary file to "@,
            FileOperation::ReadFile => "Failed to read file "@,
            FileOperation::Metadata => "Failed to get metadata for "@,
            FileOperation::RemoveFile => "Failed to remove file "@,
            FileOperation::ReadDirectory => "Failed to read directory "@,
            FileOperation::ReadEntry => "Failed to read directory entry in "@,
            FileOperation::FileType => "Failed to get file type for "@,
        }
    }

    /// The error of the operation on a path.
    pub open spec fn failure(self, path: Seq<char>, reason: Seq<char>) -> Seq<char> {
        self.words() + path + ": "@ + reason
    }
}

/// The error of an operation on a path.
pub fn file_error(operation: FileOperation, path: &str, reason: &str) -> (r: F4KvsError)
    ensures
        r.is_io(operation.failure(path@, reason@)),
{
    let mut message = match operation {
        FileOperation::CreateDirectory => "Failed to create directory ".to_owned(),
        FileOperation::WriteTemporary => "Failed to write to temporary file ".to_owned(),
        FileOperation::MoveTemporary => "Failed to move temporary file to ".to_owned(),
        FileOperation::ReadFile => "Failed to read file ".to_owned(),
        FileOperation::Metadata => "Failed to get metadata for ".to_owned(),
        FileOperation::RemoveFile => "Failed to remove file ".to_owned(),
        FileOperation::ReadDirectory => "Failed to read directory ".to_owned(),
        FileOperation::ReadEntry => "Failed to read directory entry in ".to_owned(),
        FileOperation::FileType => "Failed to get file type for ".to_owned(),
    };
    message.append(path);
    message.append(": ");
    message.append(reason);
    F4KvsError::Io { message }
}

/// How far an atomic write has come.
#[derive(Debug, Clone, Copy, PartialEq, Eq, Structural)]
pub enum AtomicWrite {
    /// The temporary file is being written.
    Writing,
    /// The temporary file is being moved to its place.
    Moving,
}

/// What comes next in an atomic write.
#[derive(Debug)]
pub enum AtomicStep {
    /// Move the temporary file to its place.
    Move,
    /// The data stands in its place.
    Done,
    /// Give up.
    Fail(F4KvsError),
    /// Remove the temporary file and give up.
    RemoveAndFail(F4KvsError),
}

/// What comes next in an atomic write. The data is first written to a temporary file; only once
/// all of it is there, that file takes the place of the target, so that the target never holds a
/// part of the data. A temporary file that cannot be moved is removed.
pub fn atomic_write(
    stage: AtomicWrite,
    path: &str,
    temp_path: &str,
    outcome: Result<(), String>,
) -> (r: AtomicStep)
    ensures
        match (stage, outcome) {
            (AtomicWrite::Writing, Ok(_)) => r is Move,
            (AtomicWrite::Writing, Err(reason)) => r matches AtomicStep::Fail(e) && e.is_io(
                FileOperation::WriteTemporary.failure(temp_path@, reason@),
            ),
            (AtomicWrite::Moving, Ok(_)) => r is Done,
            (AtomicWrite::Moving, Err(reason)) => r matches AtomicStep::RemoveAndFail(e) && e.is_io(
                FileOperation::MoveTemporary.failure(path@, reason@),
            ),
        },
{
    match stage {
        AtomicWrite::Writing => match outcome {
            Ok(_) => AtomicStep::Move,
            Err(reason) => AtomicStep::Fail(
                file_error(FileOperation::WriteTemporary, temp_path, reason.as_str()),
            ),
        },
        AtomicWrite::Moving => match outcome {
            Ok(_) => AtomicStep::Done,
            Err(reason) => AtomicStep::RemoveAndFail(
                file_error(FileOperation::MoveTemporary, path, reason.as_str()),
            ),
        },
    }
}

/// An entry of a directory: its path and whether it is a file.
#[derive(Debug)]
pub struct ListedEntry {
    /// Its path.
    pub path: String,
    /// Whether it is a file, or why that cannot be told.
    pub is_file: Result<bool, String>,
}

/// The entry and its type could be read.
pub open spec fn readable(entry: Result<ListedEntry, String>) -> bool {
    entry matches Ok(e) && e.is_file is Ok
}

/// The paths of the files among entries that could be read, in their order.
pub open spec fn file_paths(entries: Seq<Result<ListedEntry, String>>) -> Seq<Seq<char>>
    decreases entries.len(),
{
    if entries.len() == 0 {
        Seq::empty()
    } else {
        let rest = file_paths(entries.drop_last());
        match entries.last() {
            Ok(e) => if e.is_file == Ok::<bool, String>(true) {
                rest.push(e.path@)
            } else {
                rest
            },
            Err(_) => rest,
        }
    }
}

/// The error of the first entry that could not be read.
pub open spec fn listing_failure(dir: Seq<char>, entry: Result<ListedEntry, String>) -> Seq<char> {
    match entry {
        Err(reason) => FileOperation::ReadEntry.failure(dir, reason@),
        Ok(e) => match e.is_file {
            Err(reason) => FileOperation::FileType.failure(e.path@, reason@),
            Ok(_) => Seq::empty(),
        },
    }
}

/// The files among the entries of a directory; the first entry that cannot be read is an error.
pub fn list_files(dir: &str, entries: &Vec<Result<ListedEntry, String>>) -> (r: Result<
    Vec<String>,
    F4KvsError,
>)
    ensures
        match r {
            Ok(files) => {
                &&& forall|i: int| 0 <= i < entries@.len() ==> readable(#[trigger] entries@[i])
                &&& files@.map_values(|f: String| f@) == file_paths(entries@)
            },
            Err(e) => exists|k: int|
                {
                    &&& 0 <= k < entries@.len()
                    &&& !readable(#[trigger] entries@[k])
                    &&& forall|i: int| 0 <= i < k ==> readable(#[trigger] entries@[i])
                    &&& e.is_io(listing_failure(dir@, entries@[k]))
                },
        },
{
    let mut files: Vec<String> = Vec::new();
    let mut i: usize = 0;
    assert(files@.map_values(|f: String| f@) =~= file_paths(entries@.take(0)));
    while i < entries.len()
        invariant
            i <= entries@.len(),
            forall|j: int| 0 <= j < i ==> readable(#[trigger] entries@[j]),
            files@.map_values(|f: String| f@) == file_paths(entries@.take(i as int)),
        decreases entries@.len() - i,
    {
        proof {
            assert(entries@.take(i + 1).drop_last() =~= entries@.take(i as int));
            assert(entries@.take(i + 1).last() == entries@[i as int]);
        }
        match &entries[i] {
            Err(reason) => {
                let e = file_error(FileOperation::ReadEntry, dir, reason.as_str());
                assert(!readable(entries@[i as int]));
                return Err(e);
            },
            Ok(entry) => {
                match &entry.is_file {
                    Err(reason) => {
                        let e = file_error(
                            FileOperation::FileType,
                            entry.path.as_str(),
                            reason.as_str(),
                        );
                        assert(!readable(entries@[i as int]));
                        return Err(e);
                    },
                    Ok(is_file) => {
                        if *is_file {
                            let path = entry.path.clone();
                            assert(files@.push(path).map_values(|f: String| f@)
                                =~= files@.map_values(|f: String| f@).push(path@));
                            files.push(path);
                        }
                    },
                }
            },
        }
        i = i + 1;
    }
    assert(entries@.take(i as int) =~= entries@);
    Ok(files)
}

} // verus!
