//! Rules of reading and writing whole files.

use f4kvs_lsm::file_io::{
    atomic_write, file_error, list_files, AtomicStep, AtomicWrite, FileOperation, ListedEntry,
};

fn entry(path: &str, is_file: Result<bool, String>) -> Result<ListedEntry, String> {
    Ok(ListedEntry { path: path.to_string(), is_file })
}

#[test]
fn the_target_is_replaced_only_by_a_whole_file() {
    assert!(matches!(atomic_write(AtomicWrite::Writing, "a", "a.tmp", Ok(())), AtomicStep::Move));
    assert!(matches!(atomic_write(AtomicWrite::Moving, "a", "a.tmp", Ok(())), AtomicStep::Done));
    match atomic_write(AtomicWrite::Writing, "a", "a.tmp", Err("full".to_string())) {
        AtomicStep::Fail(e) => assert_eq!(
            e.to_text(),
            "I/O error: Failed to write to temporary file a.tmp: full"
        ),
        other => panic!("{other:?}"),
    }
    match atomic_write(AtomicWrite::Moving, "a", "a.tmp", Err("busy".to_string())) {
        AtomicStep::RemoveAndFail(e) => assert_eq!(
            e.to_text(),
            "I/O error: Failed to move temporary file to a: busy"
        ),
        other => panic!("{other:?}"),
    }
}

#[test]
fn only_files_are_listed() {
    let files = list_files(
        "d",
        &vec![entry("d/x", Ok(true)), entry("d/sub", Ok(false)), entry("d/y", Ok(true))],
    );
    assert_eq!(files.unwrap(), vec!["d/x".to_string(), "d/y".to_string()]);
    assert_eq!(list_files("d", &Vec::new()).unwrap(), Vec::<String>::new());
}

#[test]
fn the_first_unreadable_entry_ends_a_listing() {
    let e = list_files("d", &vec![entry("d/x", Ok(true)), Err("gone".to_string())]).unwrap_err();
    assert_eq!(e.to_text(), "I/O error: Failed to read directory entry in d: gone");
    let e = list_files(
        "d",
        &vec![entry("d/x", Err("odd".to_string())), Err("gone".to_string())],
    )
    .unwrap_err();
    assert_eq!(e.to_text(), "I/O error: Failed to get file type for d/x: odd");
}

#[test]
fn errors_say_what_failed_and_where() {
    let said = [
        (FileOperation::CreateDirectory, "Failed to create directory p: r"),
        (FileOperation::ReadFile, "Failed to read file p: r"),
        (FileOperation::Metadata, "Failed to get metadata for p: r"),
        (FileOperation::RemoveFile, "Failed to remove file p: r"),
        (FileOperation::ReadDirectory, "Failed to read directory p: r"),
    ];
    for (operation, text) in said {
        assert_eq!(file_error(operation, "p", "r").to_text(), format!("I/O error: {text}"));
    }
}
