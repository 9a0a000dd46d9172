use gcm::extract::{WriteFileEvent, WriteFileState, sanitize_entry_path, write_failure_error, write_file_step};
use gcm::Error;

#[test]
fn accepts_plain_file_entries() {
    assert_eq!(
        sanitize_entry_path("bin/greycat"),
        Ok(vec!["bin".to_string(), "greycat".to_string()])
    );
    assert_eq!(sanitize_entry_path("readme"), Ok(vec!["readme".to_string()]));
}

#[test]
fn accepts_directory_entries() {
    assert_eq!(
        sanitize_entry_path("lib/std/"),
        Ok(vec!["lib".to_string(), "std".to_string()])
    );
}

#[test]
fn rejects_traversal_entries() {
    for name in [
        "../evil",
        "bin/../../evil",
        "..",
        "../",
        "a/..",
        "a/../b",
    ] {
        assert_eq!(
            sanitize_entry_path(name),
            Err(Error::UnsafeArchiveEntry),
            "entry {name:?}"
        );
    }
}

#[test]
fn rejects_absolute_entries() {
    for name in ["/etc/passwd", "/", "/bin/sh"] {
        assert_eq!(
            sanitize_entry_path(name),
            Err(Error::UnsafeArchiveEntry),
            "entry {name:?}"
        );
    }
}

#[test]
fn drops_empty_and_current_directory_components() {
    assert_eq!(
        sanitize_entry_path("a//b"),
        Ok(vec!["a".to_string(), "b".to_string()])
    );
    assert_eq!(
        sanitize_entry_path("./x"),
        Ok(vec!["x".to_string()])
    );
    assert_eq!(
        sanitize_entry_path("a/./b"),
        Ok(vec!["a".to_string(), "b".to_string()])
    );
    assert_eq!(sanitize_entry_path("."), Ok(vec![]));
    assert_eq!(sanitize_entry_path(""), Ok(vec![]));
}

#[test]
fn rejects_separator_and_device_characters() {
    for name in ["a\\b", "C:evil", "nul\u{0}byte"] {
        assert_eq!(
            sanitize_entry_path(name),
            Err(Error::UnsafeArchiveEntry),
            "entry {name:?}"
        );
    }
}

#[test]
fn plain_write_path() {
    let s = write_file_step(WriteFileState::Creating, WriteFileEvent::Created);
    assert_eq!(s, WriteFileState::Copying);
    let s = write_file_step(s, WriteFileEvent::Copied);
    assert_eq!(s, WriteFileState::Done);
}

#[test]
fn busy_recovery_preserves_permission_bits() {
    let mode = 0o755;
    let s = write_file_step(WriteFileState::Creating, WriteFileEvent::CreateBusy);
    assert_eq!(s, WriteFileState::ReadingPerms);
    let s = write_file_step(s, WriteFileEvent::PermsRead(mode));
    assert_eq!(s, WriteFileState::Removing { mode });
    let s = write_file_step(s, WriteFileEvent::Removed);
    assert_eq!(s, WriteFileState::Recreating { mode });
    let s = write_file_step(s, WriteFileEvent::Recreated);
    assert_eq!(s, WriteFileState::SettingPerms { mode });
    let s = write_file_step(s, WriteFileEvent::PermsSet);
    assert_eq!(s, WriteFileState::Copying);
    let s = write_file_step(s, WriteFileEvent::Copied);
    assert_eq!(s, WriteFileState::Done);
}

#[test]
fn write_failure_maps_to_extraction_error() {
    assert_eq!(
        write_failure_error(WriteFileState::Failed),
        Some(Error::ExtractionFailed)
    );
    assert_eq!(write_failure_error(WriteFileState::Done), None);
    assert_eq!(write_failure_error(WriteFileState::Creating), None);
}

#[test]
fn io_failure_is_fatal_and_terminal() {
    let s = write_file_step(WriteFileState::Copying, WriteFileEvent::Io);
    assert_eq!(s, WriteFileState::Failed);
    let s = write_file_step(s, WriteFileEvent::Created);
    assert_eq!(s, WriteFileState::Failed);
    let done = write_file_step(WriteFileState::Done, WriteFileEvent::Io);
    assert_eq!(done, WriteFileState::Done);
}
