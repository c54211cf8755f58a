use cinder::types::{ErrorCode, WorkspaceError};
use cinder::workspace::validate_workspace_path;

#[test]
fn missing_root_is_rejected_as_not_found() {
    let r = validate_workspace_path("/ws/missing", false, false);
    let e = r.unwrap_err();
    assert_eq!(e.code, ErrorCode::NotFound);
    assert_eq!(e.message, "/ws/missing");
}

#[test]
fn regular_file_root_is_rejected_as_not_a_directory() {
    let r = validate_workspace_path("/ws/note.md", true, false);
    let e = r.unwrap_err();
    assert_eq!(e.code, ErrorCode::NotADirectory);
    assert_eq!(e.message, "/ws/note.md");
}

#[test]
fn existing_directory_root_is_accepted() {
    let r = validate_workspace_path("/ws", true, true);
    assert!(r.is_ok());
}

#[test]
fn error_constructors_tag_their_category() {
    let e = WorkspaceError::not_found("/p");
    assert_eq!(e.code, ErrorCode::NotFound);
    assert_eq!(e.message, "/p");

    let e = WorkspaceError::not_a_directory("/p");
    assert_eq!(e.code, ErrorCode::NotADirectory);
    assert_eq!(e.message, "/p");

    let e = WorkspaceError::permission_denied("/p");
    assert_eq!(e.code, ErrorCode::PermissionDenied);
    assert_eq!(e.message, "/p");

    let e = WorkspaceError::directory_read_failed("/p");
    assert_eq!(e.code, ErrorCode::DirectoryReadFailed);
    assert_eq!(e.message, "/p");

    let e = WorkspaceError::metadata_read_failed("/p");
    assert_eq!(e.code, ErrorCode::MetadataReadFailed);
    assert_eq!(e.message, "/p");

    let e = WorkspaceError::io_error("disk gone".to_string());
    assert_eq!(e.code, ErrorCode::IoError);
    assert_eq!(e.message, "disk gone");
}
