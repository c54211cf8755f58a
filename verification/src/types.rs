//! Data types of the workspace scanner: snapshot nodes, result entries and
//! the error type shared by all workspace operations.

use vstd::prelude::*;

verus! {

/// Whether a result entry stands for a note file or for a folder.
#[derive(Clone, Copy, PartialEq, Eq, Structural, Debug)]
pub enum EntryKind {
    File,
    Folder,
}

/// A snapshot of one filesystem entry below a workspace root: its absolute
/// path, its final name segment and, for a directory, snapshots of its
/// immediate contents.
///
/// The scan works on such snapshots; reading them off the real filesystem is
/// the caller's concern, so the verified logic never touches the disk.
#[derive(Debug)]
pub enum FsNode {
    File { path: String, name: String },
    Dir { path: String, name: String, entries: Vec<FsNode> },
}

/// One node of the forest produced by a workspace scan.
///
/// `id` always equals `path` (the absolute path doubles as the stable key),
/// `name` is the final path segment, and `children` is present exactly for
/// folders — a folder with nothing kept below it carries `Some` of an empty
/// vector, never `None`.
#[derive(Debug)]
pub struct FileEntry {
    /// Stable key; equal to `path`.
    pub id: String,
    /// Display name: the final path segment.
    pub name: String,
    /// Whether this entry is a file or a folder.
    pub entry_type: EntryKind,
    /// Absolute path of the entry.
    pub path: String,
    /// Ordered child entries; present exactly when `entry_type` is `Folder`.
    pub children: Option<Vec<FileEntry>>,
}

impl FileEntry {
    /// Build a file entry for a note at `path` named `name`.
    pub fn new_file(path: String, name: String) -> (r: FileEntry)
        ensures
            r.id == path,
            r.name == name,
            r.entry_type == EntryKind::File,
            r.path == path,
            r.children is None,
    {
        let id = path.clone();
        FileEntry { id, name, entry_type: EntryKind::File, path, children: None }
    }

    /// Build a folder entry at `path` named `name` with the given ordered
    /// children.
    pub fn new_folder(path: String, name: String, children: Vec<FileEntry>) -> (r: FileEntry)
        ensures
            r.id == path,
            r.name == name,
            r.entry_type == EntryKind::Folder,
            r.path == path,
            r.children == Some(children),
    {
        let id = path.clone();
        FileEntry { id, name, entry_type: EntryKind::Folder, path, children: Some(children) }
    }
}

/// The category of a workspace failure.
#[derive(Clone, Copy, PartialEq, Eq, Structural, Debug)]
pub enum ErrorCode {
    /// The workspace root does not exist.
    NotFound,
    /// The workspace root exists but is not a directory.
    NotADirectory,
    /// An operation was refused by the filesystem's permissions.
    PermissionDenied,
    /// Listing a directory's contents failed.
    DirectoryReadFailed,
    /// Reading the type of one directory entry failed.
    MetadataReadFailed,
    /// Any other input/output failure.
    IoError,
}

/// An error surfaced by a workspace operation: a tagged category together
/// with the offending path (or, for raw I/O failures, a free message).
#[derive(Debug, Clone)]
pub struct WorkspaceError {
    /// The offending path, or a description of the underlying failure.
    pub message: String,
    /// The failure category a caller can branch on.
    pub code: ErrorCode,
}

impl WorkspaceError {
    /// The root path does not exist.
    pub fn not_found(path: &str) -> (r: WorkspaceError)
        ensures
            r.code == ErrorCode::NotFound,
            r.message@ == path@,
    {
        WorkspaceError { message: path.to_owned(), code: ErrorCode::NotFound }
    }

    /// The root path exists but is not a directory.
    pub fn not_a_directory(path: &str) -> (r: WorkspaceError)
        ensures
            r.code == ErrorCode::NotADirectory,
            r.message@ == path@,
    {
        WorkspaceError { message: path.to_owned(), code: ErrorCode::NotADirectory }
    }

    /// The filesystem refused an operation on `path`.
    pub fn permission_denied(path: &str) -> (r: WorkspaceError)
        ensures
            r.code == ErrorCode::PermissionDenied,
            r.message@ == path@,
    {
        WorkspaceError { message: path.to_owned(), code: ErrorCode::PermissionDenied }
    }

    /// Listing the contents of the directory at `path` failed.
    pub fn directory_read_failed(path: &str) -> (r: WorkspaceError)
        ensures
            r.code == ErrorCode::DirectoryReadFailed,
            r.message@ == path@,
    {
        WorkspaceError { message: path.to_owned(), code: ErrorCode::DirectoryReadFailed }
    }

    /// Reading the metadata of the entry at `path` failed.
    pub fn metadata_read_failed(path: &str) -> (r: WorkspaceError)
        ensures
            r.code == ErrorCode::MetadataReadFailed,
            r.message@ == path@,
    {
        WorkspaceError { message: path.to_owned(), code: ErrorCode::MetadataReadFailed }
    }

    /// Any other input/output failure, described by `message`.
    pub fn io_error(message: String) -> (r: WorkspaceError)
        ensures
            r.code == ErrorCode::IoError,
            r.message == message,
    {
        WorkspaceError { message, code: ErrorCode::IoError }
    }
}

} // verus!
