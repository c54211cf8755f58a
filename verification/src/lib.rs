//! Workspace tree builder for a note-taking application.
//!
//! The library turns a snapshot of a directory tree into an ordered forest of
//! [`types::FileEntry`] nodes for display: hidden entries (names starting with
//! `.`) are skipped, only `.md` files are kept, every folder is kept even when
//! it ends up empty, and at each level folders sort before files with names
//! compared case-insensitively.
//!
//! Reading the snapshot off the real filesystem is the caller's concern; the
//! scan itself is pure and fully verified against the model in [`model`].

pub mod model;
pub mod order;
pub mod types;
pub mod workspace;
