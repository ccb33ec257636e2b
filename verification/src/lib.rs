//! A vault scanner for a note-taking companion: it walks a user-chosen
//! directory for markdown files, skipping hidden directories and following
//! symlinks, and reports each file's path, title and root-relative path.
//! Beside it stand the decisions behind opening or revealing a file through
//! an external process.

pub mod opener;
pub mod paths;
pub mod scan;

pub use opener::{open_outcome, reveal_outcome, LaunchStatus, OpenError};
pub use scan::{scan_from, scan_vault, MarkdownFile, ScanError, WalkEntry};
