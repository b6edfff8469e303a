//! Filesystem utilities for a build orchestrator: lexical path
//! absolutization, mtime-based staleness checks, and directory aliasing
//! (symbolic links on POSIX, NTFS junctions on Windows).
//!
//! All decision logic lives here and is verified; the thin layer that
//! actually touches the operating system lives outside the library and
//! hands plain values in and out.

use vstd::prelude::*;

pub mod alias;
pub mod path_resolve;
pub mod staleness;
pub mod util;

verus! {

/// The error kinds the library's operations surface.
#[derive(Clone, Copy, Debug, PartialEq, Eq, Structural)]
pub enum Error {
    /// An empty path was given to absolutization.
    InvalidInput,
    /// An OS call failed; carries the platform error code.
    OsError(i32),
    /// Metadata for an entry inside a source directory tree could not be
    /// read during a staleness check; fatal for the whole check.
    MetadataUnreadable,
}

} // verus!
