//! Error kinds of the filesystem layer. Each maps to a stable status code at
//! the kernel boundary (done outside this crate).

use vstd::prelude::*;

verus! {

/// Why a filesystem operation failed.
#[derive(Clone, Copy, Debug, PartialEq, Eq, Structural)]
pub enum FsError {
    /// A missing inode, directory entry or open handle.
    NotFound,
    /// A directory-entry collision.
    AlreadyExists,
    /// Removal of a directory that still has entries.
    NotEmpty,
    /// Unparseable mode bits, an out-of-range seek, or bad flags.
    InvalidArgument,
    /// Numeric conversion failure: identifier exhaustion, offset too large.
    Overflow,
    /// A transaction of the underlying store could not commit.
    StorageFailure,
}

} // verus!
