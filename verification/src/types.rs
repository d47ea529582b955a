//! Plain data types of the filesystem schema: object kinds, timestamps and
//! the per-object attribute record.

use vstd::prelude::*;

verus! {

/// Reporting unit for the `blocks` attribute field, as `stat` convention has it.
pub const POSIX_BLOCK_SIZE: u64 = 512;

/// Upper bound on a file's byte size accepted by this layer; keeps every byte
/// index within `usize` range on any machine the crate compiles for.
pub const MAX_FILE_SIZE: u64 = 0xFFFF_FFFF;

/// Kind bits of a mode word, as POSIX `S_IFMT` and friends have them.
pub const MODE_KIND_MASK: u32 = 0o17_0000;
pub const MODE_KIND_FIFO: u32 = 0o1_0000;
pub const MODE_KIND_CHAR_DEVICE: u32 = 0o2_0000;
pub const MODE_KIND_DIRECTORY: u32 = 0o4_0000;
pub const MODE_KIND_BLOCK_DEVICE: u32 = 0o6_0000;
pub const MODE_KIND_REGULAR_FILE: u32 = 0o10_0000;
pub const MODE_KIND_SYMLINK: u32 = 0o12_0000;
pub const MODE_KIND_SOCKET: u32 = 0o14_0000;

/// What a filesystem object is.
#[derive(Clone, Copy, Debug, PartialEq, Eq, Structural)]
pub enum FileKind {
    RegularFile,
    Directory,
    Symlink,
    CharDevice,
    BlockDevice,
    NamedPipe,
    Socket,
}

/// A timestamp as a (seconds, nanoseconds) pair.
#[derive(Clone, Copy, Debug, PartialEq, Eq, Structural)]
pub struct TimeSpec {
    pub secs: u64,
    pub nanos: u32,
}

/// One inode record: the metadata of a filesystem object, keyed by `ino`.
/// `ino` 0 is the "not yet assigned" sentinel; 1 is the root directory.
#[derive(Clone, Copy, Debug, PartialEq, Eq, Structural)]
pub struct FileAttr {
    pub ino: u64,
    pub size: u64,
    pub blocks: u64,
    pub atime: TimeSpec,
    pub mtime: TimeSpec,
    pub ctime: TimeSpec,
    pub crtime: TimeSpec,
    pub kind: FileKind,
    pub perm: u16,
    pub nlink: u32,
    pub uid: u32,
    pub gid: u32,
    pub rdev: u32,
    pub blksize: u32,
    pub flags: u32,
}

/// The caller identity and clock reading that accompany a kernel request.
#[derive(Clone, Copy, Debug, PartialEq, Eq, Structural)]
pub struct RequestInfo {
    pub uid: u32,
    pub gid: u32,
    pub now: TimeSpec,
}

/// The kind encoded in a mode word, if its kind bits name one.
pub open spec fn spec_kind_from_mode(mode: u32) -> Option<FileKind> {
    let bits = mode & MODE_KIND_MASK;
    if bits == MODE_KIND_REGULAR_FILE {
        Some(FileKind::RegularFile)
    } else if bits == MODE_KIND_DIRECTORY {
        Some(FileKind::Directory)
    } else if bits == MODE_KIND_SYMLINK {
        Some(FileKind::Symlink)
    } else if bits == MODE_KIND_CHAR_DEVICE {
        Some(FileKind::CharDevice)
    } else if bits == MODE_KIND_BLOCK_DEVICE {
        Some(FileKind::BlockDevice)
    } else if bits == MODE_KIND_FIFO {
        Some(FileKind::NamedPipe)
    } else if bits == MODE_KIND_SOCKET {
        Some(FileKind::Socket)
    } else {
        None
    }
}

impl FileKind {
    /// Decode the kind bits of a mode word.
    pub fn from_mode(mode: u32) -> (r: Option<FileKind>)
        ensures
            r == spec_kind_from_mode(mode),
    {
        let bits = mode & MODE_KIND_MASK;
        if bits == MODE_KIND_REGULAR_FILE {
            Some(FileKind::RegularFile)
        } else if bits == MODE_KIND_DIRECTORY {
            Some(FileKind::Directory)
        } else if bits == MODE_KIND_SYMLINK {
            Some(FileKind::Symlink)
        } else if bits == MODE_KIND_CHAR_DEVICE {
            Some(FileKind::CharDevice)
        } else if bits == MODE_KIND_BLOCK_DEVICE {
            Some(FileKind::BlockDevice)
        } else if bits == MODE_KIND_FIFO {
            Some(FileKind::NamedPipe)
        } else if bits == MODE_KIND_SOCKET {
            Some(FileKind::Socket)
        } else {
            None
        }
    }
}

/// `ceil(size / POSIX_BLOCK_SIZE)`: the value of the `blocks` attribute field
/// that a given byte size dictates.
pub open spec fn spec_block_count(size: u64) -> int {
    (size + POSIX_BLOCK_SIZE - 1) as int / POSIX_BLOCK_SIZE as int
}

/// Recompute the 512-byte block count an inode reports for a byte size.
pub fn block_count_of(size: u64) -> (r: u64)
    requires
        size <= MAX_FILE_SIZE,
    ensures
        r == spec_block_count(size),
{
    (size + (POSIX_BLOCK_SIZE - 1)) / POSIX_BLOCK_SIZE
}

} // verus!
