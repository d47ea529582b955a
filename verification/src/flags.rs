//! Parsing of raw open(2) flag bits into the handful of switches the write
//! path cares about. The bit values are the Linux generic ABI ones.

use vstd::prelude::*;

verus! {

pub const OPEN_ACCESS_READ_ONLY: i32 = 0;
pub const OPEN_ACCESS_WRITE_ONLY: i32 = 1;
pub const OPEN_ACCESS_READ_WRITE: i32 = 2;
pub const OPEN_CREATE: i32 = 64;
pub const OPEN_TRUNCATE: i32 = 512;
pub const OPEN_APPEND: i32 = 1024;
pub const OPEN_SYNC: i32 = 1052672;

/// Raw open flags plus their parsed meaning.
#[derive(Clone, Copy, Debug, PartialEq, Eq, Structural)]
pub struct OpenFlags {
    pub bits: i32,
    pub read: bool,
    pub write: bool,
    pub create: bool,
    pub append: bool,
    pub truncate: bool,
    pub sync: bool,
}

/// What each parsed switch means in terms of the raw bits.
pub open spec fn spec_parse_flags(bits: i32) -> OpenFlags {
    OpenFlags {
        bits,
        read: bits & OPEN_ACCESS_WRITE_ONLY == OPEN_ACCESS_READ_ONLY
            || bits & OPEN_ACCESS_READ_WRITE == OPEN_ACCESS_READ_WRITE,
        write: bits & OPEN_ACCESS_WRITE_ONLY != 0
            || bits & OPEN_ACCESS_READ_WRITE == OPEN_ACCESS_READ_WRITE,
        create: bits & OPEN_CREATE == OPEN_CREATE,
        append: bits & OPEN_APPEND == OPEN_APPEND,
        truncate: bits & OPEN_TRUNCATE == OPEN_TRUNCATE,
        sync: bits & OPEN_SYNC == OPEN_SYNC,
    }
}

impl core::convert::From<i32> for OpenFlags {
    /// Parse raw open(2) flag bits.
    fn from(bits: i32) -> (r: OpenFlags) {
        let read = bits & OPEN_ACCESS_WRITE_ONLY == OPEN_ACCESS_READ_ONLY
            || bits & OPEN_ACCESS_READ_WRITE == OPEN_ACCESS_READ_WRITE;
        let write = bits & OPEN_ACCESS_WRITE_ONLY != 0
            || bits & OPEN_ACCESS_READ_WRITE == OPEN_ACCESS_READ_WRITE;
        let create = bits & OPEN_CREATE == OPEN_CREATE;
        let append = bits & OPEN_APPEND == OPEN_APPEND;
        let truncate = bits & OPEN_TRUNCATE == OPEN_TRUNCATE;
        let sync = bits & OPEN_SYNC == OPEN_SYNC;
        OpenFlags { bits, read, write, create, append, truncate, sync }
    }
}

impl vstd::std_specs::convert::FromSpecImpl<i32> for OpenFlags {
    open spec fn obeys_from_spec() -> bool {
        true
    }

    open spec fn from_spec(bits: i32) -> OpenFlags {
        spec_parse_flags(bits)
    }
}

} // verus!
