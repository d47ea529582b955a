//! Open-file handles and the process-local table that owns them: a dense
//! slot array addressed by small integers, with a free-list of vacated
//! indices. A handle identifier is valid only while its slot is occupied,
//! and is never live for two opens at once.

use vstd::prelude::*;

use crate::errors::FsError;
use crate::flags::OpenFlags;
use crate::types::MAX_FILE_SIZE;

verus! {

/// How many bytes a handle's write buffer accumulates before the write path
/// flushes it to the block store: one full content block.
pub const WRITE_BUFFER_CAPACITY: u64 = 131072;

/// The state carried across calls for one open file: the seek cursor, the
/// size observed at open (the seek-from-end cache), the parsed open flags,
/// and the write buffer with the file offset its first byte belongs at.
#[derive(Debug)]
pub struct FileHandle {
    pub ino: u64,
    pub offset: u64,
    pub end_offset: u64,
    pub flags: OpenFlags,
    pub buffer: Vec<u8>,
    pub buffer_offset: u64,
}

impl FileHandle {
    /// Where the next sequential write would land: just past the buffered
    /// bytes.
    pub open spec fn write_cursor(self) -> int {
        self.buffer_offset + self.buffer@.len()
    }

    pub open spec fn wf(self) -> bool {
        &&& self.buffer_offset + self.buffer@.len() <= MAX_FILE_SIZE
        &&& self.buffer@.len() <= WRITE_BUFFER_CAPACITY
    }

    /// A fresh handle: cursor at the start, buffer empty, end-of-file cache
    /// seeded with the file's size at open.
    pub fn new(ino: u64, size: u64, flags: OpenFlags) -> (h: FileHandle)
        ensures
            h.wf(),
            h.ino == ino,
            h.offset == 0,
            h.end_offset == size,
            h.flags == flags,
            h.buffer@ =~= Seq::<u8>::empty(),
            h.buffer_offset == 0,
    {
        FileHandle { ino, offset: 0, end_offset: size, flags, buffer: Vec::new(), buffer_offset: 0 }
    }

    /// The file offset the next sequential write would continue at.
    pub fn write_offset(&self) -> (r: u64)
        requires
            self.wf(),
        ensures
            r == self.write_cursor(),
    {
        self.buffer_offset + self.buffer.len() as u64
    }

    /// Whether the buffer has reached its flush threshold.
    pub fn buffer_full(&self) -> (r: bool)
        requires
            self.wf(),
        ensures
            r == (self.buffer@.len() >= WRITE_BUFFER_CAPACITY),
    {
        self.buffer.len() as u64 >= WRITE_BUFFER_CAPACITY
    }

    /// Re-tag the empty buffer at a new starting offset.
    pub fn seek_to(&mut self, offset: u64)
        requires
            old(self).wf(),
            old(self).buffer@.len() == 0,
            offset <= MAX_FILE_SIZE,
        ensures
            final(self).wf(),
            *final(self) == (FileHandle { buffer_offset: offset, ..*old(self) }),
    {
        self.buffer_offset = offset;
    }

    /// Append input bytes from `data[from..]` to the buffer, up to its
    /// capacity; returns how many were taken (at least one).
    pub fn consume_input(&mut self, data: &Vec<u8>, from: usize) -> (consumed: usize)
        requires
            old(self).wf(),
            from < data@.len(),
            old(self).buffer@.len() < WRITE_BUFFER_CAPACITY,
            // the caller has bounded the whole write, so whatever fits the
            // buffer keeps the cursor within the file-size limit
            old(self).buffer_offset + old(self).buffer@.len() + (data@.len() - from)
                <= MAX_FILE_SIZE,
        ensures
            final(self).wf(),
            consumed == vstd::math::min(
                WRITE_BUFFER_CAPACITY as int - old(self).buffer@.len() as int,
                data@.len() - from,
            ),
            1 <= consumed,
            final(self).buffer@ =~= old(self).buffer@ + data@.subrange(
                from as int,
                from + consumed,
            ),
            final(self).buffer_offset == old(self).buffer_offset,
            final(self).ino == old(self).ino,
            final(self).offset == old(self).offset,
            final(self).end_offset == old(self).end_offset,
            final(self).flags == old(self).flags,
    {
        let room = (WRITE_BUFFER_CAPACITY - self.buffer.len() as u64) as usize;
        let avail = data.len() - from;
        let n = if room <= avail {
            room
        } else {
            avail
        };
        let mut k: usize = 0;
        while k < n
            invariant
                old(self).wf(),
                from + n <= data@.len(),
                data@.len() <= usize::MAX,
                old(self).buffer@.len() + n <= WRITE_BUFFER_CAPACITY,
                old(self).buffer_offset + old(self).buffer@.len() + n <= MAX_FILE_SIZE,
                k <= n,
                self.buffer@ =~= old(self).buffer@ + data@.subrange(from as int, from + k as int),
                self.buffer_offset == old(self).buffer_offset,
                self.ino == old(self).ino,
                self.offset == old(self).offset,
                self.end_offset == old(self).end_offset,
                self.flags == old(self).flags,
            decreases n - k,
        {
            self.buffer.push(data[from + k]);
            k = k + 1;
        }
        n
    }

    /// Empty the buffer after a flush and move the cursor past what was
    /// written.
    pub fn clear_buffer(&mut self)
        requires
            old(self).wf(),
        ensures
            final(self).wf(),
            final(self).buffer@ =~= Seq::<u8>::empty(),
            final(self).buffer_offset == old(self).write_cursor(),
            final(self).ino == old(self).ino,
            final(self).offset == old(self).offset,
            final(self).end_offset == old(self).end_offset,
            final(self).flags == old(self).flags,
    {
        self.buffer_offset = self.buffer_offset + self.buffer.len() as u64;
        self.buffer.clear();
    }
}

/// The table of live handles: slot array plus free-list.
#[derive(Debug)]
pub struct HandleTable {
    pub slots: Vec<Option<FileHandle>>,
    pub free: Vec<usize>,
}

impl HandleTable {
    /// Whether a handle identifier currently names a live open.
    pub open spec fn live(self, fh: int) -> bool {
        0 <= fh < self.slots@.len() && self.slots@[fh] is Some
    }

    pub open spec fn handle_of(self, fh: int) -> FileHandle {
        self.slots@[fh]->Some_0
    }

    /// All other identifiers keep their state and their handle.
    pub open spec fn others_unchanged(pre: HandleTable, post: HandleTable, fh: int) -> bool {
        forall|k: int|
            k != fh ==> (post.live(k) == pre.live(k)) && (pre.live(k) ==> post.handle_of(k)
                == pre.handle_of(k))
    }

    pub open spec fn wf(self) -> bool {
        &&& forall|j: int|
            0 <= j < self.free@.len() ==> (#[trigger] self.free@[j]) < self.slots@.len()
                && self.slots@[self.free@[j] as int] is None
        &&& forall|i: int, j: int|
            0 <= i < j < self.free@.len() ==> (#[trigger] self.free@[i]) != (
            #[trigger] self.free@[j])
        &&& forall|fh: int| self.live(fh) ==> (#[trigger] self.handle_of(fh)).wf()
    }

    pub fn new() -> (r: HandleTable)
        ensures
            r.wf(),
            forall|fh: int| !r.live(fh),
    {
        HandleTable { slots: Vec::new(), free: Vec::new() }
    }

    /// Put a handle into a vacant slot, reusing a vacated index when one is
    /// free, and hand back its identifier.
    #[verifier::rlimit(50)]
    pub fn insert(&mut self, h: FileHandle) -> (fh: usize)
        requires
            old(self).wf(),
            h.wf(),
        ensures
            final(self).wf(),
            !old(self).live(fh as int),
            final(self).live(fh as int),
            final(self).handle_of(fh as int) == h,
            HandleTable::others_unchanged(*old(self), *final(self), fh as int),
    {
        match self.free.pop() {
            Some(fh) => {
                proof {
                    let n = old(self).free@.len() as int;
                    assert(fh == old(self).free@[n - 1]);
                }
                self.slots.set(fh, Some(h));
                proof {
                    let n = old(self).free@.len() as int;
                    assert forall|j: int|
                        0 <= j < self.free@.len() implies (#[trigger] self.free@[j])
                        < self.slots@.len() && self.slots@[self.free@[j] as int] is None by {
                        assert(self.free@[j] == old(self).free@[j]);
                        assert(old(self).free@[j] != old(self).free@[n - 1]);
                    }
                    assert forall|i: int, j: int|
                        0 <= i < j < self.free@.len() implies (#[trigger] self.free@[i]) != (
                    #[trigger] self.free@[j]) by {
                        assert(self.free@[i] == old(self).free@[i]);
                        assert(self.free@[j] == old(self).free@[j]);
                    }
                    assert forall|k: int| self.live(k) implies (
                    #[trigger] self.handle_of(k)).wf() by {
                        if k == fh as int {
                            assert(self.handle_of(k) == h);
                        } else {
                            assert(self.slots@[k] == old(self).slots@[k]);
                            assert(old(self).live(k));
                            assert(old(self).handle_of(k) == self.handle_of(k));
                        }
                    }
                }
                fh
            },
            None => {
                let fh = self.slots.len();
                self.slots.push(Some(h));
                proof {
                    assert forall|j: int|
                        0 <= j < self.free@.len() implies (#[trigger] self.free@[j])
                        < self.slots@.len() && self.slots@[self.free@[j] as int] is None by {
                        assert(old(self).free@[j] == self.free@[j]);
                    }
                    assert forall|k: int| self.live(k) implies (
                    #[trigger] self.handle_of(k)).wf() by {
                        if k == fh as int {
                            assert(self.handle_of(k) == h);
                        } else {
                            assert(self.slots@[k] == old(self).slots@[k]);
                            assert(old(self).live(k));
                            assert(old(self).handle_of(k) == self.handle_of(k));
                        }
                    }
                }
                fh
            },
        }
    }

    /// Take the handle out of its slot to operate on it, leaving the slot
    /// reserved (not on the free-list) so the identifier stays claimed.
    #[verifier::rlimit(50)]
    pub fn take(&mut self, fh: usize) -> (r: Result<FileHandle, FsError>)
        requires
            old(self).wf(),
        ensures
            final(self).wf(),
            r is Ok <==> old(self).live(fh as int),
            r is Err ==> r->Err_0 == FsError::NotFound && *final(self) == *old(self),
            r is Ok ==> r->Ok_0 == old(self).handle_of(fh as int) && (r->Ok_0).wf(),
            r is Ok ==> !final(self).live(fh as int) && fh < final(self).slots@.len(),
            r is Ok ==> (forall|j: int|
                0 <= j < final(self).free@.len() ==> (#[trigger] final(self).free@[j]) != fh),
            r is Ok ==> HandleTable::others_unchanged(*old(self), *final(self), fh as int),
    {
        if fh >= self.slots.len() {
            return Err(FsError::NotFound);
        }
        if self.slots[fh].is_none() {
            return Err(FsError::NotFound);
        }
        let mut slot: Option<FileHandle> = None;
        core::mem::swap(&mut self.slots[fh], &mut slot);
        proof {
            assert(self.slots@ == old(self).slots@.update(fh as int, None::<FileHandle>));
            assert(slot == old(self).slots@[fh as int]);
            assert(old(self).live(fh as int));
            assert(old(self).handle_of(fh as int).wf());
            assert forall|j: int|
                0 <= j < self.free@.len() implies (#[trigger] self.free@[j]) < self.slots@.len()
                    && self.slots@[self.free@[j] as int] is None && self.free@[j] != fh by {
                assert(self.free@[j] == old(self).free@[j]);
                assert(old(self).slots@[old(self).free@[j] as int] is None);
            }
            assert forall|k: int| self.live(k) implies (#[trigger] self.handle_of(k)).wf() by {
                assert(k != fh as int);
                assert(self.slots@[k] == old(self).slots@[k]);
                assert(old(self).live(k));
                assert(old(self).handle_of(k) == self.handle_of(k));
            }
        }
        match slot {
            Some(h) => Ok(h),
            None => Err(FsError::NotFound),
        }
    }

    /// Put a handle back into the slot `take` emptied for it.
    #[verifier::rlimit(50)]
    pub fn restore(&mut self, fh: usize, h: FileHandle)
        requires
            old(self).wf(),
            h.wf(),
            fh < old(self).slots@.len(),
            !old(self).live(fh as int),
            forall|j: int| 0 <= j < old(self).free@.len() ==> (#[trigger] old(self).free@[j]) != fh,
        ensures
            final(self).wf(),
            final(self).live(fh as int),
            final(self).handle_of(fh as int) == h,
            HandleTable::others_unchanged(*old(self), *final(self), fh as int),
    {
        self.slots.set(fh, Some(h));
        proof {
            assert(self.slots@ == old(self).slots@.update(fh as int, Some(h)));
            assert forall|j: int|
                0 <= j < self.free@.len() implies (#[trigger] self.free@[j]) < self.slots@.len()
                    && self.slots@[self.free@[j] as int] is None by {
                assert(self.free@[j] == old(self).free@[j]);
                assert(old(self).free@[j] != fh);
                assert(old(self).slots@[old(self).free@[j] as int] is None);
            }
            assert forall|k: int| self.live(k) implies (#[trigger] self.handle_of(k)).wf() by {
                if k == fh as int {
                    assert(self.handle_of(k) == h);
                } else {
                    assert(self.slots@[k] == old(self).slots@[k]);
                    assert(old(self).live(k));
                    assert(old(self).handle_of(k) == self.handle_of(k));
                }
            }
        }
    }

    /// Retire a handle identifier for good: vacate the slot and put its
    /// index on the free-list for reuse by a later open.
    #[verifier::rlimit(50)]
    pub fn release(&mut self, fh: usize) -> (r: Result<FileHandle, FsError>)
        requires
            old(self).wf(),
        ensures
            final(self).wf(),
            r is Ok <==> old(self).live(fh as int),
            r is Err ==> r->Err_0 == FsError::NotFound && *final(self) == *old(self),
            r is Ok ==> r->Ok_0 == old(self).handle_of(fh as int) && (r->Ok_0).wf(),
            r is Ok ==> !final(self).live(fh as int),
            r is Ok ==> HandleTable::others_unchanged(*old(self), *final(self), fh as int),
    {
        let h = match self.take(fh) {
            Ok(h) => h,
            Err(e) => { return Err(e); },
        };
        let ghost mid = *self;
        self.free.push(fh);
        proof {
            let n = mid.free@.len() as int;
            assert forall|j: int|
                0 <= j < self.free@.len() implies (#[trigger] self.free@[j]) < self.slots@.len()
                    && self.slots@[self.free@[j] as int] is None by {
                if j < n {
                    assert(self.free@[j] == mid.free@[j]);
                } else {
                    assert(self.free@[j] == fh);
                    assert(!mid.live(fh as int));
                }
            }
            assert forall|i: int, j: int|
                0 <= i < j < self.free@.len() implies (#[trigger] self.free@[i]) != (
            #[trigger] self.free@[j]) by {
                assert(self.free@[i] == mid.free@[i]);
                if j < n {
                    assert(self.free@[j] == mid.free@[j]);
                } else {
                    assert(self.free@[j] == fh);
                    assert(mid.free@[i] != fh);
                }
            }
            assert forall|k: int| self.live(k) implies (#[trigger] self.handle_of(k)).wf() by {
                assert(self.slots@[k] == mid.slots@[k]);
                assert(mid.live(k));
                assert(mid.handle_of(k) == self.handle_of(k));
            }
        }
        Ok(h)
    }
}

} // verus!
