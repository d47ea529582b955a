//! Content blocks of one file: an unbounded byte stream mapped onto
//! fixed-capacity, independently addressable blocks. Byte `i` of the stream
//! lives in block `i / BLOCK_SIZE` at intra-block offset `i % BLOCK_SIZE`;
//! every block but the last is kept full, and the last is never empty, so the
//! stored blocks never reach past the file's size.

use vstd::arithmetic::div_mod::{
    lemma_div_pos_is_pos, lemma_fundamental_div_mod, lemma_fundamental_div_mod_converse,
    lemma_mod_bound,
};
use vstd::prelude::*;

use crate::types::MAX_FILE_SIZE;

verus! {

/// Maximum payload of one content block: the negotiated maximum transfer
/// size of the kernel interface (128 KiB).
pub const BLOCK_SIZE: u64 = 131072;

/// The blocks of one file's content, in block-number order.
#[derive(Debug)]
pub struct FileContent {
    pub blocks: Vec<Vec<u8>>,
}

/// `data` overlaid onto `content` at byte `offset`: bytes of the gap between
/// the end of `content` and `offset` (if any) read as zero, and the result
/// keeps whatever of `content` the write does not cover.
pub open spec fn spec_overlay(content: Seq<u8>, offset: int, data: Seq<u8>) -> Seq<u8> {
    let new_len = if content.len() >= offset + data.len() {
        content.len() as int
    } else {
        offset + data.len()
    };
    Seq::new(
        new_len as nat,
        |i: int|
            if offset <= i < offset + data.len() {
                data[i - offset]
            } else if i < content.len() {
                content[i]
            } else {
                0u8
            },
    )
}

/// Overlaying nothing at an offset inside the stream changes nothing.
pub proof fn lemma_overlay_empty(c: Seq<u8>, o: int)
    requires
        0 <= o <= c.len(),
    ensures
        spec_overlay(c, o, Seq::<u8>::empty()) =~= c,
{
}

/// Two consecutive overlays are one: laying down `b` at `o` and then `chunk`
/// right after it is the same as laying down `b + chunk` at `o`.
pub proof fn lemma_overlay_append(c: Seq<u8>, o: int, b: Seq<u8>, chunk: Seq<u8>)
    requires
        0 <= o,
    ensures
        spec_overlay(c, o, b + chunk) =~= spec_overlay(spec_overlay(c, o, b), o + b.len(), chunk),
{
    let lhs = spec_overlay(c, o, b + chunk);
    let inner = spec_overlay(c, o, b);
    let rhs = spec_overlay(inner, o + b.len(), chunk);
    assert(lhs.len() == rhs.len());
    assert forall|i: int| 0 <= i < lhs.len() implies lhs[i] == rhs[i] by {
        if o <= i < o + b.len() + chunk.len() {
            if i < o + b.len() {
                assert((b + chunk)[i - o] == b[i - o]);
            } else {
                assert((b + chunk)[i - o] == chunk[i - o - b.len()]);
            }
        }
    }
}

impl FileContent {
    /// Total number of content bytes held by the blocks.
    pub open spec fn size(self) -> int {
        if self.blocks@.len() == 0 {
            0
        } else {
            (self.blocks@.len() - 1) * (BLOCK_SIZE as int) + self.blocks@.last()@.len()
        }
    }

    /// Dense layout: all blocks full but the last, which is never empty.
    pub open spec fn wf(self) -> bool {
        &&& forall|i: int|
            0 <= i < self.blocks@.len() - 1 ==> (#[trigger] self.blocks@[i])@.len()
                == BLOCK_SIZE
        &&& self.blocks@.len() > 0 ==> 0 < self.blocks@.last()@.len() <= BLOCK_SIZE
        &&& self.size() <= MAX_FILE_SIZE
    }

    /// The byte stream the blocks hold.
    pub open spec fn bytes(self) -> Seq<u8> {
        Seq::new(
            self.size() as nat,
            |i: int| self.blocks@[i / (BLOCK_SIZE as int)]@[i % (BLOCK_SIZE as int)],
        )
    }

    /// A valid byte index decomposes into a block number within the block
    /// list and an intra-block offset within that block's payload.
    pub proof fn lemma_index_valid(self, i: int)
        requires
            self.wf(),
            0 <= i < self.size(),
        ensures
            0 <= i / (BLOCK_SIZE as int) < self.blocks@.len(),
            0 <= i % (BLOCK_SIZE as int) < self.blocks@[i / (BLOCK_SIZE as int)]@.len(),
    {
        let b = BLOCK_SIZE as int;
        let n = self.blocks@.len() as int;
        lemma_fundamental_div_mod(i, b);
        lemma_mod_bound(i, b);
        lemma_div_pos_is_pos(i, b);
        if i / b >= n {
            assert(i >= b * n + i % b);
        }
        assert(i / b < n);
        if i / b < n - 1 {
            assert(self.blocks@[i / b]@.len() == BLOCK_SIZE);
        } else {
            assert(i == b * (n - 1) + i % b);
        }
    }

    /// An empty stream.
    pub fn new() -> (r: FileContent)
        ensures
            r.wf(),
            r.size() == 0,
            r.bytes() =~= Seq::<u8>::empty(),
    {
        FileContent { blocks: Vec::new() }
    }

    /// Number of content bytes, as a machine word.
    pub fn size_u64(&self) -> (r: u64)
        requires
            self.wf(),
        ensures
            r == self.size(),
    {
        if self.blocks.len() == 0 {
            0
        } else {
            let n = self.blocks.len();
            let last_len = self.blocks[n - 1].len();
            (n as u64 - 1) * BLOCK_SIZE + last_len as u64
        }
    }

    /// Byte `i` of the stream.
    pub fn get_byte(&self, i: u64) -> (r: u8)
        requires
            self.wf(),
            i < self.size(),
        ensures
            r == self.bytes()[i as int],
    {
        proof {
            self.lemma_index_valid(i as int);
        }
        let b = (i / BLOCK_SIZE) as usize;
        let j = (i % BLOCK_SIZE) as usize;
        self.blocks[b][j]
    }

    /// Append one byte at the end of the stream, opening a new block when the
    /// last one is full.
    pub fn push_byte(&mut self, v: u8)
        requires
            old(self).wf(),
            old(self).size() < MAX_FILE_SIZE,
        ensures
            final(self).wf(),
            final(self).size() == old(self).size() + 1,
            final(self).bytes() =~= old(self).bytes().push(v),
    {
        let ghost pre = *self;
        let n = self.blocks.len();
        if n == 0 || self.blocks[n - 1].len() == BLOCK_SIZE as usize {
            let mut blk: Vec<u8> = Vec::new();
            blk.push(v);
            self.blocks.push(blk);
        } else {
            let mut blk = self.blocks.pop().unwrap();
            blk.push(v);
            self.blocks.push(blk);
        }
        proof {
            let b = BLOCK_SIZE as int;
            assert forall|i: int| 0 <= i <= pre.size() implies self.bytes()[i]
                == pre.bytes().push(v)[i] by {
                if i < pre.size() {
                    pre.lemma_index_valid(i);
                } else {
                    lemma_fundamental_div_mod_converse(
                        i,
                        b,
                        self.blocks@.len() - 1,
                        i - (self.blocks@.len() - 1) * b,
                    );
                }
                self.lemma_index_valid(i);
            }
        }
    }

    /// Overwrite byte `i` of the stream in place.
    pub fn set_byte(&mut self, i: u64, v: u8)
        requires
            old(self).wf(),
            i < old(self).size(),
        ensures
            final(self).wf(),
            final(self).size() == old(self).size(),
            final(self).bytes() =~= old(self).bytes().update(i as int, v),
    {
        let ghost pre = *self;
        proof {
            self.lemma_index_valid(i as int);
        }
        let b = (i / BLOCK_SIZE) as usize;
        let j = (i % BLOCK_SIZE) as usize;
        let mut blk = self.blocks[b].clone();
        blk.set(j, v);
        self.blocks.set(b, blk);
        proof {
            let bs = BLOCK_SIZE as int;
            assert(self.blocks@[b as int]@ =~= pre.blocks@[b as int]@.update(j as int, v));
            assert(self.size() == pre.size());
            assert forall|k: int| 0 <= k < pre.size() implies self.bytes()[k]
                == pre.bytes().update(i as int, v)[k] by {
                pre.lemma_index_valid(k);
                self.lemma_index_valid(k);
                if k != i {
                    if k / bs == b as int && k % bs == j as int {
                        lemma_fundamental_div_mod(k, bs);
                        lemma_fundamental_div_mod(i as int, bs);
                    }
                }
            }
        }
    }

    /// Drop every byte at or past `new_size`: blocks wholly past the boundary
    /// are removed, and the boundary block keeps only its leading bytes.
    pub fn truncate_to(&mut self, new_size: u64)
        requires
            old(self).wf(),
            new_size <= old(self).size(),
        ensures
            final(self).wf(),
            final(self).size() == new_size,
            final(self).bytes() =~= old(self).bytes().take(new_size as int),
    {
        let ghost pre = *self;
        if new_size == 0 {
            self.blocks = Vec::new();
            return ;
        }
        // Number of blocks that keep at least one byte.
        let keep = ((new_size - 1) / BLOCK_SIZE + 1) as usize;
        let last_len = (new_size - (keep as u64 - 1) * BLOCK_SIZE) as usize;
        proof {
            let b = BLOCK_SIZE as int;
            let ns = new_size as int;
            lemma_fundamental_div_mod(ns - 1, b);
            lemma_mod_bound(ns - 1, b);
            lemma_div_pos_is_pos(ns - 1, b);
            pre.lemma_index_valid(ns - 1);
            assert((ns - 1) / b == keep - 1);
            assert(keep <= pre.blocks@.len());
        }
        self.blocks.truncate(keep);
        let mut blk = self.blocks.pop().unwrap();
        blk.truncate(last_len);
        self.blocks.push(blk);
        proof {
            let b = BLOCK_SIZE as int;
            assert(self.size() == new_size);
            assert forall|k: int| 0 <= k < new_size implies self.bytes()[k]
                == pre.bytes().take(new_size as int)[k] by {
                pre.lemma_index_valid(k);
                self.lemma_index_valid(k);
            }
        }
    }

    /// Overlay `data` onto the stream at byte `offset`, zero-filling any gap
    /// between the old end of the stream and `offset`.
    pub fn write_range(&mut self, offset: u64, data: &Vec<u8>)
        requires
            old(self).wf(),
            offset + data@.len() <= MAX_FILE_SIZE,
        ensures
            final(self).wf(),
            final(self).bytes() =~= spec_overlay(old(self).bytes(), offset as int, data@),
            final(self).size() == spec_overlay(old(self).bytes(), offset as int, data@).len(),
    {
        let ghost pre = *self;
        let mut sz = self.size_u64();
        let ghost old_size = pre.size();
        // Zero-fill the gap up to the write offset.
        while sz < offset
            invariant
                self.wf(),
                pre.wf(),
                offset + data@.len() <= MAX_FILE_SIZE,
                old_size == pre.size(),
                old_size <= sz,
                sz == old_size || sz <= offset,
                sz == self.size(),
                self.bytes() =~= Seq::new(
                    sz as nat,
                    |i: int| if i < old_size { pre.bytes()[i] } else { 0u8 },
                ),
            decreases offset - sz,
        {
            self.push_byte(0);
            sz = sz + 1;
        }
        // Overlay the input, extending the stream once past its end.
        let mut k: usize = 0;
        while k < data.len()
            invariant
                self.wf(),
                pre.wf(),
                offset + data@.len() <= MAX_FILE_SIZE,
                old_size == pre.size(),
                k <= data@.len(),
                sz == self.size(),
                sz == if old_size >= offset + k { old_size } else { offset + k },
                offset <= sz,
                self.bytes() =~= Seq::new(
                    sz as nat,
                    |i: int|
                        if offset <= i < offset + k {
                            data@[i - offset]
                        } else if i < old_size {
                            pre.bytes()[i]
                        } else {
                            0u8
                        },
                ),
            decreases data@.len() - k,
        {
            let pos = offset + k as u64;
            if pos < sz {
                self.set_byte(pos, data[k]);
            } else {
                self.push_byte(data[k]);
                sz = sz + 1;
            }
            k = k + 1;
        }
        proof {
            assert(self.bytes() =~= spec_overlay(pre.bytes(), offset as int, data@));
        }
    }

    /// Copy `len` bytes starting at byte `offset` out of the stream.
    pub fn read_range(&self, offset: u64, len: usize) -> (r: Vec<u8>)
        requires
            self.wf(),
            offset + len <= self.size(),
        ensures
            r@ =~= self.bytes().subrange(offset as int, offset as int + len as int),
    {
        let mut buf: Vec<u8> = Vec::new();
        let mut k: usize = 0;
        while k < len
            invariant
                self.wf(),
                offset + len <= self.size(),
                k <= len,
                buf@ =~= self.bytes().subrange(offset as int, offset as int + k as int),
            decreases len - k,
        {
            buf.push(self.get_byte(offset + k as u64));
            k = k + 1;
        }
        buf
    }
}

} // verus!
