//! The record store: inode records, directory entries and content blocks,
//! with the query operations the operation translator runs inside its
//! transactions. The store is kept in memory; every mutating operation
//! either commits as a whole or returns an error leaving the store unchanged,
//! which is the atomicity the surrounding transaction protocol asks of it.

use vstd::prelude::*;

use crate::content::{spec_overlay, FileContent};
use crate::errors::FsError;
use crate::types::{block_count_of, spec_block_count, FileAttr, FileKind, TimeSpec, MAX_FILE_SIZE};

verus! {

/// One edge of the namespace: `name` under directory `parent` names `child`.
#[derive(Debug)]
pub struct DirEntry {
    pub parent: u64,
    pub name: Vec<u8>,
    pub child: u64,
}

/// The content blocks of one file.
#[derive(Debug)]
pub struct ContentRec {
    pub ino: u64,
    pub data: FileContent,
}

/// One entry yielded by a directory listing: the child, the position to
/// resume after it, its kind and its name.
#[derive(Debug)]
pub struct ListDirEntry {
    pub ino: u64,
    pub position: u64,
    pub kind: FileKind,
    pub name: Vec<u8>,
}

impl ListDirEntry {
    pub open spec fn view_tuple(self) -> (u64, u64, FileKind, Seq<u8>) {
        (self.ino, self.position, self.kind, self.name@)
    }
}

/// A directory-entry name is never empty and never `.` or `..`.
pub open spec fn valid_name(n: Seq<u8>) -> bool {
    &&& n.len() > 0
    &&& n != seq![46u8]
    &&& n != seq![46u8, 46u8]
}

/// The attribute fields the single-field patch operation can set.
#[derive(Clone, Copy, Debug, PartialEq, Eq, Structural)]
pub enum AttrField {
    Perm,
    Uid,
    Gid,
    Nlink,
    Flags,
    AtimeSecs,
    AtimeNanos,
    MtimeSecs,
    MtimeNanos,
    CtimeSecs,
    CtimeNanos,
    CrtimeSecs,
    CrtimeNanos,
}

/// The record that a single-field patch produces: the named field takes the
/// scalar, truncated to the field's width; every other field is kept.
pub open spec fn spec_patch(a: FileAttr, field: AttrField, value: u64) -> FileAttr {
    match field {
        AttrField::Perm => FileAttr { perm: (value & 0xFFFF) as u16, ..a },
        AttrField::Uid => FileAttr { uid: (value & 0xFFFF_FFFF) as u32, ..a },
        AttrField::Gid => FileAttr { gid: (value & 0xFFFF_FFFF) as u32, ..a },
        AttrField::Nlink => FileAttr { nlink: (value & 0xFFFF_FFFF) as u32, ..a },
        AttrField::Flags => FileAttr { flags: (value & 0xFFFF_FFFF) as u32, ..a },
        AttrField::AtimeSecs => FileAttr { atime: TimeSpec { secs: value, ..a.atime }, ..a },
        AttrField::AtimeNanos => FileAttr {
            atime: TimeSpec { nanos: (value & 0xFFFF_FFFF) as u32, ..a.atime },
            ..a
        },
        AttrField::MtimeSecs => FileAttr { mtime: TimeSpec { secs: value, ..a.mtime }, ..a },
        AttrField::MtimeNanos => FileAttr {
            mtime: TimeSpec { nanos: (value & 0xFFFF_FFFF) as u32, ..a.mtime },
            ..a
        },
        AttrField::CtimeSecs => FileAttr { ctime: TimeSpec { secs: value, ..a.ctime }, ..a },
        AttrField::CtimeNanos => FileAttr {
            ctime: TimeSpec { nanos: (value & 0xFFFF_FFFF) as u32, ..a.ctime },
            ..a
        },
        AttrField::CrtimeSecs => FileAttr { crtime: TimeSpec { secs: value, ..a.crtime }, ..a },
        AttrField::CrtimeNanos => FileAttr {
            crtime: TimeSpec { nanos: (value & 0xFFFF_FFFF) as u32, ..a.crtime },
            ..a
        },
    }
}

/// The whole persistent state.
#[derive(Debug)]
pub struct Store {
    pub inodes: Vec<FileAttr>,
    pub entries: Vec<DirEntry>,
    pub contents: Vec<ContentRec>,
    pub next_ino: u64,
}

impl Store {
    // ----- inode records, viewed as a map from identifier to record -----

    pub open spec fn has_inode(self, ino: u64) -> bool {
        exists|i: int| 0 <= i < self.inodes@.len() && (#[trigger] self.inodes@[i]).ino == ino
    }

    pub open spec fn inode_index(self, ino: u64) -> int {
        choose|i: int| 0 <= i < self.inodes@.len() && (#[trigger] self.inodes@[i]).ino == ino
    }

    pub open spec fn inode_of(self, ino: u64) -> FileAttr {
        self.inodes@[self.inode_index(ino)]
    }

    pub open spec fn inode_map(self) -> Map<u64, FileAttr> {
        Map::new(|ino: u64| self.has_inode(ino), |ino: u64| self.inode_of(ino))
    }

    // ----- directory entries, viewed as an ordered sequence and as a map -----

    pub open spec fn entries_view(self) -> Seq<(u64, Seq<u8>, u64)> {
        self.entries@.map(|i: int, e: DirEntry| (e.parent, e.name@, e.child))
    }

    pub open spec fn has_entry(self, parent: u64, name: Seq<u8>) -> bool {
        exists|i: int|
            0 <= i < self.entries@.len() && (#[trigger] self.entries@[i]).parent == parent
                && self.entries@[i].name@ == name
    }

    pub open spec fn entry_index(self, parent: u64, name: Seq<u8>) -> int {
        choose|i: int|
            0 <= i < self.entries@.len() && (#[trigger] self.entries@[i]).parent == parent
                && self.entries@[i].name@ == name
    }

    pub open spec fn child_of(self, parent: u64, name: Seq<u8>) -> u64 {
        self.entries@[self.entry_index(parent, name)].child
    }

    pub open spec fn entry_map(self) -> Map<(u64, Seq<u8>), u64> {
        Map::new(
            |k: (u64, Seq<u8>)| self.has_entry(k.0, k.1),
            |k: (u64, Seq<u8>)| self.child_of(k.0, k.1),
        )
    }

    pub open spec fn dir_is_empty(self, dir: u64) -> bool {
        forall|i: int| 0 <= i < self.entries@.len() ==> (#[trigger] self.entries@[i]).parent != dir
    }

    // ----- content blocks, viewed as a map from identifier to byte stream -----

    pub open spec fn has_content(self, ino: u64) -> bool {
        exists|i: int| 0 <= i < self.contents@.len() && (#[trigger] self.contents@[i]).ino == ino
    }

    pub open spec fn content_index(self, ino: u64) -> int {
        choose|i: int| 0 <= i < self.contents@.len() && (#[trigger] self.contents@[i]).ino == ino
    }

    pub open spec fn content_of(self, ino: u64) -> Seq<u8> {
        self.contents@[self.content_index(ino)].data.bytes()
    }

    pub open spec fn content_map(self) -> Map<u64, Seq<u8>> {
        Map::new(|ino: u64| self.has_content(ino), |ino: u64| self.content_of(ino))
    }

    /// The byte stream of a file; a file without content blocks holds no bytes.
    pub open spec fn file_bytes(self, ino: u64) -> Seq<u8> {
        if self.has_content(ino) {
            self.content_of(ino)
        } else {
            Seq::empty()
        }
    }

    // ----- well-formedness -----

    pub open spec fn wf(self) -> bool {
        // inode identifiers: unique, nonzero, below the assignment cursor;
        // a stored record is never unreferenced (link count at least one),
        // its size is bounded and its reported block count derived from it.
        &&& forall|i: int, j: int|
            0 <= i < j < self.inodes@.len() ==> (#[trigger] self.inodes@[i]).ino != (
            #[trigger] self.inodes@[j]).ino
        &&& forall|i: int|
            0 <= i < self.inodes@.len() ==> {
                let a = #[trigger] self.inodes@[i];
                1 <= a.ino && a.ino < self.next_ino && a.nlink >= 1 && a.size <= MAX_FILE_SIZE
                    && a.blocks == spec_block_count(a.size)
            }
        &&& self.next_ino >= 1
        // directory entries: keys unique, names valid
        &&& forall|i: int, j: int|
            0 <= i < j < self.entries@.len() ==> !((#[trigger] self.entries@[i]).parent == (
            #[trigger] self.entries@[j]).parent && self.entries@[i].name@ == self.entries@[j].name@)
        &&& forall|i: int| 0 <= i < self.entries@.len() ==> valid_name((#[trigger] self.entries@[i]).name@)
        // content: one record per file, each tied to a live inode whose size
        // equals the stored byte count; zero-size files hold no record
        &&& forall|i: int, j: int|
            0 <= i < j < self.contents@.len() ==> (#[trigger] self.contents@[i]).ino != (
            #[trigger] self.contents@[j]).ino
        &&& forall|i: int|
            0 <= i < self.contents@.len() ==> {
                let c = #[trigger] self.contents@[i];
                c.data.wf() && c.data.size() > 0 && self.has_inode(c.ino) && self.inode_of(c.ino).size
                    == c.data.size()
            }
        &&& forall|i: int|
            0 <= i < self.inodes@.len() ==> ((#[trigger] self.inodes@[i]).size > 0 ==> self.has_content(
                self.inodes@[i].ino,
            ))
    }

    /// A fresh, empty store; the first created inode takes identifier 1.
    pub fn new() -> (r: Store)
        ensures
            r.wf(),
            r.inode_map() =~= Map::<u64, FileAttr>::empty(),
            r.entries_view() =~= Seq::<(u64, Seq<u8>, u64)>::empty(),
            r.content_map() =~= Map::<u64, Seq<u8>>::empty(),
            r.next_ino == 1,
    {
        Store { inodes: Vec::new(), entries: Vec::new(), contents: Vec::new(), next_ino: 1 }
    }

    // ----- helper scans -----

    /// Index of the inode record with the given identifier.
    fn find_inode(&self, ino: u64) -> (r: Option<usize>)
        ensures
            match r {
                Some(i) => i < self.inodes@.len() && self.inodes@[i as int].ino == ino,
                None => !self.has_inode(ino),
            },
    {
        let mut i: usize = 0;
        while i < self.inodes.len()
            invariant
                i <= self.inodes@.len(),
                forall|j: int| 0 <= j < i ==> (#[trigger] self.inodes@[j]).ino != ino,
            decreases self.inodes@.len() - i,
        {
            if self.inodes[i].ino == ino {
                return Some(i);
            }
            i = i + 1;
        }
        None
    }

    /// Pin down the index that the map view of the inode records speaks of.
    proof fn lemma_inode_at(self, i: int)
        requires
            self.wf(),
            0 <= i < self.inodes@.len(),
        ensures
            self.has_inode(self.inodes@[i].ino),
            self.inode_index(self.inodes@[i].ino) == i,
            self.inode_of(self.inodes@[i].ino) == self.inodes@[i],
    {
        let ino = self.inodes@[i].ino;
        assert(self.has_inode(ino));
        let w = self.inode_index(ino);
        assert(0 <= w < self.inodes@.len() && self.inodes@[w].ino == ino);
        if w != i {
            if w < i {
                assert(self.inodes@[w].ino != self.inodes@[i].ino);
            } else {
                assert(self.inodes@[i].ino != self.inodes@[w].ino);
            }
        }
    }

    /// Index of a content record.
    fn find_content(&self, ino: u64) -> (r: Option<usize>)
        ensures
            match r {
                Some(i) => i < self.contents@.len() && self.contents@[i as int].ino == ino,
                None => !self.has_content(ino),
            },
    {
        let mut i: usize = 0;
        while i < self.contents.len()
            invariant
                i <= self.contents@.len(),
                forall|j: int| 0 <= j < i ==> (#[trigger] self.contents@[j]).ino != ino,
            decreases self.contents@.len() - i,
        {
            if self.contents[i].ino == ino {
                return Some(i);
            }
            i = i + 1;
        }
        None
    }

    /// Pin down the index that the content map view speaks of.
    proof fn lemma_content_at(self, i: int)
        requires
            self.wf(),
            0 <= i < self.contents@.len(),
        ensures
            self.has_content(self.contents@[i].ino),
            self.content_index(self.contents@[i].ino) == i,
            self.content_of(self.contents@[i].ino) == self.contents@[i].data.bytes(),
    {
        let ino = self.contents@[i].ino;
        assert(self.has_content(ino));
        let w = self.content_index(ino);
        assert(0 <= w < self.contents@.len() && self.contents@[w].ino == ino);
        if w < i {
            assert(self.contents@[w].ino != self.contents@[i].ino);
        } else if w > i {
            assert(self.contents@[i].ino != self.contents@[w].ino);
        }
    }

    /// Pin down the index that the entry map view speaks of.
    proof fn lemma_entry_at(self, i: int)
        requires
            self.wf(),
            0 <= i < self.entries@.len(),
        ensures
            self.has_entry(self.entries@[i].parent, self.entries@[i].name@),
            self.entry_index(self.entries@[i].parent, self.entries@[i].name@) == i,
            self.child_of(self.entries@[i].parent, self.entries@[i].name@)
                == self.entries@[i].child,
    {
        let p = self.entries@[i].parent;
        let n = self.entries@[i].name@;
        assert(self.has_entry(p, n));
        let w = self.entry_index(p, n);
        assert(0 <= w < self.entries@.len() && self.entries@[w].parent == p
            && self.entries@[w].name@ == n);
        if w < i {
            assert(!(self.entries@[w].parent == self.entries@[i].parent && self.entries@[w].name@
                == self.entries@[i].name@));
        } else if w > i {
            assert(!(self.entries@[i].parent == self.entries@[w].parent && self.entries@[i].name@
                == self.entries@[w].name@));
        }
    }

    // ----- inode operations -----

    /// Assign a fresh identifier into `attr` and persist the record.
    /// A created record starts with no content, so its size must be zero.
    pub fn create_inode(&mut self, attr: FileAttr) -> (r: Result<FileAttr, FsError>)
        requires
            old(self).wf(),
            attr.size == 0,
            attr.blocks == 0,
            attr.nlink >= 1,
        ensures
            final(self).wf(),
            match r {
                Ok(a) => {
                    &&& old(self).next_ino < u64::MAX
                    &&& a == (FileAttr { ino: old(self).next_ino, ..attr })
                    &&& final(self).next_ino == old(self).next_ino + 1
                    &&& !old(self).has_inode(a.ino)
                    &&& final(self).inode_map() =~= old(self).inode_map().insert(a.ino, a)
                    &&& final(self).entries == old(self).entries
                    &&& final(self).contents == old(self).contents
                },
                Err(e) => {
                    &&& e == FsError::Overflow
                    &&& old(self).next_ino == u64::MAX
                    &&& *final(self) == *old(self)
                },
            },
    {
        if self.next_ino == u64::MAX {
            return Err(FsError::Overflow);
        }
        let ghost pre = *self;
        let ino = self.next_ino;
        let a = FileAttr { ino, ..attr };
        self.next_ino = self.next_ino + 1;
        self.inodes.push(a);
        proof {
            assert forall|i: int| 0 <= i < pre.inodes@.len() implies (#[trigger] pre.inodes@[i]).ino
                != ino by {}
            assert(!pre.has_inode(ino));
            let n = pre.inodes@.len() as int;
            assert forall|x: int, y: int|
                0 <= x < y < self.inodes@.len() implies (#[trigger] self.inodes@[x]).ino != (
            #[trigger] self.inodes@[y]).ino by {
                if y == n {
                    assert(self.inodes@[x] == pre.inodes@[x]);
                }
            }
            assert forall|x: u64| #[trigger] self.has_inode(x) implies (pre.has_inode(x) || x
                == ino) by {
                let w = choose|i: int|
                    0 <= i < self.inodes@.len() && (#[trigger] self.inodes@[i]).ino == x;
                if w < n {
                    assert(pre.inodes@[w].ino == x);
                }
            }
            assert forall|x: u64| pre.has_inode(x) implies self.has_inode(x) by {
                let w = pre.inode_index(x);
                assert(self.inodes@[w].ino == x);
            }
            assert forall|x: u64| #[trigger] self.has_inode(x) implies self.inode_map()[x]
                == pre.inode_map().insert(ino, a)[x] by {
                let w = self.inode_index(x);
                self.lemma_inode_at_full(w);
                if x == ino {
                    assert(self.inodes@[n].ino == ino);
                    self.lemma_inode_at_full(n);
                } else {
                    assert(self.inodes@[n].ino == ino);
                    assert(w != n);
                    pre.lemma_inode_at(w);
                    assert(pre.inode_map()[x] == pre.inodes@[w]);
                }
            }
            assert(final(self).inode_map() =~= pre.inode_map().insert(ino, a));
            assert forall|i: int| 0 <= i < self.contents@.len() implies {
                let c = #[trigger] self.contents@[i];
                self.has_inode(c.ino) && self.inode_of(c.ino).size == c.data.size()
            } by {
                let c = self.contents@[i];
                let w = pre.inode_index(c.ino);
                pre.lemma_inode_at(w);
                assert(self.inodes@[w] == pre.inodes@[w]);
                self.lemma_inode_at_full(w);
            }
            assert forall|i: int|
                0 <= i < self.inodes@.len() implies ((#[trigger] self.inodes@[i]).size > 0
                ==> self.has_content(self.inodes@[i].ino)) by {
                if i < n {
                    assert(self.inodes@[i] == pre.inodes@[i]);
                }
            }
            assert(final(self).content_map() =~= old(self).content_map());
        }
        Ok(a)
    }

    /// `lemma_inode_at` restated for states whose full invariant is being
    /// re-established: only identifier uniqueness is needed.
    proof fn lemma_inode_at_full(self, i: int)
        requires
            forall|x: int, y: int|
                0 <= x < y < self.inodes@.len() ==> (#[trigger] self.inodes@[x]).ino != (
                #[trigger] self.inodes@[y]).ino,
            0 <= i < self.inodes@.len(),
        ensures
            self.has_inode(self.inodes@[i].ino),
            self.inode_index(self.inodes@[i].ino) == i,
            self.inode_of(self.inodes@[i].ino) == self.inodes@[i],
    {
        let ino = self.inodes@[i].ino;
        assert(self.has_inode(ino));
        let w = self.inode_index(ino);
        assert(0 <= w < self.inodes@.len() && self.inodes@[w].ino == ino);
        if w < i {
            assert(self.inodes@[w].ino != self.inodes@[i].ino);
        } else if w > i {
            assert(self.inodes@[i].ino != self.inodes@[w].ino);
        }
    }

    /// Fetch the inode record with the given identifier.
    pub fn lookup_inode(&self, ino: u64) -> (r: Result<FileAttr, FsError>)
        requires
            self.wf(),
        ensures
            match r {
                Ok(a) => self.has_inode(ino) && a == self.inode_of(ino),
                Err(e) => e == FsError::NotFound && !self.has_inode(ino),
            },
    {
        match self.find_inode(ino) {
            Some(i) => {
                proof {
                    self.lemma_inode_at(i as int);
                }
                Ok(self.inodes[i])
            },
            None => Err(FsError::NotFound),
        }
    }

    /// `lemma_content_at` from identifier uniqueness alone, for states whose
    /// full invariant is being re-established.
    proof fn lemma_content_at_full(self, i: int)
        requires
            forall|x: int, y: int|
                0 <= x < y < self.contents@.len() ==> (#[trigger] self.contents@[x]).ino != (
                #[trigger] self.contents@[y]).ino,
            0 <= i < self.contents@.len(),
        ensures
            self.has_content(self.contents@[i].ino),
            self.content_index(self.contents@[i].ino) == i,
            self.content_of(self.contents@[i].ino) == self.contents@[i].data.bytes(),
    {
        let ino = self.contents@[i].ino;
        assert(self.has_content(ino));
        let w = self.content_index(ino);
        assert(0 <= w < self.contents@.len() && self.contents@[w].ino == ino);
        if w < i {
            assert(self.contents@[w].ino != self.contents@[i].ino);
        } else if w > i {
            assert(self.contents@[i].ino != self.contents@[w].ino);
        }
    }

    /// Remove the inode record and all of its content blocks.
    #[verifier::rlimit(100)]
    #[verifier::spinoff_prover]
    pub fn purge_inode(&mut self, ino: u64) -> (r: Result<(), FsError>)
        requires
            old(self).wf(),
        ensures
            final(self).wf(),
            match r {
                Ok(()) => {
                    &&& old(self).has_inode(ino)
                    &&& final(self).inode_map() =~= old(self).inode_map().remove(ino)
                    &&& final(self).content_map() =~= old(self).content_map().remove(ino)
                    &&& final(self).entries == old(self).entries
                    &&& final(self).next_ino == old(self).next_ino
                },
                Err(e) => {
                    &&& e == FsError::NotFound
                    &&& !old(self).has_inode(ino)
                    &&& *final(self) == *old(self)
                },
            },
    {
        let ghost pre = *self;
        let i = match self.find_inode(ino) {
            Some(i) => i,
            None => { return Err(FsError::NotFound); },
        };
        proof {
            pre.lemma_inode_at(i as int);
        }
        self.inodes.remove(i);
        proof {
            pre.inodes@.remove_ensures(i as int);
        }
        match self.find_content(ino) {
            Some(c) => {
                proof {
                    pre.lemma_content_at(c as int);
                    pre.contents@.remove_ensures(c as int);
                }
                self.contents.remove(c);
            },
            None => {},
        }
        proof {
            let ghost post = *self;
            // index correspondence for the shortened inode list
            assert forall|k: int| 0 <= k < post.inodes@.len() implies post.inodes@[k] == (
            if k < i { pre.inodes@[k] } else { pre.inodes@[k + 1] }) by {}
            // uniqueness survives removal
            assert forall|x: int, y: int|
                0 <= x < y < post.inodes@.len() implies (#[trigger] post.inodes@[x]).ino != (
            #[trigger] post.inodes@[y]).ino by {
                let px: int = if x < i { x } else { x + 1 };
                let py: int = if y < i { y } else { y + 1 };
                assert(post.inodes@[x] == pre.inodes@[px]);
                assert(post.inodes@[y] == pre.inodes@[py]);
            }
            // which identifiers remain
            assert forall|x: u64| #[trigger] post.has_inode(x) implies pre.has_inode(x) && x
                != ino by {
                let w = choose|k: int|
                    0 <= k < post.inodes@.len() && (#[trigger] post.inodes@[k]).ino == x;
                let pw: int = if w < i { w } else { w + 1 };
                assert(pre.inodes@[pw].ino == x);
                pre.lemma_inode_at(pw);
            }
            assert forall|x: u64| pre.has_inode(x) && x != ino implies #[trigger] post.has_inode(
                x,
            ) by {
                let w = pre.inode_index(x);
                pre.lemma_inode_at(w);
                if w < i {
                    assert(post.inodes@[w].ino == x);
                } else {
                    assert(w > i);
                    assert(post.inodes@[w - 1].ino == x);
                }
            }
            // surviving records are unchanged
            assert forall|x: u64| #[trigger] post.has_inode(x) implies post.inode_of(x)
                == pre.inode_of(x) by {
                let w = post.inode_index(x);
                post.lemma_inode_at_full(w);
                let pw: int = if w < i { w } else { w + 1 };
                assert(post.inodes@[w] == pre.inodes@[pw]);
                pre.lemma_inode_at(pw);
            }
            assert(post.inode_map() =~= pre.inode_map().remove(ino));
            // the content list: either untouched (no record held blocks for
            // `ino`) or shortened at the record index that did
            if pre.has_content(ino) {
                let ci = pre.content_index(ino);
                assert forall|k: int| 0 <= k < post.contents@.len() implies post.contents@[k] == (
                if k < ci { pre.contents@[k] } else { pre.contents@[k + 1] }) by {}
                assert forall|x: int, y: int|
                    0 <= x < y < post.contents@.len() implies (#[trigger] post.contents@[x]).ino
                    != (#[trigger] post.contents@[y]).ino by {
                    let px: int = if x < ci { x } else { x + 1 };
                    let py: int = if y < ci { y } else { y + 1 };
                    assert(post.contents@[x] == pre.contents@[px]);
                    assert(post.contents@[y] == pre.contents@[py]);
                }
                assert forall|x: u64| #[trigger] post.has_content(x) implies pre.has_content(x)
                    && x != ino by {
                    let w = choose|k: int|
                        0 <= k < post.contents@.len() && (#[trigger] post.contents@[k]).ino == x;
                    let pw: int = if w < ci { w } else { w + 1 };
                    assert(pre.contents@[pw].ino == x);
                    pre.lemma_content_at(pw);
                }
                assert forall|x: u64| pre.has_content(x) && x != ino implies
                    #[trigger] post.has_content(x) by {
                    let w = pre.content_index(x);
                    pre.lemma_content_at(w);
                    if w < ci {
                        assert(post.contents@[w].ino == x);
                    } else {
                        assert(w > ci);
                        assert(post.contents@[w - 1].ino == x);
                    }
                }
                assert forall|x: u64| #[trigger] post.has_content(x) implies post.content_of(x)
                    == pre.content_of(x) by {
                    let w = post.content_index(x);
                    post.lemma_content_at_full(w);
                    let pw: int = if w < ci { w } else { w + 1 };
                    assert(post.contents@[w] == pre.contents@[pw]);
                    pre.lemma_content_at(pw);
                }
            } else {
                assert(post.contents@ == pre.contents@);
                assert forall|x: u64| #[trigger] post.has_content(x) implies pre.has_content(x)
                    && x != ino && post.content_of(x) == pre.content_of(x) by {
                    if pre.inode_of(ino).size > 0 {
                        assert(pre.has_content(ino));
                    }
                }
            }
            assert(!post.has_content(ino));
            assert(post.content_map() =~= pre.content_map().remove(ino));
            // remaining invariant clauses of the new state
            assert forall|k: int| 0 <= k < post.contents@.len() implies {
                let c = #[trigger] post.contents@[k];
                c.data.wf() && c.data.size() > 0 && post.has_content(c.ino) && post.has_inode(c.ino)
                    && post.inode_of(c.ino).size == c.data.size()
            } by {
                post.lemma_content_at_full(k);
                let c = post.contents@[k];
                assert(post.has_content(c.ino));
                assert(c.ino != ino);
                let pk: int = if pre.has_content(ino) && k >= pre.content_index(ino) {
                    k + 1
                } else {
                    k
                };
                if pre.has_content(ino) {
                    pre.lemma_content_at(pre.content_index(ino));
                }
                assert(post.contents@[k] == pre.contents@[pk]);
                pre.lemma_content_at(pk);
                let iw = pre.inode_index(c.ino);
                pre.lemma_inode_at(iw);
                assert(iw != i);
                let piw: int = if iw < i { iw } else { iw - 1 };
                assert(post.inodes@[piw] == pre.inodes@[iw]);
                post.lemma_inode_at_full(piw);
                assert(post.inode_of(c.ino) == pre.inode_of(c.ino));
            }
            assert forall|k: int|
                0 <= k < post.inodes@.len() implies ((#[trigger] post.inodes@[k]).size > 0
                ==> post.has_content(post.inodes@[k].ino)) by {
                let pk: int = if k < i { k } else { k + 1 };
                assert(post.inodes@[k] == pre.inodes@[pk]);
                pre.lemma_inode_at(pk);
            }
        }
        Ok(())
    }

    /// Patch one attribute field of an inode record. Patching the link count
    /// to zero is not meaningful: records that lose their last link are
    /// removed with `purge_inode` instead.
    #[verifier::rlimit(100)]
    #[verifier::spinoff_prover]
    pub fn set_attr(&mut self, ino: u64, field: AttrField, value: u64) -> (r: Result<
        (),
        FsError,
    >)
        requires
            old(self).wf(),
            field == AttrField::Nlink ==> 1 <= value <= u32::MAX,
        ensures
            final(self).wf(),
            match r {
                Ok(()) => {
                    &&& old(self).has_inode(ino)
                    &&& final(self).inode_map() =~= old(self).inode_map().insert(
                        ino,
                        spec_patch(old(self).inode_of(ino), field, value),
                    )
                    &&& final(self).contents == old(self).contents
                    &&& final(self).entries == old(self).entries
                    &&& final(self).next_ino == old(self).next_ino
                },
                Err(e) => {
                    &&& e == FsError::NotFound
                    &&& !old(self).has_inode(ino)
                    &&& *final(self) == *old(self)
                },
            },
    {
        let ghost pre = *self;
        let i = match self.find_inode(ino) {
            Some(i) => i,
            None => { return Err(FsError::NotFound); },
        };
        proof {
            pre.lemma_inode_at(i as int);
        }
        let a = self.inodes[i];
        let patched = match field {
            AttrField::Perm => FileAttr { perm: (value & 0xFFFF) as u16, ..a },
            AttrField::Uid => FileAttr { uid: (value & 0xFFFF_FFFF) as u32, ..a },
            AttrField::Gid => FileAttr { gid: (value & 0xFFFF_FFFF) as u32, ..a },
            AttrField::Nlink => FileAttr { nlink: (value & 0xFFFF_FFFF) as u32, ..a },
            AttrField::Flags => FileAttr { flags: (value & 0xFFFF_FFFF) as u32, ..a },
            AttrField::AtimeSecs => FileAttr { atime: TimeSpec { secs: value, ..a.atime }, ..a },
            AttrField::AtimeNanos => FileAttr {
                atime: TimeSpec { nanos: (value & 0xFFFF_FFFF) as u32, ..a.atime },
                ..a
            },
            AttrField::MtimeSecs => FileAttr { mtime: TimeSpec { secs: value, ..a.mtime }, ..a },
            AttrField::MtimeNanos => FileAttr {
                mtime: TimeSpec { nanos: (value & 0xFFFF_FFFF) as u32, ..a.mtime },
                ..a
            },
            AttrField::CtimeSecs => FileAttr { ctime: TimeSpec { secs: value, ..a.ctime }, ..a },
            AttrField::CtimeNanos => FileAttr {
                ctime: TimeSpec { nanos: (value & 0xFFFF_FFFF) as u32, ..a.ctime },
                ..a
            },
            AttrField::CrtimeSecs => FileAttr { crtime: TimeSpec { secs: value, ..a.crtime }, ..a },
            AttrField::CrtimeNanos => FileAttr {
                crtime: TimeSpec { nanos: (value & 0xFFFF_FFFF) as u32, ..a.crtime },
                ..a
            },
        };
        proof {
            assert(patched == spec_patch(a, field, value));
            assert(patched.ino == a.ino && patched.size == a.size && patched.blocks == a.blocks);
            if field == AttrField::Nlink {
                assert(value & 0xFFFF_FFFF == value) by (bit_vector)
                    requires
                        value <= 0xFFFF_FFFFu64,
                ;
            }
            assert(patched.nlink >= 1);
        }
        self.inodes.set(i, patched);
        proof {
            let ghost post = *self;
            assert forall|x: int, y: int|
                0 <= x < y < post.inodes@.len() implies (#[trigger] post.inodes@[x]).ino != (
            #[trigger] post.inodes@[y]).ino by {
                assert(pre.inodes@[x].ino != pre.inodes@[y].ino);
            }
            assert forall|x: u64| #[trigger] post.has_inode(x) implies pre.has_inode(x) by {
                let w = choose|k: int|
                    0 <= k < post.inodes@.len() && (#[trigger] post.inodes@[k]).ino == x;
                assert(pre.inodes@[w].ino == x);
            }
            assert forall|x: u64| pre.has_inode(x) implies #[trigger] post.has_inode(x) by {
                let w = pre.inode_index(x);
                assert(post.inodes@[w].ino == x);
            }
            assert forall|x: u64| #[trigger] post.has_inode(x) implies post.inode_map()[x]
                == pre.inode_map().insert(ino, patched)[x] by {
                let w = post.inode_index(x);
                post.lemma_inode_at_full(w);
                if w == i {
                    assert(post.inodes@[w] == patched);
                } else {
                    assert(post.inodes@[w] == pre.inodes@[w]);
                    pre.lemma_inode_at(w);
                    assert(x != ino);
                }
            }
            assert(post.inode_map() =~= pre.inode_map().insert(ino, patched));
            assert forall|k: int| 0 <= k < post.contents@.len() implies {
                let c = #[trigger] post.contents@[k];
                post.has_inode(c.ino) && post.inode_of(c.ino).size == c.data.size()
            } by {
                pre.lemma_content_at(k);
                let c = post.contents@[k];
                let pw = pre.inode_index(c.ino);
                pre.lemma_inode_at(pw);
                assert(post.inodes@[pw].ino == c.ino);
                post.lemma_inode_at_full(pw);
                assert(post.inodes@[pw].size == pre.inodes@[pw].size);
            }
            assert forall|k: int|
                0 <= k < post.inodes@.len() implies ((#[trigger] post.inodes@[k]).size > 0
                ==> post.has_content(post.inodes@[k].ino)) by {
                assert(pre.inodes@[k].size > 0 ==> pre.has_content(pre.inodes@[k].ino));
                assert(post.inodes@[k].ino == pre.inodes@[k].ino && post.inodes@[k].size
                    == pre.inodes@[k].size);
            }
            assert(post.content_map() =~= pre.content_map());
        }
        Ok(())
    }

    // ----- directory-entry operations -----

    /// `lemma_entry_at` from key uniqueness alone.
    proof fn lemma_entry_at_full(self, i: int)
        requires
            forall|x: int, y: int|
                0 <= x < y < self.entries@.len() ==> !((#[trigger] self.entries@[x]).parent == (
                #[trigger] self.entries@[y]).parent && self.entries@[x].name@
                    == self.entries@[y].name@),
            0 <= i < self.entries@.len(),
        ensures
            self.has_entry(self.entries@[i].parent, self.entries@[i].name@),
            self.entry_index(self.entries@[i].parent, self.entries@[i].name@) == i,
            self.child_of(self.entries@[i].parent, self.entries@[i].name@)
                == self.entries@[i].child,
    {
        let p = self.entries@[i].parent;
        let n = self.entries@[i].name@;
        assert(self.has_entry(p, n));
        let w = self.entry_index(p, n);
        assert(0 <= w < self.entries@.len() && self.entries@[w].parent == p
            && self.entries@[w].name@ == n);
        if w < i {
            assert(!(self.entries@[w].parent == self.entries@[i].parent && self.entries@[w].name@
                == self.entries@[i].name@));
        } else if w > i {
            assert(!(self.entries@[i].parent == self.entries@[w].parent && self.entries@[i].name@
                == self.entries@[w].name@));
        }
    }

    /// Removing the entry at one index takes exactly its key out of the map
    /// view and leaves a well-formed store.
    proof fn lemma_entries_removed(pre: Store, post: Store, i: int)
        requires
            pre.wf(),
            0 <= i < pre.entries@.len(),
            post.entries@ == pre.entries@.remove(i),
            post.inodes@ == pre.inodes@,
            post.contents@ == pre.contents@,
            post.next_ino == pre.next_ino,
        ensures
            post.wf(),
            post.entry_map() =~= pre.entry_map().remove(
                (pre.entries@[i].parent, pre.entries@[i].name@),
            ),
            post.entries_view() =~= pre.entries_view().remove(i),
            !post.has_entry(pre.entries@[i].parent, pre.entries@[i].name@),
    {
        let key_p = pre.entries@[i].parent;
        let key_n = pre.entries@[i].name@;
        pre.entries@.remove_ensures(i);
        assert forall|k: int| 0 <= k < post.entries@.len() implies post.entries@[k] == (
        if k < i { pre.entries@[k] } else { pre.entries@[k + 1] }) by {}
        assert forall|x: int, y: int|
            0 <= x < y < post.entries@.len() implies !((#[trigger] post.entries@[x]).parent == (
        #[trigger] post.entries@[y]).parent && post.entries@[x].name@
            == post.entries@[y].name@) by {
            let px: int = if x < i { x } else { x + 1 };
            let py: int = if y < i { y } else { y + 1 };
            assert(post.entries@[x] == pre.entries@[px]);
            assert(post.entries@[y] == pre.entries@[py]);
        }
        assert forall|k: int| 0 <= k < post.entries@.len() implies valid_name(
            (#[trigger] post.entries@[k]).name@,
        ) by {
            let pk: int = if k < i { k } else { k + 1 };
            assert(post.entries@[k] == pre.entries@[pk]);
        }
        assert forall|pa: u64, na: Seq<u8>| #[trigger] post.has_entry(pa, na) implies pre.has_entry(
            pa,
            na,
        ) && !(pa == key_p && na == key_n) && post.entry_map()[(pa, na)] == pre.entry_map()[(
            pa,
            na,
        )] by {
            let w = choose|k: int|
                0 <= k < post.entries@.len() && (#[trigger] post.entries@[k]).parent == pa
                    && post.entries@[k].name@ == na;
            let pw: int = if w < i { w } else { w + 1 };
            assert(post.entries@[w] == pre.entries@[pw]);
            pre.lemma_entry_at(pw);
            post.lemma_entry_at_full(w);
            assert(pw != i);
        }
        assert forall|pa: u64, na: Seq<u8>|
            pre.has_entry(pa, na) && !(pa == key_p && na == key_n) implies
            #[trigger] post.has_entry(pa, na) by {
            let w = pre.entry_index(pa, na);
            pre.lemma_entry_at(w);
            assert(w != i);
            if w < i {
                assert(post.entries@[w] == pre.entries@[w]);
            } else {
                assert(post.entries@[w - 1] == pre.entries@[w]);
            }
        }
        assert(post.entry_map() =~= pre.entry_map().remove((key_p, key_n)));
        assert(post.entries_view() =~= pre.entries_view().remove(i));
    }

    /// Appending an entry under a fresh key adds exactly that key to the map
    /// view and keeps the store well-formed.
    proof fn lemma_entries_pushed(pre: Store, post: Store, e: DirEntry)
        requires
            pre.wf(),
            valid_name(e.name@),
            !pre.has_entry(e.parent, e.name@),
            post.entries@ == pre.entries@.push(e),
            post.inodes@ == pre.inodes@,
            post.contents@ == pre.contents@,
            post.next_ino == pre.next_ino,
        ensures
            post.wf(),
            post.entry_map() =~= pre.entry_map().insert((e.parent, e.name@), e.child),
            post.entries_view() =~= pre.entries_view().push((e.parent, e.name@, e.child)),
    {
        let n = pre.entries@.len() as int;
        assert forall|x: int, y: int|
            0 <= x < y < post.entries@.len() implies !((#[trigger] post.entries@[x]).parent == (
        #[trigger] post.entries@[y]).parent && post.entries@[x].name@
            == post.entries@[y].name@) by {
            if y == n {
                assert(post.entries@[x] == pre.entries@[x]);
                pre.lemma_entry_at(x);
                if post.entries@[x].parent == e.parent && post.entries@[x].name@ == e.name@ {
                    assert(pre.has_entry(e.parent, e.name@));
                }
            } else {
                assert(post.entries@[x] == pre.entries@[x]);
                assert(post.entries@[y] == pre.entries@[y]);
            }
        }
        assert forall|pa: u64, na: Seq<u8>| #[trigger] post.has_entry(pa, na) implies (pre.has_entry(
            pa,
            na,
        ) || (pa == e.parent && na == e.name@)) by {
            let w = choose|k: int|
                0 <= k < post.entries@.len() && (#[trigger] post.entries@[k]).parent == pa
                    && post.entries@[k].name@ == na;
            if w < n {
                assert(pre.entries@[w].parent == pa && pre.entries@[w].name@ == na);
            }
        }
        assert forall|pa: u64, na: Seq<u8>| pre.has_entry(pa, na) implies #[trigger] post.has_entry(
            pa,
            na,
        ) by {
            let w = pre.entry_index(pa, na);
            assert(post.entries@[w].parent == pa && post.entries@[w].name@ == na);
        }
        assert(post.has_entry(e.parent, e.name@)) by {
            assert(post.entries@[n].parent == e.parent && post.entries@[n].name@ == e.name@);
        }
        assert forall|pa: u64, na: Seq<u8>| #[trigger] post.has_entry(pa, na) implies post.entry_map()[(
            pa,
            na,
        )] == pre.entry_map().insert((e.parent, e.name@), e.child)[(pa, na)] by {
            let w = post.entry_index(pa, na);
            post.lemma_entry_at_full(w);
            if pa == e.parent && na == e.name@ {
                post.lemma_entry_at_full(n);
            } else {
                assert(w != n);
                assert(post.entries@[w] == pre.entries@[w]);
                pre.lemma_entry_at(w);
            }
        }
        assert(post.entry_map() =~= pre.entry_map().insert((e.parent, e.name@), e.child));
        assert(post.entries_view() =~= pre.entries_view().push((e.parent, e.name@, e.child)));
    }

    /// Index of the entry with the given key.
    fn find_entry(&self, parent: u64, name: &Vec<u8>) -> (r: Option<usize>)
        ensures
            match r {
                Some(i) => i < self.entries@.len() && self.entries@[i as int].parent == parent
                    && self.entries@[i as int].name@ == name@,
                None => !self.has_entry(parent, name@),
            },
    {
        let mut i: usize = 0;
        while i < self.entries.len()
            invariant
                i <= self.entries@.len(),
                forall|j: int|
                    0 <= j < i ==> !((#[trigger] self.entries@[j]).parent == parent
                        && self.entries@[j].name@ == name@),
            decreases self.entries@.len() - i,
        {
            if self.entries[i].parent == parent && self.entries[i].name == *name {
                return Some(i);
            }
            i = i + 1;
        }
        None
    }

    /// Child identifier that `name` names under `parent`.
    pub fn lookup_entry(&self, parent: u64, name: &Vec<u8>) -> (r: Result<u64, FsError>)
        requires
            self.wf(),
        ensures
            match r {
                Ok(child) => self.has_entry(parent, name@) && child == self.child_of(
                    parent,
                    name@,
                ),
                Err(e) => e == FsError::NotFound && !self.has_entry(parent, name@),
            },
    {
        match self.find_entry(parent, name) {
            Some(i) => {
                proof {
                    self.lemma_entry_at(i as int);
                }
                Ok(self.entries[i].child)
            },
            None => Err(FsError::NotFound),
        }
    }

    /// Write the edge `(parent, name) -> child` into the namespace.
    pub fn create_entry(&mut self, parent: u64, name: Vec<u8>, child: u64) -> (r: Result<
        (),
        FsError,
    >)
        requires
            old(self).wf(),
            valid_name(name@),
        ensures
            final(self).wf(),
            match r {
                Ok(()) => {
                    &&& !old(self).has_entry(parent, name@)
                    &&& final(self).entries_view() =~= old(self).entries_view().push(
                        (parent, name@, child),
                    )
                    &&& final(self).entry_map() =~= old(self).entry_map().insert(
                        (parent, name@),
                        child,
                    )
                    &&& final(self).inodes == old(self).inodes
                    &&& final(self).contents == old(self).contents
                    &&& final(self).next_ino == old(self).next_ino
                },
                Err(e) => {
                    &&& e == FsError::AlreadyExists
                    &&& old(self).has_entry(parent, name@)
                    &&& *final(self) == *old(self)
                },
            },
    {
        let ghost pre = *self;
        match self.find_entry(parent, &name) {
            Some(i) => {
                proof {
                    self.lemma_entry_at(i as int);
                }
                Err(FsError::AlreadyExists)
            },
            None => {
                let e = DirEntry { parent, name, child };
                self.entries.push(e);
                proof {
                    Store::lemma_entries_pushed(pre, *self, e);
                }
                Ok(())
            },
        }
    }

    /// Remove the edge keyed `(parent, name)`.
    pub fn remove_entry(&mut self, parent: u64, name: &Vec<u8>) -> (r: Result<(), FsError>)
        requires
            old(self).wf(),
        ensures
            final(self).wf(),
            match r {
                Ok(()) => {
                    &&& old(self).has_entry(parent, name@)
                    &&& final(self).entries_view() =~= old(self).entries_view().remove(
                        old(self).entry_index(parent, name@),
                    )
                    &&& final(self).entry_map() =~= old(self).entry_map().remove((parent, name@))
                    &&& final(self).inodes == old(self).inodes
                    &&& final(self).contents == old(self).contents
                    &&& final(self).next_ino == old(self).next_ino
                },
                Err(e) => {
                    &&& e == FsError::NotFound
                    &&& !old(self).has_entry(parent, name@)
                    &&& *final(self) == *old(self)
                },
            },
    {
        let ghost pre = *self;
        match self.find_entry(parent, name) {
            Some(i) => {
                proof {
                    pre.lemma_entry_at(i as int);
                }
                self.entries.remove(i);
                proof {
                    Store::lemma_entries_removed(pre, *self, i as int);
                }
                Ok(())
            },
            None => Err(FsError::NotFound),
        }
    }

    /// Whether no entry has `dir` as its parent.
    pub fn is_dir_empty(&self, dir: u64) -> (r: bool)
        ensures
            r == self.dir_is_empty(dir),
    {
        let mut i: usize = 0;
        while i < self.entries.len()
            invariant
                i <= self.entries@.len(),
                forall|j: int| 0 <= j < i ==> (#[trigger] self.entries@[j]).parent != dir,
            decreases self.entries@.len() - i,
        {
            if self.entries[i].parent == dir {
                return false;
            }
            i = i + 1;
        }
        true
    }

    /// Move the edge `(parent, name)` to the key `(new_parent, new_name)`,
    /// silently replacing an entry already at the destination key.
    pub fn rename_entry(
        &mut self,
        parent: u64,
        name: &Vec<u8>,
        new_parent: u64,
        new_name: Vec<u8>,
    ) -> (r: Result<(), FsError>)
        requires
            old(self).wf(),
            valid_name(new_name@),
        ensures
            final(self).wf(),
            match r {
                Ok(()) => {
                    &&& old(self).has_entry(parent, name@)
                    &&& final(self).entry_map() =~= old(self).entry_map().remove(
                        (parent, name@),
                    ).insert((new_parent, new_name@), old(self).child_of(parent, name@))
                    &&& final(self).inodes == old(self).inodes
                    &&& final(self).contents == old(self).contents
                    &&& final(self).next_ino == old(self).next_ino
                },
                Err(e) => {
                    &&& e == FsError::NotFound
                    &&& !old(self).has_entry(parent, name@)
                    &&& *final(self) == *old(self)
                },
            },
    {
        let ghost pre = *self;
        let i = match self.find_entry(parent, name) {
            Some(i) => i,
            None => { return Err(FsError::NotFound); },
        };
        proof {
            pre.lemma_entry_at(i as int);
        }
        let child = self.entries[i].child;
        self.entries.remove(i);
        let ghost mid1 = *self;
        proof {
            Store::lemma_entries_removed(pre, mid1, i as int);
        }
        match self.find_entry(new_parent, &new_name) {
            Some(d) => {
                proof {
                    mid1.lemma_entry_at(d as int);
                }
                self.entries.remove(d);
                proof {
                    Store::lemma_entries_removed(mid1, *self, d as int);
                }
            },
            None => {},
        }
        let ghost mid2 = *self;
        let e = DirEntry { parent: new_parent, name: new_name, child };
        self.entries.push(e);
        proof {
            Store::lemma_entries_pushed(mid2, *self, e);
            assert(final(self).entry_map() =~= pre.entry_map().remove((parent, name@)).insert(
                (new_parent, e.name@),
                child,
            ));
        }
        Ok(())
    }

    // ----- directory listing -----

    /// View of the entry at one index as a listing yields it: child, resume
    /// position, kind (of the child's inode, defaulting for a dangling
    /// entry), name.
    pub open spec fn spec_entry_view(self, i: int) -> (u64, u64, FileKind, Seq<u8>) {
        (
            self.entries@[i].child,
            (i + 1) as u64,
            if self.has_inode(self.entries@[i].child) {
                self.inode_of(self.entries@[i].child).kind
            } else {
                FileKind::RegularFile
            },
            self.entries@[i].name@,
        )
    }

    /// Every entry of directory `dir` stored at position `i` or later, in
    /// stored order.
    pub open spec fn spec_list_from(self, dir: u64, i: int) -> Seq<(u64, u64, FileKind, Seq<u8>)>
        decreases self.entries@.len() - i,
    {
        if i < 0 || i >= self.entries@.len() {
            Seq::empty()
        } else if self.entries@[i].parent == dir {
            seq![self.spec_entry_view(i)] + self.spec_list_from(dir, i + 1)
        } else {
            self.spec_list_from(dir, i + 1)
        }
    }

    /// List the entries of `dir` starting at position `start`, yielding at
    /// most `max` of them in stable stored order. Each yielded entry carries
    /// the position to resume from so a later call continues strictly after
    /// it.
    pub fn list_dir(&self, dir: u64, start: u64, max: usize) -> (r: Vec<ListDirEntry>)
        requires
            self.wf(),
        ensures
            ({
                let full = self.spec_list_from(dir, start as int);
                r@.map_values(|e: ListDirEntry| e.view_tuple()) =~= if max < full.len() {
                    full.take(max as int)
                } else {
                    full
                }
            }),
    {
        let ghost full = self.spec_list_from(dir, start as int);
        let mut r: Vec<ListDirEntry> = Vec::new();
        let n = self.entries.len();
        if start > n as u64 {
            proof {
                assert(self.entries@.len() == n);
                assert(full =~= Seq::empty());
            }
            return r;
        }
        let mut i: usize = start as usize;
        while i < self.entries.len() && r.len() < max
            invariant
                self.wf(),
                start <= i,
                r@.len() <= max,
                full == r@.map_values(|e: ListDirEntry| e.view_tuple()) + self.spec_list_from(
                    dir,
                    i as int,
                ),
            decreases self.entries@.len() - i,
        {
            let ghost r_pre = r@;
            if self.entries[i].parent == dir {
                let child = self.entries[i].child;
                let kind = match self.lookup_inode(child) {
                    Ok(a) => a.kind,
                    Err(_) => FileKind::RegularFile,
                };
                let name = self.entries[i].name.clone();
                proof {
                    assert(name@ =~= self.entries@[i as int].name@);
                }
                let e = ListDirEntry { ino: child, position: i as u64 + 1, kind, name };
                proof {
                    assert(e.view_tuple() == self.spec_entry_view(i as int));
                }
                r.push(e);
                proof {
                    assert(r@.map_values(|e: ListDirEntry| e.view_tuple()) =~= r_pre.map_values(
                        |e: ListDirEntry| e.view_tuple(),
                    ).push(self.spec_entry_view(i as int)));
                }
            }
            i = i + 1;
        }
        proof {
            let got = r@.map_values(|e: ListDirEntry| e.view_tuple());
            if i >= self.entries@.len() {
                assert(self.spec_list_from(dir, i as int) =~= Seq::empty());
                assert(full =~= got);
                assert(got.len() <= max);
            } else {
                assert(r@.len() == max);
                assert(full.take(max as int) =~= got);
            }
        }
        r
    }

    // ----- content operations -----

    /// `bytes` resized to `s`: truncated, or extended with zeroes.
    pub open spec fn spec_resize(bytes: Seq<u8>, s: int) -> Seq<u8> {
        Seq::new(s as nat, |i: int| if i < bytes.len() { bytes[i] } else { 0u8 })
    }

    /// What a read of `len` bytes at `offset` yields: the bytes up to the
    /// requested length, capped at the end of the file; nothing when the
    /// offset is at or past the end.
    pub open spec fn spec_read(self, ino: u64, offset: u64, len: u32) -> Seq<u8> {
        let bytes = self.file_bytes(ino);
        if offset >= bytes.len() {
            Seq::empty()
        } else if offset + len <= bytes.len() {
            bytes.subrange(offset as int, offset as int + len as int)
        } else {
            bytes.subrange(offset as int, bytes.len() as int)
        }
    }

    /// Serve a read against the stored blocks, capped at the file's size.
    pub fn read_file(&self, ino: u64, offset: u64, len: u32) -> (r: Result<Vec<u8>, FsError>)
        requires
            self.wf(),
        ensures
            match r {
                Ok(buf) => self.has_inode(ino) && buf@ =~= self.spec_read(ino, offset, len),
                Err(e) => e == FsError::NotFound && !self.has_inode(ino),
            },
    {
        let attr = self.lookup_inode(ino)?;
        proof {
            if self.has_content(ino) {
                let ci = self.content_index(ino);
                self.lemma_content_at(ci);
            }
            let w = self.inode_index(ino);
            self.lemma_inode_at(w);
        }
        if offset >= attr.size {
            proof {
                assert(attr.size == self.file_bytes(ino).len());
            }
            return Ok(Vec::new());
        }
        let cap: u64 = if len as u64 <= attr.size - offset {
            len as u64
        } else {
            attr.size - offset
        };
        let ci = match self.find_content(ino) {
            Some(ci) => ci,
            None => {
                // unreachable: a file with bytes before `offset` holds blocks
                return Ok(Vec::new());
            },
        };
        proof {
            self.lemma_content_at(ci as int);
        }
        let buf = self.contents[ci].data.read_range(offset, cap as usize);
        Ok(buf)
    }

    /// Overlay `data` onto the file's bytes at `offset` and refresh the
    /// inode's size and block count, all as one mutation of the store.
    #[verifier::rlimit(100)]
    #[verifier::spinoff_prover]
    pub fn write_file(&mut self, ino: u64, offset: u64, data: &Vec<u8>) -> (r: Result<
        (),
        FsError,
    >)
        requires
            old(self).wf(),
            offset + data@.len() <= MAX_FILE_SIZE,
        ensures
            final(self).wf(),
            match r {
                Ok(()) => {
                    &&& old(self).has_inode(ino)
                    &&& data@.len() > 0
                    &&& ({
                        let nb = spec_overlay(old(self).file_bytes(ino), offset as int, data@);
                        &&& final(self).content_map() =~= old(self).content_map().insert(ino, nb)
                        &&& final(self).inode_map() =~= old(self).inode_map().insert(
                            ino,
                            FileAttr {
                                size: nb.len() as u64,
                                blocks: spec_block_count(nb.len() as u64) as u64,
                                ..old(self).inode_of(ino)
                            },
                        )
                    })
                    &&& final(self).entries == old(self).entries
                    &&& final(self).next_ino == old(self).next_ino
                },
                Err(e) => match e {
                    FsError::NotFound => !old(self).has_inode(ino) && *final(self) == *old(self),
                    FsError::InvalidArgument => data@.len() == 0 && *final(self) == *old(self),
                    _ => false,
                },
            },
    {
        let ghost pre = *self;
        let i = match self.find_inode(ino) {
            Some(i) => i,
            None => { return Err(FsError::NotFound); },
        };
        proof {
            pre.lemma_inode_at(i as int);
        }
        if data.len() == 0 {
            return Err(FsError::InvalidArgument);
        }
        let a = self.inodes[i];
        let ghost nb = spec_overlay(pre.file_bytes(ino), offset as int, data@);
        // bring the content record to the new bytes
        let new_rec = match self.find_content(ino) {
            Some(ci) => {
                proof {
                    pre.lemma_content_at(ci as int);
                }
                let mut rec = self.contents.remove(ci);
                rec.data.write_range(offset, data);
                rec
            },
            None => {
                proof {
                    assert(pre.file_bytes(ino) =~= Seq::empty());
                }
                let mut fc = crate::content::FileContent::new();
                fc.write_range(offset, data);
                ContentRec { ino, data: fc }
            },
        };
        proof {
            assert(new_rec.ino == ino);
            assert(new_rec.data.bytes() =~= nb);
            assert(new_rec.data.size() == nb.len());
            assert(nb.len() > 0);
        }
        self.contents.push(new_rec);
        proof {
            if pre.has_content(ino) {
                assert(self.contents@.drop_last() =~= pre.contents@.remove(
                    pre.content_index(ino),
                ));
            } else {
                assert(self.contents@.drop_last() =~= pre.contents@);
            }
        }
        // refresh the inode's derived fields
        let end = offset + data.len() as u64;
        let new_size = if a.size >= end {
            a.size
        } else {
            end
        };
        proof {
            assert(a.size == pre.file_bytes(ino).len());
            assert(new_size == nb.len());
        }
        let patched = FileAttr { size: new_size, blocks: block_count_of(new_size), ..a };
        self.inodes.set(i, patched);
        proof {
            let ghost post = *self;
            Store::lemma_write_file_post(pre, post, ino, i as int, nb, patched);
        }
        Ok(())
    }

    /// After a write: the content list lost at most the old record for `ino`
    /// and gained one holding `nb` at the back, and the inode list was
    /// updated in place at `i`. Re-establish the invariant and the map views.
    #[verifier::rlimit(100)]
    #[verifier::spinoff_prover]
    proof fn lemma_write_file_post(
        pre: Store,
        post: Store,
        ino: u64,
        i: int,
        nb: Seq<u8>,
        patched: FileAttr,
    )
        requires
            pre.wf(),
            0 <= i < pre.inodes@.len(),
            pre.inodes@[i].ino == ino,
            nb.len() > 0,
            nb.len() <= MAX_FILE_SIZE,
            patched == (FileAttr {
                size: nb.len() as u64,
                blocks: spec_block_count(nb.len() as u64) as u64,
                ..pre.inodes@[i]
            }),
            post.inodes@ == pre.inodes@.update(i, patched),
            post.entries@ == pre.entries@,
            post.next_ino == pre.next_ino,
            post.contents@.len() > 0,
            post.contents@.last().ino == ino,
            post.contents@.last().data.wf(),
            post.contents@.last().data.bytes() == nb,
            post.contents@.last().data.size() == nb.len(),
            pre.has_content(ino) ==> post.contents@.drop_last() == pre.contents@.remove(
                pre.content_index(ino),
            ),
            !pre.has_content(ino) ==> post.contents@.drop_last() == pre.contents@,
        ensures
            post.wf(),
            post.content_map() =~= pre.content_map().insert(ino, nb),
            post.inode_map() =~= pre.inode_map().insert(ino, patched),
    {
        pre.lemma_inode_at(i);
        if pre.has_content(ino) {
            pre.contents@.remove_ensures(pre.content_index(ino));
        }
        let m = post.contents@.len() - 1;
        // correspondence of surviving content records to old indices
        assert forall|k: int| 0 <= k < m implies (post.contents@[k]
            == if pre.has_content(ino) && k >= pre.content_index(ino) {
                pre.contents@[k + 1]
            } else {
                pre.contents@[k]
            }) && (#[trigger] post.contents@[k]).ino != ino by {
            if pre.has_content(ino) {
                let ci = pre.content_index(ino);
                pre.lemma_content_at(ci);
                assert(post.contents@.drop_last()[k] == pre.contents@.remove(ci)[k]);
                let pk: int = if k < ci { k } else { k + 1 };
                assert(post.contents@[k] == pre.contents@[pk]);
                pre.lemma_content_at(pk);
                if post.contents@[k].ino == ino {
                    assert(pk == ci);
                }
            } else {
                assert(post.contents@.drop_last()[k] == pre.contents@[k]);
                pre.lemma_content_at(k);
                if post.contents@[k].ino == ino {
                    assert(pre.has_content(ino));
                }
            }
        }
        // uniqueness of content keys
        assert forall|x: int, y: int|
            0 <= x < y < post.contents@.len() implies (#[trigger] post.contents@[x]).ino != (
        #[trigger] post.contents@[y]).ino by {
            if y < m {
                let px: int = if pre.has_content(ino) && x >= pre.content_index(ino) {
                    x + 1
                } else {
                    x
                };
                let py: int = if pre.has_content(ino) && y >= pre.content_index(ino) {
                    y + 1
                } else {
                    y
                };
                if pre.has_content(ino) {
                    pre.lemma_content_at(pre.content_index(ino));
                }
                assert(post.contents@[x] == pre.contents@[px]);
                assert(post.contents@[y] == pre.contents@[py]);
            }
        }
        // inode uniqueness and index correspondence
        assert forall|x: int, y: int|
            0 <= x < y < post.inodes@.len() implies (#[trigger] post.inodes@[x]).ino != (
        #[trigger] post.inodes@[y]).ino by {
            assert(pre.inodes@[x].ino != pre.inodes@[y].ino);
        }
        assert forall|x: u64| #[trigger] post.has_inode(x) implies pre.has_inode(x) by {
            let w = choose|k: int|
                0 <= k < post.inodes@.len() && (#[trigger] post.inodes@[k]).ino == x;
            assert(pre.inodes@[w].ino == x);
        }
        assert forall|x: u64| pre.has_inode(x) implies #[trigger] post.has_inode(x) by {
            let w = pre.inode_index(x);
            assert(post.inodes@[w].ino == x);
        }
        assert forall|x: u64| #[trigger] post.has_inode(x) implies post.inode_map()[x]
            == pre.inode_map().insert(ino, patched)[x] by {
            let w = post.inode_index(x);
            post.lemma_inode_at_full(w);
            if w == i {
                assert(post.inodes@[w] == patched);
            } else {
                assert(post.inodes@[w] == pre.inodes@[w]);
                pre.lemma_inode_at(w);
                assert(x != ino);
            }
        }
        assert(post.inode_map() =~= pre.inode_map().insert(ino, patched));
        // content membership and map
        assert(post.has_content(ino)) by {
            assert(post.contents@[m].ino == ino);
        }
        assert forall|x: u64| #[trigger] post.has_content(x) implies (pre.has_content(x) || x
            == ino) by {
            let w = choose|k: int|
                0 <= k < post.contents@.len() && (#[trigger] post.contents@[k]).ino == x;
            if w < m {
                let pw: int = if pre.has_content(ino) && w >= pre.content_index(ino) {
                    w + 1
                } else {
                    w
                };
                assert(pre.contents@[pw].ino == x);
                pre.lemma_content_at(pw);
            }
        }
        assert forall|x: u64| pre.has_content(x) implies #[trigger] post.has_content(x) by {
            if x != ino {
                let w = pre.content_index(x);
                pre.lemma_content_at(w);
                if pre.has_content(ino) {
                    let ci = pre.content_index(ino);
                    pre.lemma_content_at(ci);
                    if w < ci {
                        assert(post.contents@[w].ino == x);
                    } else {
                        assert(w > ci);
                        assert(post.contents@[w - 1].ino == x);
                    }
                } else {
                    assert(post.contents@[w].ino == x);
                }
            }
        }
        assert forall|x: u64| #[trigger] post.has_content(x) implies post.content_map()[x]
            == pre.content_map().insert(ino, nb)[x] by {
            let w = post.content_index(x);
            post.lemma_content_at_full(w);
            if x == ino {
                post.lemma_content_at_full(m);
            } else {
                assert(w != m);
                let pw: int = if pre.has_content(ino) && w >= pre.content_index(ino) {
                    w + 1
                } else {
                    w
                };
                if pre.has_content(ino) {
                    pre.lemma_content_at(pre.content_index(ino));
                }
                assert(post.contents@[w] == pre.contents@[pw]);
                pre.lemma_content_at(pw);
            }
        }
        assert(post.content_map() =~= pre.content_map().insert(ino, nb));
        // the remaining invariant clauses
        assert forall|k: int| 0 <= k < post.contents@.len() implies {
            let c = #[trigger] post.contents@[k];
            c.data.wf() && c.data.size() > 0 && post.has_inode(c.ino) && post.inode_of(c.ino).size
                == c.data.size()
        } by {
            post.lemma_content_at_full(k);
            let c = post.contents@[k];
            if k == m {
                post.lemma_inode_at_full(i);
            } else {
                let pw: int = if pre.has_content(ino) && k >= pre.content_index(ino) {
                    k + 1
                } else {
                    k
                };
                if pre.has_content(ino) {
                    pre.lemma_content_at(pre.content_index(ino));
                }
                assert(c == pre.contents@[pw]);
                pre.lemma_content_at(pw);
                let iw = pre.inode_index(c.ino);
                pre.lemma_inode_at(iw);
                assert(iw != i);
                assert(post.inodes@[iw] == pre.inodes@[iw]);
                post.lemma_inode_at_full(iw);
            }
        }
        assert forall|k: int|
            0 <= k < post.inodes@.len() implies ((#[trigger] post.inodes@[k]).size > 0
            ==> post.has_content(post.inodes@[k].ino)) by {
            if k != i {
                assert(post.inodes@[k] == pre.inodes@[k]);
                pre.lemma_inode_at(k);
            }
        }
    }

    /// Resize a file: drop every block past the boundary and cut the
    /// boundary block (shrinking), or extend with zeroes (growing), then
    /// refresh the inode's size and block count.
    #[verifier::rlimit(100)]
    #[verifier::spinoff_prover]
    pub fn truncate_file(&mut self, ino: u64, new_size: u64) -> (r: Result<(), FsError>)
        requires
            old(self).wf(),
            new_size <= MAX_FILE_SIZE,
        ensures
            final(self).wf(),
            match r {
                Ok(()) => {
                    &&& old(self).has_inode(ino)
                    &&& ({
                        let nb = Store::spec_resize(old(self).file_bytes(ino), new_size as int);
                        &&& final(self).content_map() =~= if new_size == 0 {
                            old(self).content_map().remove(ino)
                        } else {
                            old(self).content_map().insert(ino, nb)
                        }
                        &&& final(self).inode_map() =~= old(self).inode_map().insert(
                            ino,
                            FileAttr {
                                size: new_size,
                                blocks: spec_block_count(new_size) as u64,
                                ..old(self).inode_of(ino)
                            },
                        )
                    })
                    &&& final(self).entries == old(self).entries
                    &&& final(self).next_ino == old(self).next_ino
                },
                Err(e) => {
                    &&& e == FsError::NotFound
                    &&& !old(self).has_inode(ino)
                    &&& *final(self) == *old(self)
                },
            },
    {
        let ghost pre = *self;
        let i = match self.find_inode(ino) {
            Some(i) => i,
            None => { return Err(FsError::NotFound); },
        };
        proof {
            pre.lemma_inode_at(i as int);
        }
        let a = self.inodes[i];
        let patched = FileAttr { size: new_size, blocks: block_count_of(new_size), ..a };
        let ghost nb = Store::spec_resize(pre.file_bytes(ino), new_size as int);
        if new_size == 0 {
            match self.find_content(ino) {
                Some(ci) => {
                    proof {
                        pre.lemma_content_at(ci as int);
                    }
                    self.contents.remove(ci);
                },
                None => {},
            }
            self.inodes.set(i, patched);
            proof {
                Store::lemma_truncate_zero_post(pre, *self, ino, i as int, patched);
            }
        } else {
            let cur = a.size;
            let new_rec = match self.find_content(ino) {
                Some(ci) => {
                    proof {
                        pre.lemma_content_at(ci as int);
                    }
                    let mut rec = self.contents.remove(ci);
                    if new_size <= cur {
                        rec.data.truncate_to(new_size);
                    } else {
                        let pad: Vec<u8> = Vec::new();
                        rec.data.write_range(new_size, &pad);
                    }
                    rec
                },
                None => {
                    proof {
                        assert(pre.file_bytes(ino) =~= Seq::empty());
                    }
                    let mut fc = crate::content::FileContent::new();
                    let pad: Vec<u8> = Vec::new();
                    fc.write_range(new_size, &pad);
                    ContentRec { ino, data: fc }
                },
            };
            proof {
                assert(new_rec.ino == ino);
                assert(new_rec.data.bytes() =~= nb);
                assert(new_rec.data.size() == nb.len());
            }
            self.contents.push(new_rec);
            proof {
                if pre.has_content(ino) {
                    assert(self.contents@.drop_last() =~= pre.contents@.remove(
                        pre.content_index(ino),
                    ));
                } else {
                    assert(self.contents@.drop_last() =~= pre.contents@);
                }
            }
            self.inodes.set(i, patched);
            proof {
                Store::lemma_write_file_post(pre, *self, ino, i as int, nb, patched);
            }
        }
        Ok(())
    }

    /// After truncation to size zero: the file's content record is gone and
    /// its inode reports no bytes and no blocks.
    #[verifier::rlimit(100)]
    #[verifier::spinoff_prover]
    proof fn lemma_truncate_zero_post(pre: Store, post: Store, ino: u64, i: int, patched: FileAttr)
        requires
            pre.wf(),
            0 <= i < pre.inodes@.len(),
            pre.inodes@[i].ino == ino,
            patched == (FileAttr { size: 0u64, blocks: spec_block_count(0u64) as u64, ..pre.inodes@[i] }),
            post.inodes@ == pre.inodes@.update(i, patched),
            post.entries@ == pre.entries@,
            post.next_ino == pre.next_ino,
            pre.has_content(ino) ==> post.contents@ == pre.contents@.remove(
                pre.content_index(ino),
            ),
            !pre.has_content(ino) ==> post.contents@ == pre.contents@,
        ensures
            post.wf(),
            post.content_map() =~= pre.content_map().remove(ino),
            post.inode_map() =~= pre.inode_map().insert(ino, patched),
    {
        pre.lemma_inode_at(i);
        if pre.has_content(ino) {
            pre.contents@.remove_ensures(pre.content_index(ino));
        }
        // inode side, as for any in-place record update
        assert forall|x: int, y: int|
            0 <= x < y < post.inodes@.len() implies (#[trigger] post.inodes@[x]).ino != (
        #[trigger] post.inodes@[y]).ino by {
            assert(pre.inodes@[x].ino != pre.inodes@[y].ino);
        }
        assert forall|x: u64| #[trigger] post.has_inode(x) implies pre.has_inode(x) by {
            let w = choose|k: int|
                0 <= k < post.inodes@.len() && (#[trigger] post.inodes@[k]).ino == x;
            assert(pre.inodes@[w].ino == x);
        }
        assert forall|x: u64| pre.has_inode(x) implies #[trigger] post.has_inode(x) by {
            let w = pre.inode_index(x);
            assert(post.inodes@[w].ino == x);
        }
        assert forall|x: u64| #[trigger] post.has_inode(x) implies post.inode_map()[x]
            == pre.inode_map().insert(ino, patched)[x] by {
            let w = post.inode_index(x);
            post.lemma_inode_at_full(w);
            if w == i {
                assert(post.inodes@[w] == patched);
            } else {
                assert(post.inodes@[w] == pre.inodes@[w]);
                pre.lemma_inode_at(w);
                assert(x != ino);
            }
        }
        assert(post.inode_map() =~= pre.inode_map().insert(ino, patched));
        // content side: exactly the record for `ino` (if any) went away
        if pre.has_content(ino) {
            let ci = pre.content_index(ino);
            pre.lemma_content_at(ci);
            assert forall|x: int, y: int|
                0 <= x < y < post.contents@.len() implies (#[trigger] post.contents@[x]).ino != (
            #[trigger] post.contents@[y]).ino by {
                let px: int = if x < ci { x } else { x + 1 };
                let py: int = if y < ci { y } else { y + 1 };
                assert(post.contents@[x] == pre.contents@[px]);
                assert(post.contents@[y] == pre.contents@[py]);
            }
            assert forall|x: u64| #[trigger] post.has_content(x) implies pre.has_content(x) && x
                != ino && post.content_map()[x] == pre.content_map()[x] by {
                let w = choose|k: int|
                    0 <= k < post.contents@.len() && (#[trigger] post.contents@[k]).ino == x;
                let pw: int = if w < ci { w } else { w + 1 };
                assert(post.contents@[w] == pre.contents@[pw]);
                pre.lemma_content_at(pw);
                post.lemma_content_at_full(w);
            }
            assert forall|x: u64| pre.has_content(x) && x != ino implies
                #[trigger] post.has_content(x) by {
                let w = pre.content_index(x);
                pre.lemma_content_at(w);
                if w < ci {
                    assert(post.contents@[w].ino == x);
                } else {
                    assert(w > ci);
                    assert(post.contents@[w - 1].ino == x);
                }
            }
        } else {
            assert forall|x: u64| #[trigger] post.has_content(x) implies pre.has_content(x) && x
                != ino && post.content_map()[x] == pre.content_map()[x] by {
                if x == ino {
                    assert(pre.has_content(ino));
                }
            }
        }
        assert(!post.has_content(ino));
        assert(post.content_map() =~= pre.content_map().remove(ino));
        // remaining invariant clauses
        assert forall|k: int| 0 <= k < post.contents@.len() implies {
            let c = #[trigger] post.contents@[k];
            c.data.wf() && c.data.size() > 0 && post.has_inode(c.ino) && post.inode_of(c.ino).size
                == c.data.size()
        } by {
            post.lemma_content_at_full(k);
            let c = post.contents@[k];
            assert(pre.has_content(c.ino) && pre.content_of(c.ino) == c.data.bytes());
            let pw: int = if pre.has_content(ino) && k >= pre.content_index(ino) {
                k + 1
            } else {
                k
            };
            if pre.has_content(ino) {
                pre.lemma_content_at(pre.content_index(ino));
            }
            assert(c == pre.contents@[pw]);
            pre.lemma_content_at(pw);
            let iw = pre.inode_index(c.ino);
            pre.lemma_inode_at(iw);
            assert(iw != i);
            assert(post.inodes@[iw] == pre.inodes@[iw]);
            post.lemma_inode_at_full(iw);
        }
        assert forall|k: int|
            0 <= k < post.inodes@.len() implies ((#[trigger] post.inodes@[k]).size > 0
            ==> post.has_content(post.inodes@[k].ino)) by {
            if k != i {
                assert(post.inodes@[k] == pre.inodes@[k]);
                pre.lemma_inode_at(k);
            }
        }
    }
}

} // verus!
