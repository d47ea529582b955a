//! The operation translator: the kernel-facing surface. Each operation runs
//! as one atomic mutation of the record store (the transaction), consults or
//! updates the open-handle table, and keeps the POSIX-like invariants: link
//! counts, directory emptiness, byte-accurate sizes.

use vstd::prelude::*;

use crate::errors::FsError;
use crate::flags::{spec_parse_flags, OpenFlags};
use crate::handle::{FileHandle, HandleTable};
use crate::store::{spec_patch, valid_name, AttrField, ListDirEntry, Store};
use crate::types::{
    spec_block_count, FileAttr, FileKind, RequestInfo, TimeSpec, MAX_FILE_SIZE, POSIX_BLOCK_SIZE,
};

verus! {

/// The identifier reserved for the root directory.
pub const ROOT_INO: u64 = 1;

/// Attribute defaults of the lazily created root directory.
pub const ROOT_PERM: u16 = 0o755;
pub const ROOT_UID: u32 = 1000;
pub const ROOT_GID: u32 = 1000;

/// The driver: the record store plus the table of open handles.
pub struct FuseDriver {
    pub store: Store,
    pub handles: HandleTable,
}

/// The attribute record every fresh object starts from.
pub open spec fn spec_new_attr(
    kind: FileKind,
    perm: u16,
    nlink: u32,
    uid: u32,
    gid: u32,
    rdev: u32,
    blksize: u32,
    now: TimeSpec,
) -> FileAttr {
    FileAttr {
        ino: 0,
        size: 0,
        blocks: 0,
        atime: now,
        mtime: now,
        ctime: now,
        crtime: now,
        kind,
        perm,
        nlink,
        uid,
        gid,
        rdev,
        blksize,
        flags: 0,
    }
}

/// The optional fields of a `setattr` call; each present field is applied
/// as one patch, and a present size drives truncation of the content blocks
/// before the size field itself is persisted.
#[derive(Clone, Copy, Debug)]
pub struct SetAttrRequest {
    pub mode: Option<u32>,
    pub uid: Option<u32>,
    pub gid: Option<u32>,
    pub size: Option<u64>,
    pub atime: Option<TimeSpec>,
    pub mtime: Option<TimeSpec>,
    pub ctime: Option<TimeSpec>,
    pub crtime: Option<TimeSpec>,
    pub flags: Option<u32>,
}

impl SetAttrRequest {
    /// A request that patches nothing.
    pub fn none() -> (r: SetAttrRequest)
        ensures
            r == (SetAttrRequest {
                mode: None,
                uid: None,
                gid: None,
                size: None,
                atime: None,
                mtime: None,
                ctime: None,
                crtime: None,
                flags: None,
            }),
    {
        SetAttrRequest {
            mode: None,
            uid: None,
            gid: None,
            size: None,
            atime: None,
            mtime: None,
            ctime: None,
            crtime: None,
            flags: None,
        }
    }
}

/// The attribute record a `setattr` request turns `a` into: each present
/// field patched in order, a present size also refreshing the block count.
pub open spec fn spec_setattr_attr(a: FileAttr, r: SetAttrRequest) -> FileAttr {
    let a3 = spec_setattr_owner(a, r);
    let a4 = if r.size is Some {
        FileAttr { size: r.size->0, blocks: spec_block_count(r.size->0) as u64, ..a3 }
    } else {
        a3
    };
    spec_setattr_times(a4, r)
}

/// The permission and ownership patches of a `setattr` request applied to
/// `a`.
pub open spec fn spec_setattr_owner(a: FileAttr, r: SetAttrRequest) -> FileAttr {
    let a1 = if r.mode is Some {
        spec_patch(a, AttrField::Perm, r.mode->0 as u64)
    } else {
        a
    };
    let a2 = if r.uid is Some {
        spec_patch(a1, AttrField::Uid, r.uid->0 as u64)
    } else {
        a1
    };
    if r.gid is Some {
        spec_patch(a2, AttrField::Gid, r.gid->0 as u64)
    } else {
        a2
    }
}

/// The timestamp and flag patches of a `setattr` request applied to `a`.
pub open spec fn spec_setattr_times(a: FileAttr, r: SetAttrRequest) -> FileAttr {
    let a5 = if r.atime is Some {
        spec_patch(
            spec_patch(a, AttrField::AtimeSecs, r.atime->0.secs),
            AttrField::AtimeNanos,
            r.atime->0.nanos as u64,
        )
    } else {
        a
    };
    let a6 = if r.mtime is Some {
        spec_patch(
            spec_patch(a5, AttrField::MtimeSecs, r.mtime->0.secs),
            AttrField::MtimeNanos,
            r.mtime->0.nanos as u64,
        )
    } else {
        a5
    };
    let a7 = if r.ctime is Some {
        spec_patch(
            spec_patch(a6, AttrField::CtimeSecs, r.ctime->0.secs),
            AttrField::CtimeNanos,
            r.ctime->0.nanos as u64,
        )
    } else {
        a6
    };
    let a8 = if r.crtime is Some {
        spec_patch(
            spec_patch(a7, AttrField::CrtimeSecs, r.crtime->0.secs),
            AttrField::CrtimeNanos,
            r.crtime->0.nanos as u64,
        )
    } else {
        a7
    };
    if r.flags is Some {
        spec_patch(a8, AttrField::Flags, r.flags->0 as u64)
    } else {
        a8
    }
}

impl FuseDriver {
    pub open spec fn wf(self) -> bool {
        &&& self.store.wf()
        &&& self.handles.wf()
    }

    /// The bytes of the file a handle is open on, as a reader would see them
    /// once the handle's buffer is flushed: the committed bytes with the
    /// buffered bytes overlaid at the buffer's tagged offset.
    pub open spec fn effective_bytes(store: Store, h: FileHandle) -> Seq<u8> {
        if h.buffer@.len() == 0 {
            store.file_bytes(h.ino)
        } else {
            crate::content::spec_overlay(
                store.file_bytes(h.ino),
                h.buffer_offset as int,
                h.buffer@,
            )
        }
    }

    /// A driver over a store; fresh stores come from `Store::new`.
    pub fn new(store: Store) -> (r: FuseDriver)
        requires
            store.wf(),
        ensures
            r.wf(),
            r.store == store,
            forall|fh: int| !r.handles.live(fh),
    {
        FuseDriver { store, handles: HandleTable::new() }
    }

    /// Create the root directory on first access if it is absent. The root
    /// takes identifier 1 on a fresh store, where no record was ever
    /// assigned an identifier.
    pub fn ensure_root_exists(&mut self, now: TimeSpec) -> (r: Result<(), FsError>)
        requires
            old(self).wf(),
        ensures
            final(self).wf(),
            final(self).handles == old(self).handles,
            old(self).store.has_inode(ROOT_INO) ==> r is Ok && final(self).store
                == old(self).store,
            !old(self).store.has_inode(ROOT_INO) && old(self).store.next_ino < u64::MAX ==> {
                &&& r is Ok
                &&& final(self).store.inode_map() =~= old(self).store.inode_map().insert(
                    old(self).store.next_ino,
                    (FileAttr {
                        ino: old(self).store.next_ino,
                        ..spec_new_attr(
                            FileKind::Directory,
                            ROOT_PERM,
                            2u32,
                            ROOT_UID,
                            ROOT_GID,
                            0u32,
                            0u32,
                            now,
                        )
                    }),
                )
                &&& final(self).store.entries_view() == old(self).store.entries_view()
                &&& final(self).store.content_map() =~= old(self).store.content_map()
                &&& old(self).store.next_ino == 1 ==> final(self).store.has_inode(ROOT_INO)
            },
    {
        match self.store.lookup_inode(ROOT_INO) {
            Ok(_) => Ok(()),
            Err(_) => {
                let attr = FileAttr {
                    ino: 0,
                    size: 0,
                    blocks: 0,
                    atime: now,
                    mtime: now,
                    ctime: now,
                    crtime: now,
                    kind: FileKind::Directory,
                    perm: ROOT_PERM,
                    nlink: 2,
                    uid: ROOT_UID,
                    gid: ROOT_GID,
                    rdev: 0,
                    blksize: 0,
                    flags: 0,
                };
                match self.store.create_inode(attr) {
                    Ok(a) => {
                        proof {
                            assert(self.store.inode_map().contains_key(a.ino));
                            assert(self.store.has_inode(a.ino));
                        }
                        Ok(())
                    },
                    Err(e) => Err(e),
                }
            },
        }
    }

    /// Resolve `name` under `parent` and return the child's attributes.
    pub fn lookup(&self, parent: u64, name: &Vec<u8>) -> (r: Result<FileAttr, FsError>)
        requires
            self.wf(),
        ensures
            match r {
                Ok(a) => {
                    &&& self.store.has_entry(parent, name@)
                    &&& self.store.has_inode(self.store.child_of(parent, name@))
                    &&& a == self.store.inode_of(self.store.child_of(parent, name@))
                },
                Err(e) => {
                    &&& e == FsError::NotFound
                    &&& !self.store.has_entry(parent, name@) || !self.store.has_inode(
                        self.store.child_of(parent, name@),
                    )
                },
            },
    {
        let ino = self.store.lookup_entry(parent, name)?;
        let attr = self.store.lookup_inode(ino)?;
        Ok(attr)
    }

    /// Attributes of an inode.
    pub fn getattr(&self, ino: u64) -> (r: Result<FileAttr, FsError>)
        requires
            self.wf(),
        ensures
            match r {
                Ok(a) => self.store.has_inode(ino) && a == self.store.inode_of(ino),
                Err(e) => e == FsError::NotFound && !self.store.has_inode(ino),
            },
    {
        self.store.lookup_inode(ino)
    }

    /// Create a non-directory object: build its attribute record, persist
    /// it under a fresh identifier, and enter it into the namespace.
    pub fn mknod(
        &mut self,
        req: RequestInfo,
        parent: u64,
        name: Vec<u8>,
        mode: u32,
        umask: u32,
        rdev: u32,
    ) -> (r: Result<FileAttr, FsError>)
        requires
            old(self).wf(),
            valid_name(name@),
        ensures
            final(self).wf(),
            final(self).handles == old(self).handles,
            match r {
                Ok(a) => {
                    &&& crate::types::spec_kind_from_mode(mode) is Some
                    &&& !old(self).store.has_entry(parent, name@)
                    &&& old(self).store.next_ino < u64::MAX
                    &&& a == (FileAttr {
                        ino: old(self).store.next_ino,
                        ..spec_new_attr(
                            crate::types::spec_kind_from_mode(mode)->Some_0,
                            ((mode & !umask) & 0xFFFF) as u16,
                            1u32,
                            req.uid,
                            req.gid,
                            rdev,
                            POSIX_BLOCK_SIZE as u32,
                            req.now,
                        )
                    })
                    &&& final(self).store.inode_map() =~= old(self).store.inode_map().insert(
                        a.ino,
                        a,
                    )
                    &&& final(self).store.entries_view() =~= old(self).store.entries_view().push(
                        (parent, name@, a.ino),
                    )
                    &&& final(self).store.entry_map() =~= old(self).store.entry_map().insert(
                        (parent, name@),
                        a.ino,
                    )
                    &&& final(self).store.content_map() =~= old(self).store.content_map()
                },
                Err(e) => {
                    &&& *final(self) == *old(self)
                    &&& match e {
                        FsError::InvalidArgument => crate::types::spec_kind_from_mode(mode)
                            is None,
                        FsError::AlreadyExists => crate::types::spec_kind_from_mode(mode) is Some
                            && old(self).store.has_entry(parent, name@),
                        FsError::Overflow => crate::types::spec_kind_from_mode(mode) is Some
                            && !old(self).store.has_entry(parent, name@) && old(
                            self,
                        ).store.next_ino == u64::MAX,
                        _ => false,
                    }
                },
            },
    {
        let kind = match FileKind::from_mode(mode) {
            Some(k) => k,
            None => { return Err(FsError::InvalidArgument); },
        };
        if self.store.lookup_entry(parent, &name).is_ok() {
            return Err(FsError::AlreadyExists);
        }
        let attr = FileAttr {
            ino: 0,
            size: 0,
            blocks: 0,
            atime: req.now,
            mtime: req.now,
            ctime: req.now,
            crtime: req.now,
            kind,
            perm: ((mode & !umask) & 0xFFFF) as u16,
            nlink: 1,
            uid: req.uid,
            gid: req.gid,
            rdev,
            blksize: POSIX_BLOCK_SIZE as u32,
            flags: 0,
        };
        let created = self.store.create_inode(attr)?;
        match self.store.create_entry(parent, name, created.ino) {
            Ok(()) => Ok(created),
            Err(e) => {
                // unreachable: the key was checked free and creating the
                // inode does not touch the namespace
                Err(e)
            },
        }
    }

    /// Create a directory, which starts with a link count of two.
    pub fn mkdir(
        &mut self,
        req: RequestInfo,
        parent: u64,
        name: Vec<u8>,
        mode: u32,
        umask: u32,
    ) -> (r: Result<FileAttr, FsError>)
        requires
            old(self).wf(),
            valid_name(name@),
        ensures
            final(self).wf(),
            final(self).handles == old(self).handles,
            match r {
                Ok(a) => {
                    &&& !old(self).store.has_entry(parent, name@)
                    &&& old(self).store.next_ino < u64::MAX
                    &&& a == (FileAttr {
                        ino: old(self).store.next_ino,
                        ..spec_new_attr(
                            FileKind::Directory,
                            ((mode & !umask) & 0xFFFF) as u16,
                            2u32,
                            req.uid,
                            req.gid,
                            0u32,
                            0u32,
                            req.now,
                        )
                    })
                    &&& final(self).store.inode_map() =~= old(self).store.inode_map().insert(
                        a.ino,
                        a,
                    )
                    &&& final(self).store.entries_view() =~= old(self).store.entries_view().push(
                        (parent, name@, a.ino),
                    )
                    &&& final(self).store.entry_map() =~= old(self).store.entry_map().insert(
                        (parent, name@),
                        a.ino,
                    )
                    &&& final(self).store.content_map() =~= old(self).store.content_map()
                },
                Err(e) => {
                    &&& *final(self) == *old(self)
                    &&& match e {
                        FsError::AlreadyExists => old(self).store.has_entry(parent, name@),
                        FsError::Overflow => !old(self).store.has_entry(parent, name@) && old(
                            self,
                        ).store.next_ino == u64::MAX,
                        _ => false,
                    }
                },
            },
    {
        if self.store.lookup_entry(parent, &name).is_ok() {
            return Err(FsError::AlreadyExists);
        }
        let attr = FileAttr {
            ino: 0,
            size: 0,
            blocks: 0,
            atime: req.now,
            mtime: req.now,
            ctime: req.now,
            crtime: req.now,
            kind: FileKind::Directory,
            perm: ((mode & !umask) & 0xFFFF) as u16,
            nlink: 2,
            uid: req.uid,
            gid: req.gid,
            rdev: 0,
            blksize: 0,
            flags: 0,
        };
        let created = self.store.create_inode(attr)?;
        match self.store.create_entry(parent, name, created.ino) {
            Ok(()) => Ok(created),
            Err(e) => Err(e),
        }
    }

    /// Add one more name for an existing inode: the new directory entry is
    /// written and the link count incremented, in that order.
    pub fn link(&mut self, ino: u64, new_parent: u64, new_name: Vec<u8>) -> (r: Result<
        FileAttr,
        FsError,
    >)
        requires
            old(self).wf(),
            valid_name(new_name@),
        ensures
            final(self).wf(),
            final(self).handles == old(self).handles,
            match r {
                Ok(a) => {
                    &&& old(self).store.has_inode(ino)
                    &&& !old(self).store.has_entry(new_parent, new_name@)
                    &&& old(self).store.inode_of(ino).nlink < u32::MAX
                    &&& a == (FileAttr {
                        nlink: (old(self).store.inode_of(ino).nlink + 1) as u32,
                        ..old(self).store.inode_of(ino)
                    })
                    &&& final(self).store.inode_map() =~= old(self).store.inode_map().insert(
                        ino,
                        a,
                    )
                    &&& final(self).store.entries_view() =~= old(self).store.entries_view().push(
                        (new_parent, new_name@, ino),
                    )
                    &&& final(self).store.entry_map() =~= old(self).store.entry_map().insert(
                        (new_parent, new_name@),
                        ino,
                    )
                    &&& final(self).store.content_map() =~= old(self).store.content_map()
                },
                Err(e) => {
                    &&& *final(self) == *old(self)
                    &&& match e {
                        FsError::NotFound => !old(self).store.has_inode(ino),
                        FsError::Overflow => old(self).store.has_inode(ino) && old(
                            self,
                        ).store.inode_of(ino).nlink == u32::MAX,
                        FsError::AlreadyExists => old(self).store.has_inode(ino) && old(
                            self,
                        ).store.inode_of(ino).nlink < u32::MAX && old(self).store.has_entry(
                            new_parent,
                            new_name@,
                        ),
                        _ => false,
                    }
                },
            },
    {
        let attr = self.store.lookup_inode(ino)?;
        if attr.nlink == u32::MAX {
            return Err(FsError::Overflow);
        }
        let new_nlink = attr.nlink + 1;
        self.store.create_entry(new_parent, new_name, ino)?;
        match self.store.set_attr(ino, AttrField::Nlink, new_nlink as u64) {
            Ok(()) => {},
            Err(e) => { return Err(e); },
        }
        proof {
            assert(spec_patch(attr, AttrField::Nlink, new_nlink as u64).nlink == new_nlink)
                by (bit_vector)
                requires
                    spec_patch(attr, AttrField::Nlink, new_nlink as u64).nlink == (new_nlink
                        as u64 & 0xFFFF_FFFF) as u32,
            ;
        }
        Ok(FileAttr { nlink: new_nlink, ..attr })
    }

    /// Remove the name `(parent, name)`; when it was the last link, the
    /// inode and all of its content blocks are removed with it.
    pub fn unlink(&mut self, parent: u64, name: &Vec<u8>) -> (r: Result<(), FsError>)
        requires
            old(self).wf(),
        ensures
            final(self).wf(),
            final(self).handles == old(self).handles,
            match r {
                Ok(()) => {
                    &&& old(self).store.has_entry(parent, name@)
                    &&& ({
                        let ino = old(self).store.child_of(parent, name@);
                        &&& old(self).store.has_inode(ino)
                        &&& final(self).store.entry_map() =~= old(self).store.entry_map().remove(
                            (parent, name@),
                        )
                        &&& (old(self).store.inode_of(ino).nlink > 1 ==> {
                            &&& final(self).store.inode_map() =~= old(
                                self,
                            ).store.inode_map().insert(
                                ino,
                                (FileAttr {
                                    nlink: (old(self).store.inode_of(ino).nlink - 1) as u32,
                                    ..old(self).store.inode_of(ino)
                                }),
                            )
                            &&& final(self).store.content_map() =~= old(self).store.content_map()
                        })
                        &&& (old(self).store.inode_of(ino).nlink == 1 ==> {
                            &&& final(self).store.inode_map() =~= old(
                                self,
                            ).store.inode_map().remove(ino)
                            &&& final(self).store.content_map() =~= old(
                                self,
                            ).store.content_map().remove(ino)
                        })
                    })
                },
                Err(e) => {
                    &&& e == FsError::NotFound
                    &&& *final(self) == *old(self)
                    &&& (!old(self).store.has_entry(parent, name@) || !old(self).store.has_inode(
                        old(self).store.child_of(parent, name@),
                    ))
                },
            },
    {
        let ino = self.store.lookup_entry(parent, name)?;
        let attr = self.store.lookup_inode(ino)?;
        if attr.nlink > 1 {
            let new_nlink = attr.nlink - 1;
            match self.store.set_attr(ino, AttrField::Nlink, new_nlink as u64) {
                Ok(()) => {},
                Err(e) => { return Err(e); },
            }
            proof {
                assert(spec_patch(attr, AttrField::Nlink, new_nlink as u64).nlink == new_nlink)
                    by (bit_vector)
                    requires
                        spec_patch(attr, AttrField::Nlink, new_nlink as u64).nlink == (new_nlink
                            as u64 & 0xFFFF_FFFF) as u32,
                ;
            }
        } else {
            match self.store.purge_inode(ino) {
                Ok(()) => {},
                Err(e) => { return Err(e); },
            }
        }
        match self.store.remove_entry(parent, name) {
            Ok(()) => Ok(()),
            Err(e) => Err(e),
        }
    }

    /// Remove a directory's name; refused while the directory still has
    /// entries of its own.
    pub fn rmdir(&mut self, parent: u64, name: &Vec<u8>) -> (r: Result<(), FsError>)
        requires
            old(self).wf(),
        ensures
            final(self).wf(),
            final(self).handles == old(self).handles,
            match r {
                Ok(()) => {
                    &&& old(self).store.has_entry(parent, name@)
                    &&& ({
                        let ino = old(self).store.child_of(parent, name@);
                        &&& old(self).store.dir_is_empty(ino)
                        &&& old(self).store.has_inode(ino)
                        &&& final(self).store.entry_map() =~= old(self).store.entry_map().remove(
                            (parent, name@),
                        )
                        &&& final(self).store.inode_map() =~= old(self).store.inode_map().remove(
                            ino,
                        )
                        &&& final(self).store.content_map() =~= old(
                            self,
                        ).store.content_map().remove(ino)
                    })
                },
                Err(e) => {
                    &&& *final(self) == *old(self)
                    &&& match e {
                        FsError::NotFound => !old(self).store.has_entry(parent, name@) || (old(
                            self,
                        ).store.dir_is_empty(old(self).store.child_of(parent, name@))
                            && !old(self).store.has_inode(old(self).store.child_of(parent, name@))),
                        FsError::NotEmpty => old(self).store.has_entry(parent, name@)
                            && !old(self).store.dir_is_empty(
                            old(self).store.child_of(parent, name@),
                        ),
                        _ => false,
                    }
                },
            },
    {
        let ino = self.store.lookup_entry(parent, name)?;
        if !self.store.is_dir_empty(ino) {
            return Err(FsError::NotEmpty);
        }
        match self.store.purge_inode(ino) {
            Ok(()) => {},
            Err(e) => { return Err(e); },
        }
        match self.store.remove_entry(parent, name) {
            Ok(()) => Ok(()),
            Err(e) => Err(e),
        }
    }

    /// List a directory from a resumable position (see `Store::list_dir`).
    pub fn readdir(&self, ino: u64, start: u64, max: usize) -> (r: Result<
        Vec<ListDirEntry>,
        FsError,
    >)
        requires
            self.wf(),
        ensures
            r is Ok,
            ({
                let full = self.store.spec_list_from(ino, start as int);
                (r->Ok_0)@.map_values(|e: ListDirEntry| e.view_tuple()) =~= if max < full.len() {
                    full.take(max as int)
                } else {
                    full
                }
            }),
    {
        Ok(self.store.list_dir(ino, start, max))
    }

    /// Move an entry to a new key, silently replacing what was there.
    pub fn rename(
        &mut self,
        parent: u64,
        name: &Vec<u8>,
        new_parent: u64,
        new_name: Vec<u8>,
    ) -> (r: Result<(), FsError>)
        requires
            old(self).wf(),
            valid_name(new_name@),
        ensures
            final(self).wf(),
            final(self).handles == old(self).handles,
            match r {
                Ok(()) => {
                    &&& old(self).store.has_entry(parent, name@)
                    &&& final(self).store.entry_map() =~= old(self).store.entry_map().remove(
                        (parent, name@),
                    ).insert((new_parent, new_name@), old(self).store.child_of(parent, name@))
                    &&& final(self).store.inode_map() =~= old(self).store.inode_map()
                    &&& final(self).store.content_map() =~= old(self).store.content_map()
                },
                Err(e) => {
                    &&& e == FsError::NotFound
                    &&& !old(self).store.has_entry(parent, name@)
                    &&& *final(self) == *old(self)
                },
            },
    {
        self.store.rename_entry(parent, name, new_parent, new_name)
    }

    /// Open an inode: parse the flags, seed the handle with the file's size,
    /// and hand out a slot identifier.
    pub fn open(&mut self, ino: u64, flags: i32) -> (r: Result<(u64, u32), FsError>)
        requires
            old(self).wf(),
        ensures
            final(self).wf(),
            final(self).store == old(self).store,
            match r {
                Ok((fh, echoed)) => {
                    &&& old(self).store.has_inode(ino)
                    &&& echoed == flags as u32
                    &&& fh <= usize::MAX
                    &&& !old(self).handles.live(fh as int)
                    &&& final(self).handles.live(fh as int)
                    &&& final(self).handles.handle_of(fh as int) == (FileHandle {
                        ino,
                        offset: 0,
                        end_offset: old(self).store.inode_of(ino).size,
                        flags: spec_parse_flags(flags),
                        buffer: final(self).handles.handle_of(fh as int).buffer,
                        buffer_offset: 0,
                    })
                    &&& final(self).handles.handle_of(fh as int).buffer@ =~= Seq::<u8>::empty()
                    &&& HandleTable::others_unchanged(
                        old(self).handles,
                        final(self).handles,
                        fh as int,
                    )
                },
                Err(e) => {
                    &&& e == FsError::NotFound
                    &&& !old(self).store.has_inode(ino)
                    &&& *final(self) == *old(self)
                },
            },
    {
        let attr = self.store.lookup_inode(ino)?;
        let parsed = OpenFlags::from(flags);
        let h = FileHandle::new(ino, attr.size, parsed);
        let fh = self.handles.insert(h);
        Ok((fh as u64, flags as u32))
    }

    /// Serve a read from the committed blocks (see `Store::read_file`);
    /// buffered bytes of open handles are not visible until flushed.
    pub fn read(&self, ino: u64, offset: u64, size: u32) -> (r: Result<Vec<u8>, FsError>)
        requires
            self.wf(),
        ensures
            match r {
                Ok(buf) => self.store.has_inode(ino) && buf@ =~= self.store.spec_read(
                    ino,
                    offset,
                    size,
                ),
                Err(e) => e == FsError::NotFound && !self.store.has_inode(ino),
            },
    {
        self.store.read_file(ino, offset, size)
    }

    /// Move a handle's seek cursor. `whence` selects the base: 0 is the
    /// start of the file, 1 the current cursor, 2 the end of the inode named
    /// by the `ino` argument; the result is the new cursor. An out-of-range
    /// target is refused as an invalid argument and leaves the cursor where
    /// it was.
    #[verifier::rlimit(100)]
    #[verifier::spinoff_prover]
    pub fn lseek(&mut self, ino: u64, fh: u64, offset: i64, whence: i32) -> (r: Result<
        i64,
        FsError,
    >)
        requires
            old(self).wf(),
        ensures
            final(self).wf(),
            final(self).store == old(self).store,
            r is Err ==> HandleTable::others_unchanged(
                old(self).handles,
                final(self).handles,
                -1,
            ),
            fh > usize::MAX ==> r == Err::<i64, FsError>(FsError::NotFound),
            fh <= usize::MAX && !old(self).handles.live(fh as int) ==> r == Err::<i64, FsError>(
                FsError::NotFound,
            ),
            fh <= usize::MAX && old(self).handles.live(fh as int) ==> {
                let h0 = old(self).handles.handle_of(fh as int);
                &&& (r is Ok ==> {
                    &&& final(self).handles.live(fh as int)
                    &&& final(self).handles.handle_of(fh as int) == (FileHandle {
                        offset: r->Ok_0 as u64,
                        ..h0
                    })
                    &&& r->Ok_0 >= 0
                    &&& HandleTable::others_unchanged(
                        old(self).handles,
                        final(self).handles,
                        fh as int,
                    )
                    &&& (whence == 0 ==> r->Ok_0 == offset)
                    &&& (whence == 1 ==> r->Ok_0 == h0.offset + offset)
                    &&& (whence == 2 ==> old(self).store.has_inode(ino) && r->Ok_0 == old(
                        self,
                    ).store.inode_of(ino).size + offset)
                })
                &&& (whence == 0 && 0 <= offset ==> r is Ok)
                &&& (whence == 0 && offset < 0 ==> r == Err::<i64, FsError>(
                    FsError::InvalidArgument,
                ))
                &&& (whence == 1 && h0.offset <= i64::MAX && 0 <= h0.offset + offset
                    <= i64::MAX ==> r is Ok)
                &&& (whence == 1 && (h0.offset > i64::MAX || h0.offset + offset < 0 || h0.offset
                    + offset > i64::MAX) ==> r == Err::<i64, FsError>(FsError::InvalidArgument))
                &&& (whence == 2 && !old(self).store.has_inode(ino) ==> r == Err::<i64, FsError>(
                    FsError::NotFound,
                ))
                &&& (whence == 2 && old(self).store.has_inode(ino) && 0 <= old(
                    self,
                ).store.inode_of(ino).size + offset <= i64::MAX ==> r is Ok)
                &&& (whence == 2 && old(self).store.has_inode(ino) && (old(
                    self,
                ).store.inode_of(ino).size + offset < 0 || old(self).store.inode_of(ino).size
                    + offset > i64::MAX) ==> r == Err::<i64, FsError>(FsError::InvalidArgument))
                &&& (!(whence == 0 || whence == 1 || whence == 2) ==> r == Err::<i64, FsError>(
                    FsError::InvalidArgument,
                ))
            },
    {
        if fh > usize::MAX as u64 {
            return Err(FsError::NotFound);
        }
        let key = fh as usize;
        let mut h = match self.handles.take(key) {
            Ok(h) => h,
            Err(e) => { return Err(e); },
        };
        let new_offset: Result<u64, FsError> = if whence == 0 {
            if offset >= 0 {
                Ok(offset as u64)
            } else {
                Err(FsError::InvalidArgument)
            }
        } else if whence == 1 {
            if h.offset > i64::MAX as u64 {
                Err(FsError::InvalidArgument)
            } else {
                match (h.offset as i64).checked_add(offset) {
                    Some(v) => {
                        if v >= 0 {
                            Ok(v as u64)
                        } else {
                            Err(FsError::InvalidArgument)
                        }
                    },
                    None => Err(FsError::InvalidArgument),
                }
            }
        } else if whence == 2 {
            match self.store.lookup_inode(ino) {
                Ok(attr) => {
                    match (attr.size as i64).checked_add(offset) {
                        Some(v) => {
                            if v >= 0 {
                                Ok(v as u64)
                            } else {
                                Err(FsError::InvalidArgument)
                            }
                        },
                        None => Err(FsError::InvalidArgument),
                    }
                },
                Err(e) => Err(e),
            }
        } else {
            Err(FsError::InvalidArgument)
        };
        match new_offset {
            Ok(v) => {
                h.offset = v;
                let out = v as i64;
                self.handles.restore(key, h);
                Ok(out)
            },
            Err(e) => {
                self.handles.restore(key, h);
                Err(e)
            },
        }
    }

    /// Commit a handle's buffered bytes to the block store and empty the
    /// buffer; flushing an empty buffer changes nothing. A failed flush
    /// leaves the buffer pending.
    #[verifier::rlimit(100)]
    #[verifier::spinoff_prover]
    fn flush_buffer(store: &mut Store, h: &mut FileHandle) -> (r: Result<(), FsError>)
        requires
            old(store).wf(),
            old(h).wf(),
        ensures
            final(store).wf(),
            final(h).wf(),
            final(h).ino == old(h).ino,
            final(h).offset == old(h).offset,
            final(h).end_offset == old(h).end_offset,
            final(h).flags == old(h).flags,
            r is Ok <==> (old(h).buffer@.len() == 0 || old(store).has_inode(old(h).ino)),
            r is Err ==> r->Err_0 == FsError::NotFound && *final(store) == *old(store) && *final(h)
                == *old(h),
            r is Ok ==> {
                &&& final(h).buffer@ =~= Seq::<u8>::empty()
                &&& final(h).buffer_offset == old(h).write_cursor()
                &&& FuseDriver::effective_bytes(*final(store), *final(h))
                    =~= FuseDriver::effective_bytes(*old(store), *old(h))
                &&& (old(h).buffer@.len() == 0 ==> *final(store) == *old(store))
                &&& (old(h).buffer@.len() > 0 ==> {
                    let nb = crate::content::spec_overlay(
                        old(store).file_bytes(old(h).ino),
                        old(h).buffer_offset as int,
                        old(h).buffer@,
                    );
                    &&& old(store).has_inode(old(h).ino)
                    &&& final(store).content_map() =~= old(store).content_map().insert(
                        old(h).ino,
                        nb,
                    )
                    &&& final(store).inode_map() =~= old(store).inode_map().insert(
                        old(h).ino,
                        (FileAttr {
                            size: nb.len() as u64,
                            blocks: spec_block_count(nb.len() as u64) as u64,
                            ..old(store).inode_of(old(h).ino)
                        }),
                    )
                    &&& final(store).entries == old(store).entries
                    &&& final(store).next_ino == old(store).next_ino
                })
            },
    {
        if h.buffer.len() == 0 {
            proof {
                assert(h.buffer_offset == h.write_cursor());
            }
            return Ok(());
        }
        let ghost pre_store = *store;
        let ghost pre_h = *h;
        match store.write_file(h.ino, h.buffer_offset, &h.buffer) {
            Ok(()) => {
                h.clear_buffer();
                proof {
                    let nb = crate::content::spec_overlay(
                        pre_store.file_bytes(pre_h.ino),
                        pre_h.buffer_offset as int,
                        pre_h.buffer@,
                    );
                    assert(store.content_map().contains_key(pre_h.ino));
                    assert(store.has_content(pre_h.ino));
                    assert(store.content_map()[pre_h.ino] == nb);
                    assert(store.content_of(pre_h.ino) == store.content_map()[pre_h.ino]);
                    assert(store.file_bytes(pre_h.ino) =~= nb);
                    assert(FuseDriver::effective_bytes(*store, *h) =~= nb);
                }
                Ok(())
            },
            Err(e) => {
                proof {
                    assert(e == FsError::NotFound);
                }
                Err(e)
            },
        }
    }

    /// Explicit sync point for a handle: flush its buffer, keeping the
    /// handle open. On failure the buffered bytes stay pending.
    #[verifier::rlimit(100)]
    #[verifier::spinoff_prover]
    pub fn flush(&mut self, fh: u64) -> (r: Result<(), FsError>)
        requires
            old(self).wf(),
        ensures
            final(self).wf(),
            fh > usize::MAX ==> r == Err::<(), FsError>(FsError::Overflow) && *final(self) == *old(
                self,
            ),
            fh <= usize::MAX && !old(self).handles.live(fh as int) ==> r == Err::<(), FsError>(
                FsError::NotFound,
            ) && final(self).store == old(self).store,
            fh <= usize::MAX && old(self).handles.live(fh as int) ==> {
                let h0 = old(self).handles.handle_of(fh as int);
                &&& final(self).handles.live(fh as int)
                &&& HandleTable::others_unchanged(
                    old(self).handles,
                    final(self).handles,
                    fh as int,
                )
                &&& final(self).handles.handle_of(fh as int).ino == h0.ino
                &&& (r is Ok <==> (h0.buffer@.len() == 0 || old(self).store.has_inode(h0.ino)))
                &&& (r is Err ==> r->Err_0 == FsError::NotFound && final(self).store == old(
                    self,
                ).store && final(self).handles.handle_of(fh as int) == h0)
                &&& (r is Ok ==> {
                    &&& final(self).handles.handle_of(fh as int).buffer@ =~= Seq::<u8>::empty()
                    &&& FuseDriver::effective_bytes(
                        final(self).store,
                        final(self).handles.handle_of(fh as int),
                    ) =~= FuseDriver::effective_bytes(old(self).store, h0)
                    &&& (h0.buffer@.len() == 0 ==> final(self).store == old(self).store)
                    &&& (h0.buffer@.len() > 0 ==> final(self).store.file_bytes(h0.ino)
                        =~= FuseDriver::effective_bytes(old(self).store, h0))
                    &&& final(self).store.entries == old(self).store.entries
                    &&& (forall|k: u64|
                        k != h0.ino ==> final(self).store.inode_map().contains_key(k) == old(
                            self,
                        ).store.inode_map().contains_key(k) && (old(
                            self,
                        ).store.inode_map().contains_key(k) ==> final(self).store.inode_map()[k]
                            == old(self).store.inode_map()[k]))
                })
            },
    {
        if fh > usize::MAX as u64 {
            return Err(FsError::Overflow);
        }
        let key = fh as usize;
        let mut h = match self.handles.take(key) {
            Ok(h) => h,
            Err(e) => { return Err(e); },
        };
        let ghost h_pre = h;
        let res = FuseDriver::flush_buffer(&mut self.store, &mut h);
        proof {
            if res is Ok && h_pre.buffer@.len() > 0 {
                assert(self.store.content_map().contains_key(h_pre.ino));
                assert(self.store.has_content(h_pre.ino));
                assert(self.store.content_of(h_pre.ino) == self.store.content_map()[h_pre.ino]);
            }
        }
        self.handles.restore(key, h);
        res
    }

    /// Retire a handle: flush whatever its buffer holds, then free the slot.
    /// The slot is freed even when the flush fails, as a close must not
    /// leave the identifier claimed.
    #[verifier::rlimit(100)]
    #[verifier::spinoff_prover]
    pub fn release(&mut self, fh: u64) -> (r: Result<(), FsError>)
        requires
            old(self).wf(),
        ensures
            final(self).wf(),
            fh > usize::MAX ==> r == Err::<(), FsError>(FsError::Overflow) && *final(self) == *old(
                self,
            ),
            fh <= usize::MAX && !old(self).handles.live(fh as int) ==> r == Err::<(), FsError>(
                FsError::NotFound,
            ) && *final(self) == *old(self),
            fh <= usize::MAX && old(self).handles.live(fh as int) ==> {
                let h0 = old(self).handles.handle_of(fh as int);
                &&& !final(self).handles.live(fh as int)
                &&& HandleTable::others_unchanged(
                    old(self).handles,
                    final(self).handles,
                    fh as int,
                )
                &&& (r is Ok <==> (h0.buffer@.len() == 0 || old(self).store.has_inode(h0.ino)))
                &&& (r is Err ==> r->Err_0 == FsError::NotFound && final(self).store == old(
                    self,
                ).store)
                &&& (r is Ok ==> {
                    &&& (h0.buffer@.len() == 0 ==> final(self).store == old(self).store)
                    &&& (h0.buffer@.len() > 0 ==> final(self).store.file_bytes(h0.ino)
                        =~= FuseDriver::effective_bytes(old(self).store, h0))
                    &&& final(self).store.entries == old(self).store.entries
                    &&& (forall|k: u64|
                        k != h0.ino ==> final(self).store.inode_map().contains_key(k) == old(
                            self,
                        ).store.inode_map().contains_key(k) && (old(
                            self,
                        ).store.inode_map().contains_key(k) ==> final(self).store.inode_map()[k]
                            == old(self).store.inode_map()[k]))
                })
            },
    {
        if fh > usize::MAX as u64 {
            return Err(FsError::Overflow);
        }
        let key = fh as usize;
        let mut h = match self.handles.release(key) {
            Ok(h) => h,
            Err(e) => { return Err(e); },
        };
        let ghost h_pre = h;
        let res = FuseDriver::flush_buffer(&mut self.store, &mut h);
        proof {
            if res is Ok && h_pre.buffer@.len() > 0 {
                assert(self.store.content_map().contains_key(h_pre.ino));
                assert(self.store.has_content(h_pre.ino));
                assert(self.store.content_of(h_pre.ino) == self.store.content_map()[h_pre.ino]);
            }
        }
        res
    }

    /// Accept `data` at byte `offset` through a handle's write buffer.
    /// A non-sequential offset first flushes the buffer and re-tags it; the
    /// buffer is also flushed each time it reaches its capacity. All input
    /// is always accepted; durability comes with the next flush or release.
    #[verifier::rlimit(100)]
    #[verifier::spinoff_prover]
    pub fn write(&mut self, fh: u64, offset: u64, data: &Vec<u8>) -> (r: Result<u32, FsError>)
        requires
            old(self).wf(),
        ensures
            final(self).wf(),
            fh > usize::MAX ==> r == Err::<u32, FsError>(FsError::Overflow) && *final(self) == *old(
                self,
            ),
            fh <= usize::MAX && !old(self).handles.live(fh as int) ==> r == Err::<u32, FsError>(
                FsError::NotFound,
            ) && *final(self) == *old(self),
            fh <= usize::MAX && old(self).handles.live(fh as int) && offset + data@.len()
                > MAX_FILE_SIZE ==> r == Err::<u32, FsError>(FsError::Overflow) && final(self).store
                == old(self).store && final(self).handles.live(fh as int)
                && final(self).handles.handle_of(fh as int) == old(self).handles.handle_of(
                fh as int,
            ) && HandleTable::others_unchanged(
                old(self).handles,
                final(self).handles,
                fh as int,
            ),
            fh <= usize::MAX && old(self).handles.live(fh as int) && offset + data@.len()
                <= MAX_FILE_SIZE ==> {
                let h0 = old(self).handles.handle_of(fh as int);
                &&& final(self).handles.live(fh as int)
                &&& final(self).handles.handle_of(fh as int).ino == h0.ino
                &&& final(self).handles.handle_of(fh as int).offset == h0.offset
                &&& final(self).handles.handle_of(fh as int).end_offset == h0.end_offset
                &&& final(self).handles.handle_of(fh as int).flags == h0.flags
                &&& HandleTable::others_unchanged(
                    old(self).handles,
                    final(self).handles,
                    fh as int,
                )
                &&& (old(self).store.has_inode(h0.ino) ==> r is Ok)
                &&& (r is Ok ==> {
                    &&& r->Ok_0 == data@.len()
                    &&& (data@.len() > 0 ==> {
                        &&& final(self).handles.handle_of(fh as int).write_cursor() == offset
                            + data@.len()
                        &&& FuseDriver::effective_bytes(
                            final(self).store,
                            final(self).handles.handle_of(fh as int),
                        ) =~= crate::content::spec_overlay(
                            FuseDriver::effective_bytes(old(self).store, h0),
                            offset as int,
                            data@,
                        )
                    })
                    &&& (data@.len() == 0 ==> FuseDriver::effective_bytes(
                        final(self).store,
                        final(self).handles.handle_of(fh as int),
                    ) =~= FuseDriver::effective_bytes(old(self).store, h0))
                    &&& final(self).store.entries == old(self).store.entries
                    &&& final(self).store.inode_map().remove(h0.ino) == old(
                        self,
                    ).store.inode_map().remove(h0.ino)
                })
                &&& (r is Err ==> r->Err_0 == FsError::NotFound && !old(self).store.has_inode(
                    h0.ino,
                ) && final(self).store == old(self).store)
            },
    {
        if fh > usize::MAX as u64 {
            return Err(FsError::Overflow);
        }
        let key = fh as usize;
        let mut h = match self.handles.take(key) {
            Ok(h) => h,
            Err(e) => { return Err(e); },
        };
        if offset > MAX_FILE_SIZE || data.len() as u64 > MAX_FILE_SIZE - offset {
            self.handles.restore(key, h);
            return Err(FsError::Overflow);
        }
        let ghost store0 = self.store;
        let ghost h0 = h;
        let ghost ino = h.ino;
        let ghost base = FuseDriver::effective_bytes(store0, h0);
        // a non-sequential write first commits the buffered bytes where they
        // belong, then re-tags the empty buffer at the new offset
        if h.write_offset() != offset {
            match FuseDriver::flush_buffer(&mut self.store, &mut h) {
                Ok(()) => {},
                Err(e) => {
                    self.handles.restore(key, h);
                    return Err(e);
                },
            }
            h.seek_to(offset);
            proof {
                if h0.buffer@.len() > 0 {
                    assert(self.store.inode_map().contains_key(ino));
                    assert(self.store.has_inode(ino));
                    assert(self.store.inode_map().remove(ino) =~= store0.inode_map().remove(ino));
                }
            }
        }
        proof {
            assert(FuseDriver::effective_bytes(self.store, h) =~= base);
        }
        let mut consumed: usize = 0;
        while consumed < data.len()
            invariant
                self.wf(),
                h.wf(),
                fh == key as u64,
                fh <= usize::MAX,
                old(self).handles.live(fh as int),
                h0 == old(self).handles.handle_of(fh as int),
                store0 == old(self).store,
                base == FuseDriver::effective_bytes(store0, h0),
                ino == h0.ino,
                h.ino == ino,
                h.offset == h0.offset,
                h.end_offset == h0.end_offset,
                h.flags == h0.flags,
                consumed <= data@.len(),
                data@.len() <= usize::MAX,
                offset + data@.len() <= MAX_FILE_SIZE,
                h.write_cursor() == offset + consumed,
                data@.len() == 0 ==> FuseDriver::effective_bytes(self.store, h) =~= base,
                h.buffer@.len() == 0 ==> consumed == 0 && FuseDriver::effective_bytes(
                    self.store,
                    h,
                ) =~= base,
                h.buffer@.len() > 0 ==> FuseDriver::effective_bytes(self.store, h)
                    =~= crate::content::spec_overlay(
                    base,
                    offset as int,
                    data@.take(consumed as int),
                ),
                self.store.has_inode(ino) || self.store == store0,
                self.store.entries == store0.entries,
                self.store.inode_map().remove(ino) == store0.inode_map().remove(ino),
                self.handles.wf(),
                !self.handles.live(key as int),
                key < self.handles.slots@.len(),
                forall|j: int|
                    0 <= j < self.handles.free@.len() ==> (#[trigger] self.handles.free@[j]) != key,
                HandleTable::others_unchanged(old(self).handles, self.handles, key as int),
            decreases data@.len() - consumed,
        {
            let ghost store_iter = self.store;
            let ghost h_iter = h;
            if h.buffer_full() {
                match FuseDriver::flush_buffer(&mut self.store, &mut h) {
                    Ok(()) => {},
                    Err(e) => {
                        self.handles.restore(key, h);
                        return Err(e);
                    },
                }
                proof {
                    assert(self.store.inode_map().contains_key(ino));
                    assert(self.store.has_inode(ino));
                    assert(self.store.inode_map().remove(ino) =~= store_iter.inode_map().remove(
                        ino,
                    ));
                    // the committed bytes now carry everything accepted so far
                    assert(self.store.file_bytes(ino) =~= crate::content::spec_overlay(
                        base,
                        offset as int,
                        data@.take(consumed as int),
                    ));
                }
            }
            let ghost h_before = h;
            let ghost fb_before = self.store.file_bytes(ino);
            let n = h.consume_input(data, consumed);
            proof {
                let chunk = data@.subrange(consumed as int, consumed + n);
                assert(h.buffer@ =~= h_before.buffer@ + chunk);
                if h_before.buffer@.len() == 0 {
                    assert(FuseDriver::effective_bytes(self.store, h)
                        =~= crate::content::spec_overlay(
                        fb_before,
                        offset + consumed,
                        chunk,
                    ));
                    if h_iter.buffer@.len() > 0 {
                        assert(fb_before =~= crate::content::spec_overlay(
                            base,
                            offset as int,
                            data@.take(consumed as int),
                        ));
                        crate::content::lemma_overlay_append(
                            base,
                            offset as int,
                            data@.take(consumed as int),
                            chunk,
                        );
                        assert(data@.take(consumed as int) + chunk =~= data@.take(consumed + n));
                        assert(FuseDriver::effective_bytes(self.store, h)
                            =~= crate::content::spec_overlay(
                            base,
                            offset as int,
                            data@.take(consumed + n),
                        ));
                    } else {
                        assert(consumed == 0);
                        assert(fb_before =~= base);
                        assert(chunk =~= data@.take(n as int));
                        assert(FuseDriver::effective_bytes(self.store, h)
                            =~= crate::content::spec_overlay(
                            base,
                            offset as int,
                            data@.take(consumed + n),
                        ));
                    }
                } else {
                    crate::content::lemma_overlay_append(
                        fb_before,
                        h.buffer_offset as int,
                        h_before.buffer@,
                        chunk,
                    );
                    assert(FuseDriver::effective_bytes(self.store, h)
                        =~= crate::content::spec_overlay(
                        FuseDriver::effective_bytes(self.store, h_before),
                        offset + consumed,
                        chunk,
                    ));
                    crate::content::lemma_overlay_append(
                        base,
                        offset as int,
                        data@.take(consumed as int),
                        chunk,
                    );
                    assert(data@.take(consumed as int) + chunk =~= data@.take(consumed + n));
                    assert(FuseDriver::effective_bytes(self.store, h)
                        =~= crate::content::spec_overlay(
                        base,
                        offset as int,
                        data@.take(consumed + n),
                    ));
                }
            }
            consumed = consumed + n;
        }
        proof {
            if data@.len() > 0 {
                assert(data@.take(consumed as int) =~= data@);
            }
        }
        self.handles.restore(key, h);
        proof {
            assert(self.handles.handle_of(key as int) == h);
        }
        Ok(data.len() as u32)
    }

    /// Apply the permission and ownership patches of a request.
    #[verifier::rlimit(100)]
    #[verifier::spinoff_prover]
    fn apply_owner_patches(&mut self, ino: u64, req: SetAttrRequest) -> (r: Result<(), FsError>)
        requires
            old(self).wf(),
            old(self).store.has_inode(ino),
        ensures
            final(self).wf(),
            final(self).handles == old(self).handles,
            r is Ok,
            final(self).store.inode_map() =~= old(self).store.inode_map().insert(
                ino,
                spec_setattr_owner(old(self).store.inode_of(ino), req),
            ),
            final(self).store.entries == old(self).store.entries,
            final(self).store.contents == old(self).store.contents,
            final(self).store.next_ino == old(self).store.next_ino,
    {
        let ghost m0 = self.store.inode_map();
        let ghost mut cur: FileAttr = Ghost(self.store.inode_of(ino))@;
        proof {
            assert(self.store.inode_map() =~= m0.insert(ino, cur));
        }
        match req.mode {
            Some(mode) => {
                match self.store.set_attr(ino, AttrField::Perm, mode as u64) {
                    Ok(()) => {},
                    Err(e) => { return Err(e); },
                }
                proof {
                    cur = spec_patch(cur, AttrField::Perm, mode as u64);
                    assert(self.store.inode_map().contains_key(ino));
                    assert(self.store.has_inode(ino));
                    assert(self.store.inode_map()[ino] == cur);
                    assert(self.store.inode_of(ino) == cur);
                    assert(self.store.inode_map() =~= m0.insert(ino, cur));
                }
            },
            None => {},
        }
        match req.uid {
            Some(uid) => {
                match self.store.set_attr(ino, AttrField::Uid, uid as u64) {
                    Ok(()) => {},
                    Err(e) => { return Err(e); },
                }
                proof {
                    cur = spec_patch(cur, AttrField::Uid, uid as u64);
                    assert(self.store.inode_map().contains_key(ino));
                    assert(self.store.has_inode(ino));
                    assert(self.store.inode_map()[ino] == cur);
                    assert(self.store.inode_of(ino) == cur);
                    assert(self.store.inode_map() =~= m0.insert(ino, cur));
                }
            },
            None => {},
        }
        match req.gid {
            Some(gid) => {
                match self.store.set_attr(ino, AttrField::Gid, gid as u64) {
                    Ok(()) => {},
                    Err(e) => { return Err(e); },
                }
                proof {
                    cur = spec_patch(cur, AttrField::Gid, gid as u64);
                    assert(self.store.inode_map().contains_key(ino));
                    assert(self.store.has_inode(ino));
                    assert(self.store.inode_map()[ino] == cur);
                    assert(self.store.inode_of(ino) == cur);
                    assert(self.store.inode_map() =~= m0.insert(ino, cur));
                }
            },
            None => {},
        }
        proof {
            assert(cur == spec_setattr_owner(old(self).store.inode_of(ino), req));
        }
        Ok(())
    }

    /// Apply the timestamp and flag patches of a request, one store update
    /// per present scalar.
    #[verifier::rlimit(100)]
    #[verifier::spinoff_prover]
    fn apply_time_patches(&mut self, ino: u64, req: SetAttrRequest) -> (r: Result<(), FsError>)
        requires
            old(self).wf(),
            old(self).store.has_inode(ino),
        ensures
            final(self).wf(),
            final(self).handles == old(self).handles,
            r is Ok,
            final(self).store.inode_map() =~= old(self).store.inode_map().insert(
                ino,
                spec_setattr_times(old(self).store.inode_of(ino), req),
            ),
            final(self).store.entries == old(self).store.entries,
            final(self).store.contents == old(self).store.contents,
            final(self).store.next_ino == old(self).store.next_ino,
    {
        let ghost m0 = self.store.inode_map();
        let ghost mut cur: FileAttr = Ghost(self.store.inode_of(ino))@;
        proof {
            assert(self.store.inode_map() =~= m0.insert(ino, cur));
        }
        match req.atime {
            Some(t) => {
                match self.store.set_attr(ino, AttrField::AtimeSecs, t.secs) {
                    Ok(()) => {},
                    Err(e) => { return Err(e); },
                }
                proof {
                    cur = spec_patch(cur, AttrField::AtimeSecs, t.secs);
                    assert(self.store.inode_map().contains_key(ino));
                    assert(self.store.has_inode(ino));
                    assert(self.store.inode_map()[ino] == cur);
                    assert(self.store.inode_of(ino) == cur);
                    assert(self.store.inode_map() =~= m0.insert(ino, cur));
                }
                match self.store.set_attr(ino, AttrField::AtimeNanos, t.nanos as u64) {
                    Ok(()) => {},
                    Err(e) => { return Err(e); },
                }
                proof {
                    cur = spec_patch(cur, AttrField::AtimeNanos, t.nanos as u64);
                    assert(self.store.inode_map().contains_key(ino));
                    assert(self.store.has_inode(ino));
                    assert(self.store.inode_map()[ino] == cur);
                    assert(self.store.inode_of(ino) == cur);
                    assert(self.store.inode_map() =~= m0.insert(ino, cur));
                }
            },
            None => {},
        }
        match req.mtime {
            Some(t) => {
                match self.store.set_attr(ino, AttrField::MtimeSecs, t.secs) {
                    Ok(()) => {},
                    Err(e) => { return Err(e); },
                }
                proof {
                    cur = spec_patch(cur, AttrField::MtimeSecs, t.secs);
                    assert(self.store.inode_map().contains_key(ino));
                    assert(self.store.has_inode(ino));
                    assert(self.store.inode_map()[ino] == cur);
                    assert(self.store.inode_of(ino) == cur);
                    assert(self.store.inode_map() =~= m0.insert(ino, cur));
                }
                match self.store.set_attr(ino, AttrField::MtimeNanos, t.nanos as u64) {
                    Ok(()) => {},
                    Err(e) => { return Err(e); },
                }
                proof {
                    cur = spec_patch(cur, AttrField::MtimeNanos, t.nanos as u64);
                    assert(self.store.inode_map().contains_key(ino));
                    assert(self.store.has_inode(ino));
                    assert(self.store.inode_map()[ino] == cur);
                    assert(self.store.inode_of(ino) == cur);
                    assert(self.store.inode_map() =~= m0.insert(ino, cur));
                }
            },
            None => {},
        }
        match req.ctime {
            Some(t) => {
                match self.store.set_attr(ino, AttrField::CtimeSecs, t.secs) {
                    Ok(()) => {},
                    Err(e) => { return Err(e); },
                }
                proof {
                    cur = spec_patch(cur, AttrField::CtimeSecs, t.secs);
                    assert(self.store.inode_map().contains_key(ino));
                    assert(self.store.has_inode(ino));
                    assert(self.store.inode_map()[ino] == cur);
                    assert(self.store.inode_of(ino) == cur);
                    assert(self.store.inode_map() =~= m0.insert(ino, cur));
                }
                match self.store.set_attr(ino, AttrField::CtimeNanos, t.nanos as u64) {
                    Ok(()) => {},
                    Err(e) => { return Err(e); },
                }
                proof {
                    cur = spec_patch(cur, AttrField::CtimeNanos, t.nanos as u64);
                    assert(self.store.inode_map().contains_key(ino));
                    assert(self.store.has_inode(ino));
                    assert(self.store.inode_map()[ino] == cur);
                    assert(self.store.inode_of(ino) == cur);
                    assert(self.store.inode_map() =~= m0.insert(ino, cur));
                }
            },
            None => {},
        }
        match req.crtime {
            Some(t) => {
                match self.store.set_attr(ino, AttrField::CrtimeSecs, t.secs) {
                    Ok(()) => {},
                    Err(e) => { return Err(e); },
                }
                proof {
                    cur = spec_patch(cur, AttrField::CrtimeSecs, t.secs);
                    assert(self.store.inode_map().contains_key(ino));
                    assert(self.store.has_inode(ino));
                    assert(self.store.inode_map()[ino] == cur);
                    assert(self.store.inode_of(ino) == cur);
                    assert(self.store.inode_map() =~= m0.insert(ino, cur));
                }
                match self.store.set_attr(ino, AttrField::CrtimeNanos, t.nanos as u64) {
                    Ok(()) => {},
                    Err(e) => { return Err(e); },
                }
                proof {
                    cur = spec_patch(cur, AttrField::CrtimeNanos, t.nanos as u64);
                    assert(self.store.inode_map().contains_key(ino));
                    assert(self.store.has_inode(ino));
                    assert(self.store.inode_map()[ino] == cur);
                    assert(self.store.inode_of(ino) == cur);
                    assert(self.store.inode_map() =~= m0.insert(ino, cur));
                }
            },
            None => {},
        }
        match req.flags {
            Some(f) => {
                match self.store.set_attr(ino, AttrField::Flags, f as u64) {
                    Ok(()) => {},
                    Err(e) => { return Err(e); },
                }
                proof {
                    cur = spec_patch(cur, AttrField::Flags, f as u64);
                    assert(self.store.inode_map().contains_key(ino));
                    assert(self.store.has_inode(ino));
                    assert(self.store.inode_map()[ino] == cur);
                    assert(self.store.inode_of(ino) == cur);
                    assert(self.store.inode_map() =~= m0.insert(ino, cur));
                }
            },
            None => {},
        }
        proof {
            assert(cur == spec_setattr_times(old(self).store.inode_of(ino), req));
        }
        Ok(())
    }

    /// Apply a patch-set to an inode: each present field is one store
    /// update, and a present size first resizes the content blocks. Returns
    /// the refreshed record.
    #[verifier::rlimit(100)]
    #[verifier::spinoff_prover]
    pub fn setattr(&mut self, ino: u64, req: SetAttrRequest) -> (r: Result<FileAttr, FsError>)
        requires
            old(self).wf(),
        ensures
            final(self).wf(),
            final(self).handles == old(self).handles,
            match r {
                Ok(out) => {
                    &&& old(self).store.has_inode(ino)
                    &&& (req.size is Some ==> req.size->0 <= MAX_FILE_SIZE)
                    &&& out == spec_setattr_attr(old(self).store.inode_of(ino), req)
                    &&& final(self).store.inode_map() =~= old(self).store.inode_map().insert(
                        ino,
                        out,
                    )
                    &&& final(self).store.entries == old(self).store.entries
                    &&& (req.size is None ==> final(self).store.contents == old(
                        self,
                    ).store.contents)
                    &&& (req.size is Some && req.size->0 == 0 ==> final(self).store.content_map()
                        =~= old(self).store.content_map().remove(ino))
                    &&& (req.size is Some && req.size->0 > 0 ==> final(self).store.content_map()
                        =~= old(self).store.content_map().insert(
                        ino,
                        Store::spec_resize(old(self).store.file_bytes(ino), req.size->0 as int),
                    ))
                },
                Err(e) => {
                    &&& *final(self) == *old(self)
                    &&& match e {
                        FsError::NotFound => !old(self).store.has_inode(ino),
                        FsError::Overflow => old(self).store.has_inode(ino) && req.size is Some
                            && req.size->0 > MAX_FILE_SIZE,
                        _ => false,
                    }
                },
            },
    {
        let a0 = self.store.lookup_inode(ino)?;
        match req.size {
            Some(sz) if sz > MAX_FILE_SIZE => { return Err(FsError::Overflow); },
            _ => {},
        }
        let ghost m0 = self.store.inode_map();
        let ghost c0 = self.store.content_map();
        let ghost fb0 = self.store.file_bytes(ino);
        let ghost mut cur: FileAttr = a0;
        proof {
            assert(self.store.inode_of(ino) == cur);
            assert(self.store.inode_map() =~= m0.insert(ino, cur));
        }
        match self.apply_owner_patches(ino, req) {
            Ok(()) => {},
            Err(e) => { return Err(e); },
        }
        proof {
            cur = spec_setattr_owner(cur, req);
            assert(self.store.inode_map().contains_key(ino));
            assert(self.store.has_inode(ino));
            assert(self.store.inode_map()[ino] == cur);
            assert(self.store.inode_of(ino) == cur);
            assert(self.store.inode_map() =~= m0.insert(ino, cur));
        }
        match req.size {
            Some(sz) => {
                match self.store.truncate_file(ino, sz) {
                    Ok(()) => {},
                    Err(e) => { return Err(e); },
                }
                proof {
                    cur = FileAttr {
                        size: sz,
                        blocks: spec_block_count(sz) as u64,
                        ..cur
                    };
                    assert(self.store.inode_map().contains_key(ino));
                    assert(self.store.has_inode(ino));
                    assert(self.store.inode_map()[ino] == cur);
                    assert(self.store.inode_of(ino) == cur);
                    assert(self.store.inode_map() =~= m0.insert(ino, cur));
                    if sz == 0 {
                        assert(self.store.content_map() =~= c0.remove(ino));
                    } else {
                        assert(self.store.content_map() =~= c0.insert(
                            ino,
                            Store::spec_resize(fb0, sz as int),
                        ));
                    }
                }
            },
            None => {},
        }
        match self.apply_time_patches(ino, req) {
            Ok(()) => {},
            Err(e) => { return Err(e); },
        }
        proof {
            cur = spec_setattr_times(cur, req);
            assert(self.store.inode_map().contains_key(ino));
            assert(self.store.has_inode(ino));
            assert(self.store.inode_map()[ino] == cur);
            assert(self.store.inode_of(ino) == cur);
            assert(self.store.inode_map() =~= m0.insert(ino, cur));
        }
        let out = match self.store.lookup_inode(ino) {
            Ok(a) => a,
            Err(e) => { return Err(e); },
        };
        proof {
            assert(out == cur);
            assert(cur == spec_setattr_attr(a0, req));
        }
        Ok(out)
    }
}

} // verus!
